use anyrun_matcher::candidate::{HandleResult, SimpleMatch};
use anyrun_matcher::handlers::{CommandDisplayHandler, DisplayHandler, NoopMatcher, WildcardHandler};
use anyrun_matcher::matcher::{
    dispatch_payload, first_equal_index, keep_containing, run_outcome, Matcher, Produced, Selection, StaticMatcher,
};

fn label(title: &str) -> SimpleMatch {
    SimpleMatch::new(title, "icon", "")
}

fn matches(p: Produced) -> Vec<SimpleMatch> {
    match p {
        Produced::Matches(v) => v,
        Produced::RunCommand(c) => panic!("unexpected command {}", c),
    }
}

fn sample_tree() -> Matcher {
    let report = StaticMatcher::new()
        .with_child(label("day"), Matcher::CommandDisplay(CommandDisplayHandler::new("watson report -d")))
        .with_child(label("week"), Matcher::CommandDisplay(CommandDisplayHandler::new("watson report -w")));
    Matcher::Static(
        StaticMatcher::new()
            .with_child(label("start"), Matcher::Noop(NoopMatcher))
            .with_child(label("stop"), Matcher::Display(DisplayHandler::new("stopped", "", "info")))
            .with_child(label("report"), Matcher::Static(report))
            .with_child(
                SimpleMatch::new("add", "list-add", ""),
                Matcher::Wildcard(WildcardHandler::new("add {}", "", "exec|echo {}")),
            ),
    )
}

#[test]
fn empty_input_lists_every_child() {
    let got = matches(sample_tree().get_matches(vec![]));
    let titles: Vec<&str> = got.iter().map(|m| m.title.as_str()).collect();
    assert_eq!(titles, vec!["start", "stop", "report", "add"]);
}

#[test]
fn partial_token_filters_children_and_ignores_rest() {
    let one = matches(sample_tree().get_matches(vec!["st"]));
    let more = matches(sample_tree().get_matches(vec!["st", "anything", "else"]));
    assert_eq!(one, vec![label("start"), label("stop")]);
    assert_eq!(one, more);
}

#[test]
fn unknown_token_gives_nothing() {
    assert!(matches(sample_tree().get_matches(vec!["zzz"])).is_empty());
}

#[test]
fn exact_match_with_empty_child_gives_its_label() {
    let got = matches(sample_tree().get_matches(vec!["START", "x"]));
    assert_eq!(got, vec![label("start")]);
}

#[test]
fn exact_match_descends_into_child() {
    let got = matches(sample_tree().get_matches(vec!["stop"]));
    assert_eq!(got, vec![SimpleMatch::new("stopped", "", "info")]);
}

#[test]
fn nested_tree_reaches_command() {
    match sample_tree().get_matches(vec!["report", "week"]) {
        Produced::RunCommand(c) => assert_eq!(c, "watson report -w"),
        Produced::Matches(_) => panic!("expected a command"),
    }
    let got = matches(sample_tree().get_matches(vec!["report", "w"]));
    assert_eq!(got, vec![label("week")]);
}

#[test]
fn wildcard_template_substitutes_joined_tokens() {
    let got = matches(sample_tree().get_matches(vec!["add", "buy", "milk"]));
    assert_eq!(got, vec![SimpleMatch::new("add buy milk", "", "exec|echo buy milk")]);
}

#[test]
fn wildcard_alone() {
    let w = WildcardHandler::new("add {}", "", "no marker");
    let got = w.get_matches(vec!["buy", "milk"]);
    assert_eq!(got, vec![SimpleMatch::new("add buy milk", "", "no marker")]);
    let empty = w.get_matches(vec![]);
    assert_eq!(empty[0].title, "add ");
}

#[test]
fn result_cap_truncates_prefix_pass() {
    let tree = StaticMatcher::new()
        .with_max_results(2)
        .with_child(label("alpha"), Matcher::Noop(NoopMatcher))
        .with_child(label("beta"), Matcher::Noop(NoopMatcher))
        .with_child(label("gamma"), Matcher::Noop(NoopMatcher));
    let got = matches(Matcher::Static(tree).get_matches(vec!["a"]));
    assert_eq!(got, vec![label("alpha"), label("beta")]);
}

#[test]
fn result_cap_does_not_apply_to_exact_match() {
    let inner = StaticMatcher::new()
        .with_child(label("one"), Matcher::Noop(NoopMatcher))
        .with_child(label("two"), Matcher::Noop(NoopMatcher))
        .with_child(label("three"), Matcher::Noop(NoopMatcher));
    let tree = StaticMatcher::new().with_max_results(1).with_child(label("n"), Matcher::Static(inner));
    let got = matches(Matcher::Static(tree).get_matches(vec!["n"]));
    assert_eq!(got.len(), 3);
}

#[test]
fn first_exact_match_wins() {
    let tree = StaticMatcher::new()
        .with_child(label("Dup"), Matcher::Display(DisplayHandler::new("first", "", "")))
        .with_child(label("dup"), Matcher::Display(DisplayHandler::new("second", "", "")));
    let got = matches(Matcher::Static(tree).get_matches(vec!["dup"]));
    assert_eq!(got, vec![SimpleMatch::new("first", "", "")]);
}

#[test]
fn command_display_candidates() {
    let c = CommandDisplayHandler::new("watson log");
    assert_eq!(c.matches_for(Ok("out".to_string())), vec![SimpleMatch::new("watson log", "", "out")]);
    assert_eq!(
        c.matches_for(Err("not found".to_string())),
        vec![SimpleMatch::new("error", "dialog-error", "Failed to execute command: not found")]
    );
}

#[test]
fn copy_payload_returns_bytes() {
    match dispatch_payload("copy|hello") {
        Selection::Done(HandleResult::Copy(b)) => assert_eq!(b, b"hello".to_vec()),
        _ => panic!("expected a copy"),
    }
}

#[test]
fn exec_payload_runs_rest() {
    match dispatch_payload("exec|true") {
        Selection::RunShell(c) => assert_eq!(c, "true"),
        _ => panic!("expected a command"),
    }
    assert_eq!(run_outcome(true), HandleResult::Close);
    assert_eq!(run_outcome(false), HandleResult::Refresh(false));
}

#[test]
fn untagged_payload_refreshes() {
    match dispatch_payload("just text") {
        Selection::Done(r) => assert_eq!(r, HandleResult::Refresh(false)),
        _ => panic!("expected a refresh"),
    }
}

#[test]
fn handle_by_variant() {
    let sel = SimpleMatch::new("t", "", "copy|x");
    match Matcher::Noop(NoopMatcher).handle(sel.clone()) {
        Selection::Done(r) => assert_eq!(r, HandleResult::Refresh(false)),
        _ => panic!(),
    }
    match Matcher::Display(DisplayHandler::new("a", "", "")).handle(sel.clone()) {
        Selection::Done(r) => assert_eq!(r, HandleResult::Close),
        _ => panic!(),
    }
    match sample_tree().handle(sel) {
        Selection::Done(r) => assert_eq!(r, HandleResult::Copy(b"x".to_vec())),
        _ => panic!(),
    }
}

#[test]
fn lowered_search_functions() {
    let titles = vec!["start".to_string(), "stop".to_string(), "stop".to_string()];
    assert_eq!(first_equal_index(&titles, "stop"), Some(1));
    assert_eq!(first_equal_index(&titles, "STOP"), None);
    assert_eq!(first_equal_index(&titles, "sto"), None);
    let labels = vec![label("Start"), label("Stop"), label("Halt")];
    let lowered = vec!["start".to_string(), "stop".to_string(), "halt".to_string()];
    assert_eq!(keep_containing(&labels, &lowered, "t", 10), vec![label("Start"), label("Stop"), label("Halt")]);
    assert_eq!(keep_containing(&labels, &lowered, "st", 1), vec![label("Start")]);
    assert_eq!(keep_containing(&labels, &lowered, "T", 10), vec![]);
}
