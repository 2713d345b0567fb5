use anyrun_matcher::candidate::SimpleMatch;
use anyrun_matcher::matcher::{Matcher, Produced};
use anyrun_matcher::plugins::{
    project_name, recent_paths, timestamp_matcher, todo_matcher, watson_matcher, workspace_matcher,
};
use anyrun_matcher::todo::{Date, Todo};
use anyrun_matcher::watson::ProjectMatcher;

fn matches(p: Produced) -> Vec<SimpleMatch> {
    match p {
        Produced::Matches(v) => v,
        Produced::RunCommand(c) => panic!("unexpected command {}", c),
    }
}

fn date(year: i32, month: u32, day: u32) -> Date {
    Date { year, month, day }
}

fn todo(title: &str, completed: Option<Date>) -> Todo {
    Todo { title: title.to_string(), created_at: date(2024, 6, 1), completed_at: completed }
}

#[test]
fn todo_list_shows_open_entries_last_first() {
    let todos = vec![todo("first", None), todo("done", Some(date(2024, 6, 2))), todo("second", None)];
    let tree = todo_matcher(&todos, date(2024, 6, 3), "/tmp/todos.txt");
    let got = matches(tree.get_matches(vec!["list"]));
    let titles: Vec<&str> = got.iter().map(|m| m.title.as_str()).collect();
    assert_eq!(titles, vec!["second", "first"]);
    assert_eq!(
        got[1].description,
        "exec|sed -i 's|- \\[ \\] first (created at: 2024-06-01, completed at: None)|- \\[x\\] first (created at: 2024-06-01, completed at: 2024-06-03)|' /tmp/todos.txt"
    );
}

#[test]
fn todo_add_builds_append_command() {
    let tree = todo_matcher(&vec![], date(2024, 6, 3), "/tmp/todos.txt");
    let got = matches(tree.get_matches(vec!["add", "buy", "milk"]));
    assert_eq!(
        got,
        vec![SimpleMatch::new(
            "add buy milk",
            "",
            "exec|echo '- [ ] buy milk (created at: 2024-06-03, completed at: None)' >> /tmp/todos.txt"
        )]
    );
    let top = matches(tree.get_matches(vec![]));
    assert_eq!(top.len(), 2);
    assert_eq!(matches(tree.get_matches(vec!["list"])), vec![SimpleMatch::new("list", "text-x-generic", "")]);
}

#[test]
fn timestamps_copy_their_text() {
    let tree = timestamp_matcher("2024_06_01", "2024_06_01_10_00_00", "1717236000");
    let got = matches(tree.get_matches(vec!["unix"]));
    assert_eq!(got, vec![SimpleMatch::new("UNIX_TIMESTAMP", "x-office-calendar", "copy|1717236000")]);
    match tree.handle(got[0].clone()) {
        anyrun_matcher::matcher::Selection::Done(anyrun_matcher::candidate::HandleResult::Copy(b)) => {
            assert_eq!(b, b"1717236000".to_vec())
        }
        _ => panic!("expected a copy"),
    }
    assert_eq!(matches(tree.get_matches(vec!["yyyy"])).len(), 2);
}

#[test]
fn project_names_are_last_segments() {
    assert_eq!(project_name("/home/me/code/anyrun"), "anyrun");
    assert_eq!(project_name("plain"), "plain");
    assert_eq!(project_name("/ends/with/"), "");
}

#[test]
fn workspaces_are_capped_at_ten() {
    let paths: Vec<String> = (0..12).map(|i| format!("/w/p{}", i)).collect();
    let tree = workspace_matcher(&paths);
    let got = matches(tree.get_matches(vec!["p"]));
    assert_eq!(got.len(), 10);
    assert_eq!(got[0], SimpleMatch::new("p0", "folder", "exec|code \"/w/p0\""));
    let exact = matches(tree.get_matches(vec!["p11"]));
    assert_eq!(exact, vec![SimpleMatch::new("p11", "folder", "exec|code \"/w/p11\"")]);
}

#[test]
fn recent_paths_prefer_folders_and_strip_scheme() {
    let entries = vec![
        (Some("file:///home/a".to_string()), Some("file:///ws".to_string())),
        (None, None),
        (None, Some("file://file:///home/b.code-workspace".to_string())),
    ];
    assert_eq!(
        recent_paths(&entries),
        Ok(vec!["/home/a".to_string(), "/home/b.code-workspace".to_string()])
    );
    assert_eq!(recent_paths(&vec![(None, None)]), Err("No recent workspaces found".to_string()));
}

#[test]
fn watson_tree_has_stop_when_running() {
    let start = ProjectMatcher::new(vec![], vec![], vec![]);
    let tree = watson_matcher(Some("anyrun".to_string()), start);
    let got = matches(tree.get_matches(vec!["st"]));
    assert_eq!(got[0], SimpleMatch::new("stop anyrun", "media-playback-stop", "exec|watson stop"));
    assert_eq!(got[1].title, "start");
    match tree.get_matches(vec!["report", "month"]) {
        Produced::RunCommand(c) => assert_eq!(c, "watson report -m"),
        _ => panic!("expected a command"),
    }
    let idle = watson_matcher(None, ProjectMatcher::new(vec![], vec![], vec![]));
    assert_eq!(matches(idle.get_matches(vec![])).len(), 3);
    assert!(matches!(idle, Matcher::Static(_)));
}
