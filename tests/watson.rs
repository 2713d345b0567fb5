use anyrun_matcher::candidate::SimpleMatch;
use anyrun_matcher::watson::{
    parse_relative_time, relative_minutes, ProjectMatcher, ProjectTagCombo, TagMatcher, TimeMatcher,
};

fn start(title: &str, command: &str) -> SimpleMatch {
    SimpleMatch::new(title, "", command)
}

fn sample() -> ProjectMatcher {
    ProjectMatcher::new(
        vec!["anyrun".to_string(), "garden".to_string()],
        vec!["coding".to_string(), "review".to_string()],
        vec![ProjectTagCombo::new("anyrun".to_string(), vec!["coding".to_string(), "ui".to_string()])],
    )
}

#[test]
fn one_token_lists_projects() {
    let got = sample().get_matches(vec!["any"]);
    assert_eq!(
        got,
        vec![
            start("any ", "exec|watson start any"),
            start("anyrun ", "exec|watson start anyrun"),
            start("anyrun +coding +ui ", "exec|watson start anyrun +coding +ui "),
        ]
    );
}

#[test]
fn no_token_lists_everything() {
    let got = sample().get_matches(vec![]);
    assert_eq!(got.len(), 4);
    assert_eq!(got[0], start(" ", "exec|watson start "));
}

#[test]
fn tag_token_suggests_tags() {
    let got = sample().get_matches(vec!["anyrun", "+co"]);
    assert_eq!(
        got,
        vec![
            start("anyrun +co", "exec|watson start anyrun +co"),
            start("anyrun +coding", "exec|watson start anyrun +coding"),
        ]
    );
}

#[test]
fn tag_matcher_keeps_earlier_words() {
    let m = TagMatcher { project: "p".to_string(), known_tags: vec!["x".to_string()] };
    let got = m.get_matches(vec!["+a", "+x"]);
    assert_eq!(got, vec![start("p +a +x", "exec|watson start p +x"), start("p +a +x", "exec|watson start p +a +x")]);
    assert!(m.get_matches(vec!["word"]).is_empty());
}

#[test]
fn time_token_gives_start_in_the_past() {
    let got = sample().get_matches(vec!["anyrun", "-1h30m"]);
    assert_eq!(got.len(), 1);
    assert_eq!(got[0].title, "anyrun  -1h30m");
    assert!(got[0].description.starts_with("exec|watson start anyrun  --at "));
    assert_eq!(got[0].description.len(), "exec|watson start anyrun  --at ".len() + 5);
}

#[test]
fn time_matcher_needs_minutes() {
    let m = TimeMatcher { project: "p".to_string() };
    assert!(m.get_matches(vec!["-0m"]).is_empty());
    assert!(m.get_matches(vec!["-abc"]).is_empty());
    assert!(m.get_matches(vec!["5m"]).is_empty());
    assert_eq!(m.get_matches(vec!["a", "--5M"]).len(), 1);
}

#[test]
fn relative_minutes_add_up() {
    assert_eq!(relative_minutes("1h30m"), 90);
    assert_eq!(relative_minutes("2H"), 120);
    assert_eq!(relative_minutes("45"), 0);
    assert_eq!(relative_minutes("1x5m"), 15);
    assert_eq!(relative_minutes("99999999999h"), 5_999_999_999_940);
    assert_eq!(relative_minutes("99999999999999999999h"), 9_223_372_036_854_775_807);
}

#[test]
fn parse_relative_time_formats_clock() {
    assert_eq!(parse_relative_time("0m"), None);
    let t = parse_relative_time("10m").unwrap();
    assert_eq!(t.len(), 5);
    assert_eq!(&t[2..3], ":");
    assert!(parse_relative_time("100000000001m").is_some());
    assert!(parse_relative_time("99999999999999999999h").is_none());
    assert!(parse_relative_time("abc").is_none());
}

#[test]
fn status_with_tags() {
    let (project, tags, elapsed) = anyrun_matcher::watson::parse_status(
        "Project anyrun-watson [coding, docs] started 3 hours ago (2025.11.06 17:00:00-0500)\n",
    )
    .unwrap();
    assert_eq!(project, "anyrun-watson");
    assert_eq!(tags, vec!["coding".to_string(), "docs".to_string()]);
    assert_eq!(elapsed, "3 hours ago");
}

#[test]
fn status_without_tags() {
    let (project, tags, elapsed) =
        anyrun_matcher::watson::parse_status("Project garden started just now").unwrap();
    assert_eq!(project, "garden");
    assert!(tags.is_empty());
    assert_eq!(elapsed, "");
}

#[test]
fn status_when_idle() {
    assert!(anyrun_matcher::watson::parse_status("No project started.").is_none());
    assert!(anyrun_matcher::watson::parse_status("   ").is_none());
    assert!(anyrun_matcher::watson::parse_status("something else").is_none());
}

#[test]
fn items_split_and_trim() {
    let got = anyrun_matcher::watson::items_of(" a , ,b,\n", ",");
    assert_eq!(got, vec!["a".to_string(), "b".to_string()]);
    let lines = anyrun_matcher::watson::items_of("coding\n  docs \n\n", "\n");
    assert_eq!(lines, vec!["coding".to_string(), "docs".to_string()]);
}

#[test]
fn combinations_are_recent_and_distinct() {
    let f = |p: &str, t: &[&str]| ProjectTagCombo::new(p.to_string(), t.iter().map(|s| s.to_string()).collect());
    let got = anyrun_matcher::watson::recent_combinations(vec![
        f("a", &["x"]),
        f("b", &[]),
        f("a", &["x"]),
        f("a", &["y"]),
    ]);
    let keys: Vec<(String, Vec<String>)> = got.into_iter().map(|c| (c.project, c.tags)).collect();
    assert_eq!(
        keys,
        vec![
            ("a".to_string(), vec!["y".to_string()]),
            ("a".to_string(), vec!["x".to_string()]),
            ("b".to_string(), vec![]),
        ]
    );
    let many: Vec<ProjectTagCombo> = (0..60).map(|i| f(&format!("p{}", i), &[])).collect();
    let kept = anyrun_matcher::watson::recent_combinations(many);
    assert_eq!(kept.len(), 50);
    assert_eq!(kept[0].project, "p59");
}

#[test]
fn time_matcher_with_given_clock() {
    let m = TimeMatcher { project: "anyrun".to_string() };
    let got = m.matches_at(vec!["+ui", "-2h"], "08:15");
    assert_eq!(got, vec![start("anyrun +ui -2h", "exec|watson start anyrun +ui --at 08:15")]);
    assert!(m.matches_at(vec!["-0h"], "08:15").is_empty());
}

#[test]
fn tag_titles_are_split_at_any_whitespace() {
    let m = TagMatcher { project: "p".to_string(), known_tags: vec!["a\u{a0}b".to_string()] };
    let got = m.get_matches(vec!["+a\u{a0}b"]);
    assert_eq!(
        got,
        vec![
            start("p +a b", "exec|watson start p +a\u{a0}b"),
            start("p +a b", "exec|watson start p +a b"),
        ]
    );
}

#[test]
fn known_projects_are_sorted_and_distinct() {
    let f = |p: &str| ProjectTagCombo::new(p.to_string(), vec![]);
    let got = anyrun_matcher::watson::known_projects(&vec![f("garden"), f("anyrun"), f("garden"), f("Zed"), f("any")]);
    assert_eq!(got, vec!["Zed".to_string(), "any".to_string(), "anyrun".to_string(), "garden".to_string()]);
    assert!(anyrun_matcher::watson::known_projects(&vec![]).is_empty());
}

#[test]
fn time_token_is_trimmed_after_dashes() {
    let m = TimeMatcher { project: "p".to_string() };
    let got = m.matches_at(vec!["-\u{a0}5m"], "07:00");
    assert_eq!(got, vec![start("p  -\u{a0}5m", "exec|watson start p  --at 07:00")]);
    assert!(m.matches_at(vec!["-5m"], "").is_empty());
}

#[test]
fn lowered_minutes_read_digits() {
    assert_eq!(anyrun_matcher::watson::minutes_of_lowered("2h5m"), 125);
    assert_eq!(anyrun_matcher::watson::minutes_of_lowered("2H"), 0);
}
