use anyrun_matcher::text::{contains, query_tokens, starts_with, trim_text, white};
use anyrun_matcher::todo::{parse_date, Date, Todo};

fn date(year: i32, month: u32, day: u32) -> Date {
    Date { year, month, day }
}

#[test]
fn test_todo() {
    let todo = Todo {
        title: "Buy milk".into(),
        created_at: date(2024, 6, 1),
        completed_at: None,
    };

    let todo_str = todo.to_string();
    assert_eq!(todo_str, "- [ ] Buy milk (created at: 2024-06-01, completed at: None)");

    let parsed_todo = Todo::from_str(&todo_str).unwrap();
    assert_eq!(todo, parsed_todo);
}

#[test]
fn test_todo_completed() {
    let todo = Todo {
        title: "Buy milk".into(),
        created_at: date(2024, 6, 1),
        completed_at: Some(date(2025, 6, 1)),
    };

    let todo_str = todo.to_string();
    assert_eq!(todo_str, "- [x] Buy milk (created at: 2024-06-01, completed at: 2025-06-01)");

    let parsed_todo = Todo::from_str(&todo_str).unwrap();
    assert_eq!(todo, parsed_todo);
}

#[test]
fn completing_an_entry_round_trips() {
    let line = "- [ ] Buy milk (created at: 2024-06-01, completed at: None)";
    let mut todo = Todo::from_str(line).unwrap();
    assert_eq!(todo.title, "Buy milk");
    assert_eq!(todo.created_at, date(2024, 6, 1));
    assert_eq!(todo.completed_at, None);
    let now = chrono::Local::now().date_naive();
    let today = date(chrono::Datelike::year(&now), chrono::Datelike::month(&now), chrono::Datelike::day(&now));
    todo.completed_at = Some(today);
    let done = todo.to_string();
    assert_eq!(
        done,
        format!("- [x] Buy milk (created at: 2024-06-01, completed at: {})", now.format("%Y-%m-%d"))
    );
    assert_eq!(Todo::from_str(&done).unwrap(), todo);
}

#[test]
fn surrounding_whitespace_is_ignored() {
    let parsed = Todo::from_str("  - [ ]  Call mom  (created at: 2023-12-31, completed at: None)\n").unwrap();
    assert_eq!(parsed.title, "Call mom");
    assert_eq!(parsed.created_at, date(2023, 12, 31));
}

#[test]
fn malformed_lines_are_rejected() {
    assert!(Todo::from_str("").is_none());
    assert!(Todo::from_str("just text").is_none());
    assert!(Todo::from_str("- [ ] no dates").is_none());
    assert!(Todo::from_str("- [ ] x (created at: 2024-06-01)").is_none());
    assert!(Todo::from_str("- [ ] x (created at: 2024-13-01, completed at: None)").is_none());
    assert!(Todo::from_str("- [ ] x (created at: 2024-06-01, completed at: soon)").is_none());
    assert!(Todo::from_str("- [ ] x (created at: ").is_none());
}

#[test]
fn dates_parse() {
    assert_eq!(parse_date("2024-02-29"), Some(date(2024, 2, 29)));
    assert_eq!(parse_date("2023-02-29"), None);
    assert_eq!(parse_date("1900-02-29"), None);
    assert_eq!(parse_date("2000-02-29"), Some(date(2000, 2, 29)));
    assert_eq!(parse_date("2024-6-1"), Some(date(2024, 6, 1)));
    assert_eq!(parse_date("+12024-06-01"), Some(date(12024, 6, 1)));
    assert_eq!(parse_date("June 1"), None);
    assert_eq!(parse_date("2024-06-31"), None);
    assert_eq!(parse_date("0000-01-01"), Some(date(0, 1, 1)));
}

#[test]
fn trimming_removes_unicode_whitespace() {
    assert_eq!(trim_text("\u{a0} a b \t\n"), "a b");
    assert_eq!(trim_text("   "), "");
}

#[test]
fn text_predicates() {
    assert!(contains("created at", "ted a"));
    assert!(contains("abc", ""));
    assert!(!contains("abc", "abcd"));
    assert!(starts_with("exec|ls", "exec|"));
    assert!(!starts_with("exe", "exec|"));
    assert!(white('\u{3000}') && white('\t') && !white('x') && !white('\u{200b}'));
}

#[test]
fn query_tokens_strip_prefix_and_split() {
    let words = |v: &[&str]| v.iter().map(|s| s.to_string()).collect::<Vec<String>>();
    assert_eq!(query_tokens("  :TT start  Anyrun\t+ui ", ":tt"), Some(words(&["start", "anyrun", "+ui"])));
    assert_eq!(query_tokens(":tt:ttlog", ":tt"), Some(words(&["log"])));
    assert_eq!(query_tokens(":tt", ":tt"), Some(vec![]));
    assert_eq!(query_tokens(":ts now", ":tt"), None);
    assert_eq!(query_tokens(":tt a\u{a0}b", ":tt"), Some(words(&["a\u{a0}b"])));
}

#[test]
fn signed_years_round_trip() {
    let far = Todo { title: "Far".into(), created_at: date(12345, 1, 2), completed_at: Some(date(-5, 12, 31)) };
    let line = far.to_string();
    assert_eq!(line, "- [x] Far (created at: +12345-01-02, completed at: -0005-12-31)");
    assert_eq!(Todo::from_str(&line).unwrap(), far);
}
