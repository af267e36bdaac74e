use rshell::history::History;

fn history(lines: &[&str]) -> History {
    History::new(lines.iter().map(|s| s.to_string()).collect())
}

#[test]
fn a_new_history_selects_no_line() {
    let mut h = history(&["a", "b"]);
    assert_eq!(h.next(), None);
    assert_eq!(h.previous().map(|s| s.as_str()), Some("b"));
}

#[test]
fn previous_walks_back_to_the_oldest_line_and_stops() {
    let mut h = history(&["a", "b", "c"]);
    assert_eq!(h.previous().map(|s| s.as_str()), Some("c"));
    assert_eq!(h.previous().map(|s| s.as_str()), Some("b"));
    assert_eq!(h.previous().map(|s| s.as_str()), Some("a"));
    assert_eq!(h.previous(), None);
    assert_eq!(h.previous(), None);
    assert_eq!(h.next().map(|s| s.as_str()), Some("b"));
}

#[test]
fn next_walks_forward_and_leaves_the_lines_at_the_newest() {
    let mut h = history(&["a", "b", "c"]);
    h.previous();
    h.previous();
    h.previous();
    assert_eq!(h.next().map(|s| s.as_str()), Some("b"));
    assert_eq!(h.next().map(|s| s.as_str()), Some("c"));
    assert_eq!(h.next(), None);
    assert_eq!(h.next(), None);
    assert_eq!(h.previous().map(|s| s.as_str()), Some("c"));
}

#[test]
fn an_empty_history_gives_nothing() {
    let mut h = history(&[]);
    assert_eq!(h.previous(), None);
    assert_eq!(h.next(), None);
    assert!(h.list().is_empty());
    assert!(h.search("").is_empty());
}

#[test]
fn adding_stores_the_line_and_resets_the_cursor() {
    let mut h = history(&["a", "b"]);
    h.previous();
    h.previous();
    assert!(h.add("c".to_string()));
    assert_eq!(h.list(), vec!["1: a", "2: b", "3: c"]);
    assert_eq!(h.previous().map(|s| s.as_str()), Some("c"));
}

#[test]
fn the_same_line_twice_in_a_row_is_stored_once() {
    let mut h = history(&[]);
    assert!(h.add("ls".to_string()));
    assert!(!h.add("ls".to_string()));
    assert!(h.add("pwd".to_string()));
    assert!(h.add("ls".to_string()));
    assert_eq!(h.list(), vec!["1: ls", "2: pwd", "3: ls"]);
}

#[test]
fn a_repeated_line_still_resets_the_cursor() {
    let mut h = history(&["a", "b"]);
    h.previous();
    h.previous();
    assert!(!h.add("b".to_string()));
    assert_eq!(h.previous().map(|s| s.as_str()), Some("b"));
}

#[test]
fn a_blank_line_is_ignored_and_leaves_the_cursor() {
    let mut h = history(&["a", "b"]);
    h.previous();
    h.previous();
    assert!(!h.add("".to_string()));
    assert!(!h.add("  \t\n".to_string()));
    assert_eq!(h.list(), vec!["1: a", "2: b"]);
    assert_eq!(h.next().map(|s| s.as_str()), Some("b"));
}

#[test]
fn lines_are_stored_as_they_are_given() {
    let mut h = history(&[]);
    assert!(h.add("  ls  ".to_string()));
    assert!(h.add("ls".to_string()));
    assert_eq!(h.list(), vec!["1:   ls  ", "2: ls"]);
}

#[test]
fn the_listing_counts_from_one() {
    let lines: Vec<String> = (0..12).map(|i| format!("cmd{}", i)).collect();
    let h = History::new(lines);
    let listing = h.list();
    assert_eq!(listing.len(), 12);
    assert_eq!(listing[0], "1: cmd0");
    assert_eq!(listing[9], "10: cmd9");
    assert_eq!(listing[11], "12: cmd11");
}

#[test]
fn search_finds_the_lines_that_hold_the_pattern() {
    let h = history(&["git status", "ls", "git log", "legit", ""]);
    let found: Vec<(usize, String)> = h.search("git").into_iter().map(|(i, s)| (i, s.clone())).collect();
    assert_eq!(
        found,
        vec![(0, "git status".to_string()), (2, "git log".to_string()), (3, "legit".to_string())]
    );
    assert!(h.search("svn").is_empty());
    assert_eq!(h.search("").len(), 5);
    assert_eq!(h.search("git status").len(), 1);
    assert!(h.search("git status ").is_empty());
    assert_eq!(h.search("s").len(), 2);
}
