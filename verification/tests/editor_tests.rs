use rshell::editor::line_editor::{visual_length, Action, Key, KeyPress, LineEditor, Request};
use rshell::history::History;

fn plain(key: Key) -> KeyPress {
    KeyPress { key, shift: false, control: false, alt: false, other: false }
}

fn ctrl(c: char) -> KeyPress {
    KeyPress { key: Key::Char(c), shift: false, control: true, alt: false, other: false }
}

fn history(lines: &[&str]) -> History {
    History::new(lines.iter().map(|s| s.to_string()).collect())
}

/// An editor that holds `text`, with the cursor at `cursor`.
fn editor(text: &str, cursor: usize) -> LineEditor {
    let mut e = LineEditor::new();
    let mut h = history(&[]);
    for c in text.chars() {
        assert!(matches!(e.handle_key(plain(Key::Char(c)), &mut h), Action::Redraw));
    }
    e.handle_key(plain(Key::Home), &mut h);
    for _ in 0..cursor {
        e.handle_key(plain(Key::Right), &mut h);
    }
    assert_eq!(e.cursor(), cursor);
    e
}

fn press(e: &mut LineEditor, key: KeyPress) -> Action {
    let mut h = history(&[]);
    e.handle_key(key, &mut h)
}

fn state(e: &LineEditor) -> (String, usize) {
    (e.line(), e.cursor())
}

#[test]
fn a_new_editor_is_empty() {
    let e = LineEditor::new();
    assert_eq!(state(&e), (String::new(), 0));
}

#[test]
fn characters_go_in_at_the_cursor() {
    let mut e = editor("ac", 1);
    assert!(matches!(press(&mut e, plain(Key::Char('b'))), Action::Redraw));
    assert_eq!(state(&e), ("abc".to_string(), 2));
    let shifted = KeyPress { key: Key::Char('X'), shift: true, control: false, alt: false, other: false };
    assert!(matches!(press(&mut e, shifted), Action::Redraw));
    assert_eq!(state(&e), ("abXc".to_string(), 3));
}

#[test]
fn characters_of_several_bytes_count_once() {
    let mut e = editor("日本", 1);
    press(&mut e, plain(Key::Char('é')));
    assert_eq!(state(&e), ("日é本".to_string(), 2));
    press(&mut e, plain(Key::Backspace));
    assert_eq!(state(&e), ("日本".to_string(), 1));
    press(&mut e, plain(Key::Delete));
    assert_eq!(state(&e), ("日".to_string(), 1));
    assert!(matches!(press(&mut e, plain(Key::Right)), Action::Nothing));
    assert_eq!(e.cursor(), 1);
}

#[test]
fn other_modifiers_make_a_character_do_nothing() {
    let mut e = editor("ab", 1);
    for press_ in [
        KeyPress { key: Key::Char('x'), shift: false, control: false, alt: true, other: false },
        KeyPress { key: Key::Char('x'), shift: false, control: false, alt: false, other: true },
        KeyPress { key: Key::Char('a'), shift: true, control: true, alt: false, other: false },
        KeyPress { key: Key::Char('k'), shift: false, control: true, alt: true, other: false },
        KeyPress { key: Key::Char('x'), shift: false, control: true, alt: false, other: false },
        plain(Key::Other),
    ] {
        assert!(matches!(press(&mut e, press_), Action::Nothing));
        assert_eq!(state(&e), ("ab".to_string(), 1));
    }
}

#[test]
fn backspace_and_delete_stop_at_the_ends() {
    let mut e = editor("abc", 0);
    assert!(matches!(press(&mut e, plain(Key::Backspace)), Action::Nothing));
    assert_eq!(state(&e), ("abc".to_string(), 0));
    assert!(matches!(press(&mut e, plain(Key::Delete)), Action::Redraw));
    assert_eq!(state(&e), ("bc".to_string(), 0));
    let mut e = editor("abc", 3);
    assert!(matches!(press(&mut e, plain(Key::Delete)), Action::Nothing));
    assert_eq!(state(&e), ("abc".to_string(), 3));
    assert!(matches!(press(&mut e, plain(Key::Backspace)), Action::Redraw));
    assert_eq!(state(&e), ("ab".to_string(), 2));
}

#[test]
fn the_cursor_moves_inside_the_line_only() {
    let mut e = editor("ab", 0);
    assert!(matches!(press(&mut e, plain(Key::Left)), Action::Nothing));
    assert!(matches!(press(&mut e, plain(Key::Right)), Action::MoveCursor));
    assert!(matches!(press(&mut e, plain(Key::Right)), Action::MoveCursor));
    assert!(matches!(press(&mut e, plain(Key::Right)), Action::Nothing));
    assert_eq!(e.cursor(), 2);
    assert!(matches!(press(&mut e, plain(Key::Left)), Action::MoveCursor));
    assert_eq!(e.cursor(), 1);
    assert!(matches!(press(&mut e, plain(Key::Home)), Action::MoveCursor));
    assert_eq!(e.cursor(), 0);
    assert!(matches!(press(&mut e, plain(Key::End)), Action::MoveCursor));
    assert_eq!(e.cursor(), 2);
    assert!(matches!(press(&mut e, ctrl('a')), Action::MoveCursor));
    assert_eq!(e.cursor(), 0);
    assert!(matches!(press(&mut e, ctrl('e')), Action::MoveCursor));
    assert_eq!(e.cursor(), 2);
    assert_eq!(e.line(), "ab");
}

#[test]
fn enter_submits_the_line() {
    let mut e = editor("echo hi", 3);
    match press(&mut e, plain(Key::Enter)) {
        Action::Submit(line) => assert_eq!(line, "echo hi"),
        other => panic!("unexpected: {:?}", other),
    }
    let mut e = LineEditor::new();
    match press(&mut e, ctrl_enter()) {
        Action::Submit(line) => assert_eq!(line, ""),
        other => panic!("unexpected: {:?}", other),
    }
}

fn ctrl_enter() -> KeyPress {
    KeyPress { key: Key::Enter, shift: false, control: true, alt: false, other: false }
}

#[test]
fn kill_commands_cut_at_the_cursor() {
    let mut e = editor("hello world", 5);
    assert!(matches!(press(&mut e, ctrl('k')), Action::Redraw));
    assert_eq!(state(&e), ("hello".to_string(), 5));
    let mut e = editor("hello world", 6);
    assert!(matches!(press(&mut e, ctrl('u')), Action::Redraw));
    assert_eq!(state(&e), ("world".to_string(), 0));
    let mut e = editor("", 0);
    assert!(matches!(press(&mut e, ctrl('k')), Action::Redraw));
    assert!(matches!(press(&mut e, ctrl('u')), Action::Redraw));
    assert_eq!(state(&e), (String::new(), 0));
}

#[test]
fn delete_word_takes_the_word_before_the_cursor() {
    let mut e = editor("foo bar", 7);
    assert!(matches!(press(&mut e, ctrl('w')), Action::Redraw));
    assert_eq!(state(&e), ("foo ".to_string(), 4));
    let mut e = editor("foo bar  ", 9);
    press(&mut e, ctrl('w'));
    assert_eq!(state(&e), ("foo   ".to_string(), 4));
    let mut e = editor("foo bar baz", 6);
    press(&mut e, ctrl('w'));
    assert_eq!(state(&e), ("foo r baz".to_string(), 4));
    let mut e = editor("foo", 3);
    press(&mut e, ctrl('w'));
    assert_eq!(state(&e), (String::new(), 0));
    let mut e = editor("   ", 3);
    press(&mut e, ctrl('w'));
    assert_eq!(state(&e), ("   ".to_string(), 0));
    let mut e = editor("foo", 0);
    assert!(matches!(press(&mut e, ctrl('w')), Action::Nothing));
    assert_eq!(state(&e), ("foo".to_string(), 0));
}

#[test]
fn transpose_swaps_the_characters_around_the_cursor() {
    let mut e = editor("abcd", 2);
    assert!(matches!(press(&mut e, ctrl('t')), Action::Redraw));
    assert_eq!(state(&e), ("acbd".to_string(), 3));
    let mut e = editor("abcd", 0);
    assert!(matches!(press(&mut e, ctrl('t')), Action::Nothing));
    assert_eq!(state(&e), ("abcd".to_string(), 0));
    let mut e = editor("abcd", 4);
    assert!(matches!(press(&mut e, ctrl('t')), Action::Nothing));
    assert_eq!(state(&e), ("abcd".to_string(), 4));
    let mut e = editor("日é", 1);
    press(&mut e, ctrl('t'));
    assert_eq!(state(&e), ("é日".to_string(), 2));
}

#[test]
fn control_keys_without_an_effect_on_the_line() {
    let mut e = editor("abc", 1);
    assert!(matches!(press(&mut e, ctrl('l')), Action::ClearScreen));
    assert!(matches!(press(&mut e, ctrl('y')), Action::Bell));
    assert!(matches!(press(&mut e, ctrl('d')), Action::Nothing));
    assert_eq!(state(&e), ("abc".to_string(), 1));
    let mut e = LineEditor::new();
    assert!(matches!(press(&mut e, ctrl('d')), Action::Exit));
}

#[test]
fn control_c_empties_the_line() {
    let mut e = editor("abc", 1);
    assert!(matches!(press(&mut e, ctrl('c')), Action::Cancel));
    assert_eq!(state(&e), (String::new(), 0));
}

#[test]
fn reset_empties_the_line() {
    let mut e = editor("abc", 2);
    e.reset();
    assert_eq!(state(&e), (String::new(), 0));
}

#[test]
fn up_and_down_recall_lines_of_the_history() {
    let mut h = history(&["first", "sécond"]);
    let mut e = editor("draft", 2);
    assert!(matches!(e.handle_key(plain(Key::Up), &mut h), Action::Redraw));
    assert_eq!(state(&e), ("sécond".to_string(), 6));
    assert!(matches!(e.handle_key(plain(Key::Up), &mut h), Action::Redraw));
    assert_eq!(state(&e), ("first".to_string(), 5));
    assert!(matches!(e.handle_key(plain(Key::Up), &mut h), Action::Nothing));
    assert_eq!(state(&e), ("first".to_string(), 5));
    assert!(matches!(e.handle_key(plain(Key::Down), &mut h), Action::Redraw));
    assert_eq!(state(&e), ("sécond".to_string(), 6));
    assert!(matches!(e.handle_key(plain(Key::Down), &mut h), Action::Redraw));
    assert_eq!(state(&e), (String::new(), 0));
    assert!(matches!(e.handle_key(plain(Key::Down), &mut h), Action::Redraw));
    assert_eq!(state(&e), (String::new(), 0));
    assert!(matches!(e.handle_key(plain(Key::Up), &mut h), Action::Redraw));
    assert_eq!(state(&e), ("sécond".to_string(), 6));
}

#[test]
fn down_with_an_empty_history_clears_the_line() {
    let mut h = history(&[]);
    let mut e = editor("draft", 2);
    assert!(matches!(e.handle_key(plain(Key::Up), &mut h), Action::Nothing));
    assert_eq!(state(&e), ("draft".to_string(), 2));
    assert!(matches!(e.handle_key(plain(Key::Down), &mut h), Action::Redraw));
    assert_eq!(state(&e), (String::new(), 0));
}

#[test]
fn escape_sequences_take_no_room() {
    assert_eq!(visual_length(""), 0);
    assert_eq!(visual_length("abc"), 3);
    assert_eq!(visual_length("\x1b[32muser\x1b[0m@\x1b[32mhost\x1b[0m:\x1b[34m~\x1b[0m \x1b[37m$\x1b[0m "), 14);
    assert_eq!(visual_length("\x1b[1;44;34mx\x1b[0m"), 1);
    assert_eq!(visual_length("héllo 日本"), 8);
    assert_eq!(visual_length("a\x1b[31"), 1);
    assert_eq!(visual_length("\x1b\x1bmx"), 1);
    assert_eq!(visual_length("m\x1bmm"), 2);
}

#[test]
fn the_cursor_column_follows_the_visible_prompt() {
    let e = editor("hello", 3);
    assert_eq!(e.cursor_column("$ "), 5);
    assert_eq!(e.cursor_column("\x1b[32mme\x1b[0m> "), 7);
    assert_eq!(e.cursor_column(""), 3);
    let long = "x".repeat(65534);
    assert_eq!(e.cursor_column(&long), 1);
    let e = LineEditor::new();
    assert_eq!(e.cursor_column(&"x".repeat(65536)), 0);
    assert_eq!(e.cursor_column(&"x".repeat(65535)), 65535);
}

#[test]
fn byte_indices_follow_the_encoding() {
    let text = "aé日😀b";
    let e = editor(text, 0);
    let expected: Vec<usize> = text.char_indices().map(|(i, _)| i).collect();
    assert_eq!(expected, vec![0, 1, 3, 6, 10]);
    for (position, index) in expected.iter().enumerate() {
        assert_eq!(e.byte_index_at_char_pos(position), *index);
    }
    assert_eq!(e.byte_index_at_char_pos(5), text.len());
    assert_eq!(e.byte_index_at_char_pos(99), 11);
    assert_eq!(LineEditor::new().byte_index_at_char_pos(0), 0);
    let edge = editor("\u{7f}\u{80}\u{7ff}\u{800}\u{ffff}\u{10000}", 0);
    assert_eq!(
        (0..=6).map(|i| edge.byte_index_at_char_pos(i)).collect::<Vec<_>>(),
        vec![0, 1, 3, 5, 8, 11, 15]
    );
}

fn request(e: &LineEditor) -> Option<(bool, Option<String>, String)> {
    e.completion_request().map(|Request { search_path, dir, prefix }| (search_path, dir, prefix))
}

#[test]
fn the_first_word_asks_for_commands() {
    assert_eq!(request(&editor("gi", 2)), Some((true, None, "gi".to_string())));
    assert_eq!(request(&editor("git st", 2)), Some((true, None, "gi".to_string())));
}

#[test]
fn a_later_word_asks_for_files() {
    assert_eq!(request(&editor("cat fi", 6)), Some((false, None, "fi".to_string())));
    assert_eq!(request(&editor(" x", 2)), Some((false, None, "x".to_string())));
    assert_eq!(request(&editor("a\tb", 3)), Some((false, None, "b".to_string())));
}

#[test]
fn a_token_with_a_slash_asks_for_files_of_a_directory() {
    assert_eq!(
        request(&editor("cat src/ma", 10)),
        Some((false, Some("src".to_string()), "ma".to_string()))
    );
    assert_eq!(request(&editor("/us", 3)), Some((false, Some("/".to_string()), "us".to_string())));
    assert_eq!(request(&editor("./", 2)), Some((false, Some(".".to_string()), "".to_string())));
}

#[test]
fn an_empty_token_asks_for_nothing() {
    assert_eq!(request(&editor("", 0)), None);
    assert_eq!(request(&editor("ls ", 3)), None);
    assert_eq!(request(&editor("ls", 0)), None);
    let mut e = editor("ls ", 3);
    assert!(matches!(press(&mut e, plain(Key::Tab)), Action::Nothing));
    let mut e = editor("ls sr", 5);
    match press(&mut e, plain(Key::Tab)) {
        Action::Complete(r) => {
            assert!(!r.search_path);
            assert_eq!(r.dir, None);
            assert_eq!(r.prefix, "sr");
        }
        other => panic!("unexpected: {:?}", other),
    }
    assert_eq!(state(&e), ("ls sr".to_string(), 5));
}

fn strings(items: &[&str]) -> Vec<String> {
    items.iter().map(|s| s.to_string()).collect()
}

#[test]
fn a_single_match_completes_the_token() {
    let mut e = editor("cat sa", 6);
    assert!(e.apply_completion(&strings(&["sample.txt"])));
    assert_eq!(state(&e), ("cat sample.txt".to_string(), 14));
    let mut e = editor("cd sr x", 5);
    assert!(e.apply_completion(&strings(&["src/"])));
    assert_eq!(state(&e), ("cd src/ x".to_string(), 7));
}

#[test]
fn several_matches_extend_to_their_common_prefix() {
    let mut e = editor("cat fo", 6);
    assert!(e.apply_completion(&strings(&["foobar", "foobaz"])));
    assert_eq!(state(&e), ("cat fooba".to_string(), 9));
    assert!(!e.apply_completion(&strings(&["foobar", "foobaz"])));
    assert_eq!(state(&e), ("cat fooba".to_string(), 9));
}

#[test]
fn no_match_changes_nothing() {
    let mut e = editor("cat fo", 6);
    assert!(!e.apply_completion(&Vec::new()));
    assert_eq!(state(&e), ("cat fo".to_string(), 6));
    let mut e = editor("cat ", 4);
    assert!(!e.apply_completion(&strings(&["x"])));
    assert_eq!(state(&e), ("cat ".to_string(), 4));
}

#[test]
fn completing_a_complete_token_changes_nothing() {
    let mut e = editor("cat sample.txt", 14);
    assert!(!e.apply_completion(&strings(&["sample.txt"])));
    assert_eq!(state(&e), ("cat sample.txt".to_string(), 14));
    let mut e = editor("git", 3);
    assert!(!e.apply_completion(&strings(&["git"])));
    assert_eq!(state(&e), ("git".to_string(), 3));
    let mut e = editor("ls src/main.rs", 14);
    assert!(!e.apply_completion(&strings(&["main.rs"])));
    assert_eq!(state(&e), ("ls src/main.rs".to_string(), 14));
}

#[test]
fn the_directory_goes_in_front_of_the_match() {
    let mut e = editor("ls src/ma", 9);
    assert!(e.apply_completion(&strings(&["main.rs"])));
    assert_eq!(state(&e), ("ls src/main.rs".to_string(), 14));
    let mut e = editor("ls ./ma", 7);
    assert!(e.apply_completion(&strings(&["main.rs"])));
    assert_eq!(state(&e), ("ls main.rs".to_string(), 10));
    let mut e = editor("ls /us", 6);
    assert!(e.apply_completion(&strings(&["usr/"])));
    assert_eq!(state(&e), ("ls /usr/".to_string(), 8));
    let mut e = editor("ls /bi", 6);
    assert!(e.apply_completion(&strings(&["bin/"])));
    assert_eq!(state(&e), ("ls /bin/".to_string(), 8));
    let mut e = editor("/bin", 4);
    assert!(!e.apply_completion(&strings(&["bin"])));
    assert_eq!(state(&e), ("/bin".to_string(), 4));
    let mut e = editor("/", 1);
    assert!(e.apply_completion(&strings(&["etc/", "etc.d/"])));
    assert_eq!(state(&e), ("/etc".to_string(), 4));
    let mut e = editor("ls a/b/c", 8);
    assert!(e.apply_completion(&strings(&["cat", "car"])));
    assert_eq!(state(&e), ("ls a/b/ca".to_string(), 9));
}

#[test]
fn several_matches_are_listed_with_four_spaces() {
    assert_eq!(
        LineEditor::completion_listing(&strings(&["foobar", "foobaz", "fox"])),
        Some("foobar    foobaz    fox".to_string())
    );
    assert_eq!(LineEditor::completion_listing(&strings(&["a", "b"])), Some("a    b".to_string()));
    assert_eq!(LineEditor::completion_listing(&strings(&["only"])), None);
    assert_eq!(LineEditor::completion_listing(&Vec::new()), None);
}
