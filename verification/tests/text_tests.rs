use rshell::signal_handler::{raw_pid, SignalHandler};
use rshell::text::{
    char_is_whitespace, contains, find_char, from_chars, join, matches_at, parse_u32, same_text,
    slice_chars, splice, split_text, substring, to_chars, trim_bounds, trim_end_index,
    trim_start_index,
};

fn chars(s: &str) -> Vec<char> {
    s.chars().collect()
}

#[test]
fn whitespace_is_what_the_standard_library_says() {
    let mut c = 0u32;
    while c <= 0x10ffff {
        if let Some(ch) = char::from_u32(c) {
            assert_eq!(char_is_whitespace(ch), ch.is_whitespace(), "U+{:04X}", c);
        }
        c += 1;
    }
}

#[test]
fn strings_and_characters_convert_both_ways() {
    for text in ["", "abc", "héllo 日本 😀", "\n\t\\\"'"] {
        assert_eq!(to_chars(text), chars(text));
        assert_eq!(from_chars(&chars(text)), text);
    }
    let v = chars("aé日😀b");
    assert_eq!(substring(&v, 1, 4), "é日😀");
    assert_eq!(substring(&v, 2, 2), "");
    assert_eq!(substring(&v, 0, 5), "aé日😀b");
    assert_eq!(slice_chars(&v, 3, 5), chars("😀b"));
    assert_eq!(slice_chars(&v, 5, 5), chars(""));
}

#[test]
fn trimming_is_what_the_standard_library_does() {
    for text in ["", " ", "a", "  a b  ", "\t\na\u{a0}", "\u{3000}x\u{2003}y\u{85}", " \u{feff} ", "a  "] {
        let v = chars(text);
        let (a, b) = trim_bounds(&v, 0, v.len());
        assert_eq!(v[a..b].iter().collect::<String>(), text.trim(), "{:?}", text);
        let s = trim_start_index(&v, 0, v.len());
        assert_eq!(v[s..].iter().collect::<String>(), text.trim_start());
        let e = trim_end_index(&v, 0, v.len());
        assert_eq!(v[..e].iter().collect::<String>(), text.trim_end());
    }
    let v = chars("ab  cd  ef");
    assert_eq!(trim_bounds(&v, 2, 8), (4, 6));
    assert_eq!(trim_bounds(&v, 2, 4), (4, 4));
    assert_eq!(trim_bounds(&v, 3, 3), (3, 3));
}

#[test]
fn numbers_are_read_as_the_standard_library_reads_them() {
    for text in [
        "0", "7", "007", "42", "+42", "+0", "4294967295", "4294967296", "04294967295", "99999999999999999999",
        "", "+", "-", "-1", "-0", "++1", "1+", " 1", "1 ", "1a", "a1", "1.0", "0x10", "１２", "٣", "1_000",
    ] {
        assert_eq!(parse_u32(text), text.parse::<u32>().ok(), "{:?}", text);
    }
    assert_eq!(parse_u32("4294967295"), Some(u32::MAX));
    assert_eq!(parse_u32("4294967296"), None);
    assert_eq!(parse_u32("+12"), Some(12));
}

#[test]
fn texts_compare_by_their_characters() {
    assert!(same_text("", ""));
    assert!(same_text("abc", "abc"));
    assert!(!same_text("abc", "abd"));
    assert!(!same_text("abc", "ab"));
    assert!(!same_text("ab", "abc"));
    assert!(same_text("日本", "日本"));
}

#[test]
fn searching_is_what_the_standard_library_does() {
    let samples = ["", "a", "ab", "ba", "aab", "abab", "日本語", "本", "xyz", "aaa", "aa"];
    for hay in samples {
        for needle in samples {
            assert_eq!(contains(&chars(hay), &chars(needle)), hay.contains(needle), "{:?} {:?}", hay, needle);
        }
        for c in ['a', 'b', '本', 'q'] {
            let expected = hay.chars().position(|x| x == c).unwrap_or(hay.chars().count());
            assert_eq!(find_char(&chars(hay), c), expected);
        }
    }
    assert!(matches_at(&chars("hello"), &chars("ll"), 2));
    assert!(!matches_at(&chars("hello"), &chars("ll"), 1));
    assert!(matches_at(&chars("hello"), &chars(""), 5));
    assert!(matches_at(&chars("hello"), &chars("hello"), 0));
}

#[test]
fn splitting_is_what_the_standard_library_does() {
    for text in ["", ":", "a", "a:b", ":a:", "a::b", "/bin:/usr/bin:", "::"] {
        let expected: Vec<String> = text.split(':').map(|s| s.to_string()).collect();
        assert_eq!(split_text(text, ':'), expected, "{:?}", text);
    }
    assert_eq!(split_text("a|b", ':'), vec!["a|b".to_string()]);
}

#[test]
fn joining_is_what_the_standard_library_does() {
    for parts in [vec![], vec!["a"], vec!["a", "b"], vec!["", ""], vec!["x", "", "y", "z"]] {
        let owned: Vec<String> = parts.iter().map(|s| s.to_string()).collect();
        for sep in ["", " ", "    ", ", "] {
            assert_eq!(join(&owned, sep), owned.join(sep));
        }
    }
}

#[test]
fn splicing_replaces_a_range() {
    let v = chars("hello world");
    assert_eq!(splice(&v, 0, 5, &chars("bye")), chars("bye world"));
    assert_eq!(splice(&v, 5, 5, &chars(",")), chars("hello, world"));
    assert_eq!(splice(&v, 6, 11, &chars("")), chars("hello "));
    assert_eq!(splice(&v, 0, 11, &chars("")), chars(""));
    assert_eq!(splice(&chars(""), 0, 0, &chars("x")), chars("x"));
}

#[test]
fn the_signal_handler_remembers_one_process() {
    let mut handler = SignalHandler::new();
    assert_eq!(handler.get_child(), None);
    handler.set_child(Some(4711));
    assert_eq!(handler.get_child(), Some(4711));
    handler.set_child(Some(1));
    assert_eq!(handler.get_child(), Some(1));
    handler.set_child(None);
    assert_eq!(handler.get_child(), None);
}

#[test]
fn process_ids_wrap_into_signed_numbers() {
    for pid in [0u32, 1, 4711, 0x7fff_ffff, 0x8000_0000, 0x8000_0001, u32::MAX - 1, u32::MAX] {
        assert_eq!(raw_pid(pid), pid as i32, "{}", pid);
    }
    assert_eq!(raw_pid(u32::MAX), -1);
    assert_eq!(raw_pid(0x8000_0000), i32::MIN);
}
