use rshell::heredoc::{heredoc_reader, is_terminator, parse_heredoc, Heredoc, Reader};

fn heredoc(line: &str) -> Option<(String, String, bool)> {
    parse_heredoc(line).map(|Heredoc { command, delimiter, quoted }| (command, delimiter, quoted))
}

fn reader(command: &str) -> Option<(String, Vec<String>, Option<String>)> {
    heredoc_reader(command).map(|Reader { program, args, outfile }| (program, args, outfile))
}

#[test]
fn the_command_stands_before_the_marker_and_the_delimiter_behind_it() {
    assert_eq!(heredoc("cat << EOF"), Some(("cat".to_string(), "EOF".to_string(), false)));
    assert_eq!(heredoc("cat<<EOF"), Some(("cat".to_string(), "EOF".to_string(), false)));
    assert_eq!(
        heredoc("  sort -r   <<   END  "),
        Some(("sort -r".to_string(), "END".to_string(), false))
    );
    assert_eq!(heredoc("<< X"), Some((String::new(), "X".to_string(), false)));
}

#[test]
fn quotes_around_the_delimiter_are_taken_off() {
    assert_eq!(heredoc("cat << 'EOF'"), Some(("cat".to_string(), "EOF".to_string(), true)));
    assert_eq!(heredoc("cat << \"EOF\""), Some(("cat".to_string(), "EOF".to_string(), true)));
    assert_eq!(heredoc("cat << ''E'F''"), Some(("cat".to_string(), "E'F".to_string(), true)));
    assert_eq!(heredoc("cat << EOF'"), Some(("cat".to_string(), "EOF".to_string(), false)));
    assert_eq!(heredoc("cat << ''"), Some(("cat".to_string(), String::new(), true)));
}

#[test]
fn the_first_marker_counts() {
    assert_eq!(heredoc("a << b << c"), Some(("a".to_string(), "b << c".to_string(), false)));
    assert_eq!(heredoc("a <<< b"), Some(("a".to_string(), "< b".to_string(), false)));
}

#[test]
fn a_line_without_marker_or_delimiter_names_no_document() {
    assert_eq!(heredoc("cat < EOF"), None);
    assert_eq!(heredoc("cat"), None);
    assert_eq!(heredoc(""), None);
    assert_eq!(heredoc("cat <<"), None);
    assert_eq!(heredoc("cat <<   "), None);
    assert_eq!(heredoc("<"), None);
}

#[test]
fn the_delimiter_ends_the_document_with_or_without_line_break() {
    assert!(is_terminator("EOF\n", "EOF"));
    assert!(is_terminator("EOF", "EOF"));
    assert!(is_terminator("EOF\n\n", "EOF"));
    assert!(!is_terminator("EOF \n", "EOF"));
    assert!(!is_terminator(" EOF\n", "EOF"));
    assert!(!is_terminator("EOF\r\n", "EOF"));
    assert!(!is_terminator("EO\n", "EOF"));
    assert!(is_terminator("\n", ""));
    assert!(is_terminator("", ""));
    assert!(!is_terminator("x\n", ""));
    for (line, delimiter) in [("a\n", "a"), ("a\nb\n", "a"), ("\n\n", ""), ("a", "a\n")] {
        assert_eq!(is_terminator(line, delimiter), line.trim_end_matches('\n') == delimiter);
    }
}

#[test]
fn the_reader_is_the_command_split_at_whitespace() {
    assert_eq!(
        reader("grep -v \t x"),
        Some(("grep".to_string(), vec!["-v".to_string(), "x".to_string()], None))
    );
    assert_eq!(reader("cat"), Some(("cat".to_string(), vec![], None)));
    assert_eq!(reader(""), None);
    assert_eq!(reader("   "), None);
}

#[test]
fn an_angle_names_the_file_for_the_output() {
    assert_eq!(
        reader("sort -r > out.txt"),
        Some(("sort".to_string(), vec!["-r".to_string()], Some("out.txt".to_string())))
    );
    assert_eq!(
        reader("cat>a > b "),
        Some(("cat".to_string(), vec![], Some("a > b".to_string())))
    );
    assert_eq!(reader("cat >"), Some(("cat".to_string(), vec![], Some(String::new()))));
    assert_eq!(reader("> out"), None);
}
