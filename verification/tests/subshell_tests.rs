use rshell::subshell::{Expander, Step, SubshellError};

fn strings(items: &[&str]) -> Vec<String> {
    items.iter().map(|s| s.to_string()).collect()
}

/// Expands `line`, answering each command with its words joined by `+` and a
/// line break; returns the commands that ran and how the expansion ended.
fn expand(line: &str) -> (Vec<Vec<String>>, Result<String, SubshellError>) {
    let mut expander = Expander::new(line);
    let mut ran = Vec::new();
    loop {
        match expander.next() {
            Step::Run(words) => {
                expander.supply(&format!("{}\n", words.join("+")));
                ran.push(words);
            }
            Step::Done(text) => return (ran, Ok(text)),
            Step::Failed(e) => return (ran, Err(e)),
        }
    }
}

#[test]
fn a_line_without_parentheses_is_its_own_expansion() {
    assert_eq!(expand("echo hi"), (vec![], Ok("echo hi".to_string())));
    assert_eq!(expand(""), (vec![], Ok(String::new())));
    assert_eq!(expand("  a  "), (vec![], Ok("  a  ".to_string())));
}

#[test]
fn a_group_gives_way_to_what_its_command_printed() {
    assert_eq!(
        expand("echo (whoami) done"),
        (vec![strings(&["whoami"])], Ok("echo whoami done".to_string()))
    );
    assert_eq!(
        expand("echo $(ls -l \"my dir\")"),
        (vec![strings(&["ls", "-l", "my dir"])], Ok("echo $ls+-l+my dir".to_string()))
    );
    assert_eq!(
        expand("(a)(b) (c)"),
        (
            vec![strings(&["a"]), strings(&["b"]), strings(&["c"])],
            Ok("ab c".to_string())
        )
    );
}

#[test]
fn nested_parentheses_belong_to_the_outer_command() {
    assert_eq!(
        expand("x (echo (inner) y) z"),
        (vec![strings(&["echo", "(inner)", "y"])], Ok("x echo+(inner)+y z".to_string()))
    );
    assert_eq!(expand("((a))"), (vec![strings(&["(a)"])], Ok("(a)".to_string())));
}

#[test]
fn a_group_without_a_command_vanishes() {
    assert_eq!(expand("a()b"), (vec![], Ok("ab".to_string())));
    assert_eq!(expand("a(  \t )b( \"\" )c"), (vec![], Ok("abc".to_string())));
    assert_eq!(expand("() (x) ()"), (vec![strings(&["x"])], Ok(" x ".to_string())));
}

#[test]
fn only_one_line_break_is_taken_off() {
    let mut expander = Expander::new("[(a)|(b)|(c)|(d)]");
    let mut answers = vec!["one\n\n", "two", "", "\n"].into_iter();
    let text = loop {
        match expander.next() {
            Step::Run(_) => expander.supply(answers.next().unwrap()),
            Step::Done(text) => break text,
            Step::Failed(e) => panic!("unexpected: {:?}", e),
        }
    };
    assert_eq!(text, "[one\n|two||]");
}

#[test]
fn what_a_command_printed_is_not_read_again() {
    let mut expander = Expander::new("a (b) c");
    assert!(matches!(expander.next(), Step::Run(_)));
    expander.supply("(x) )");
    match expander.next() {
        Step::Done(text) => assert_eq!(text, "a (x) ) c"),
        other => panic!("unexpected: {:?}", other),
    }
}

#[test]
fn a_closing_parenthesis_alone_is_an_error() {
    assert_eq!(expand("a ) b"), (vec![], Err(SubshellError::UnmatchedClose)));
    assert_eq!(expand(")"), (vec![], Err(SubshellError::UnmatchedClose)));
    assert_eq!(
        expand("(a) )"),
        (vec![strings(&["a"])], Err(SubshellError::UnmatchedClose))
    );
}

#[test]
fn an_opening_parenthesis_alone_is_an_error() {
    assert_eq!(expand("a ( b"), (vec![], Err(SubshellError::UnmatchedOpen)));
    assert_eq!(expand("("), (vec![], Err(SubshellError::UnmatchedOpen)));
    assert_eq!(expand("((a)"), (vec![], Err(SubshellError::UnmatchedOpen)));
    assert_eq!(
        expand("(a) (b"),
        (vec![strings(&["a"])], Err(SubshellError::UnmatchedOpen))
    );
}

#[test]
fn an_error_repeats_when_asked_again() {
    let mut expander = Expander::new("x )");
    assert!(matches!(expander.next(), Step::Failed(SubshellError::UnmatchedClose)));
    assert!(matches!(expander.next(), Step::Failed(SubshellError::UnmatchedClose)));
}

#[test]
fn the_end_repeats_when_asked_again() {
    let mut expander = Expander::new("abc");
    assert!(matches!(expander.next(), Step::Done(_)));
    match expander.next() {
        Step::Done(text) => assert_eq!(text, "abc"),
        other => panic!("unexpected: {:?}", other),
    }
}

#[test]
fn errors_have_their_messages() {
    assert_eq!(SubshellError::UnmatchedClose.message(), "Unmatched closing parenthesis");
    assert_eq!(SubshellError::UnmatchedOpen.message(), "Unmatched opening parenthesis");
}
