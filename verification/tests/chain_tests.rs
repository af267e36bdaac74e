use rshell::chain::{split_chain, ChainLink, ChainOp, ChainRunner, Outcome};
use rshell::command::Command;

fn parts(line: &str) -> Vec<(String, Option<ChainOp>)> {
    split_chain(line).into_iter().map(|l| (l.text, l.op)).collect()
}

fn link(text: &str, op: Option<ChainOp>) -> (String, Option<ChainOp>) {
    (text.to_string(), op)
}

/// Runs a chain with commands that succeed unless their trimmed text is
/// `false`, and of which `exit` ends the session; returns the texts that ran.
fn run(line: &str) -> Vec<String> {
    run_to_end(line).0
}

fn run_to_end(line: &str) -> (Vec<String>, Outcome) {
    let mut runner = ChainRunner::new(split_chain(line));
    let mut ran = Vec::new();
    while let Some(text) = runner.next_command() {
        let text = text.trim().to_string();
        runner.report(match text.as_str() {
            "false" => Outcome::Failure,
            "exit" => Outcome::Exit,
            _ => Outcome::Success,
        });
        ran.push(text);
    }
    (ran, runner.outcome())
}

#[test]
fn a_line_without_an_operator_is_one_link() {
    assert_eq!(parts("echo a | wc & "), vec![link("echo a | wc & ", None)]);
    assert_eq!(parts(""), vec![link("", None)]);
}

#[test]
fn operators_split_and_tag_the_link_before_them() {
    assert_eq!(
        parts("a&&b||c;d"),
        vec![
            link("a", Some(ChainOp::And)),
            link("b", Some(ChainOp::Or)),
            link("c", Some(ChainOp::Sequence)),
            link("d", None),
        ]
    );
}

#[test]
fn an_operator_at_the_end_leaves_an_empty_link() {
    assert_eq!(parts("a ;"), vec![link("a ", Some(ChainOp::Sequence)), link("", None)]);
    assert_eq!(parts(";;"), vec![
        link("", Some(ChainOp::Sequence)),
        link("", Some(ChainOp::Sequence)),
        link("", None),
    ]);
}

#[test]
fn quoted_and_escaped_operators_do_not_split() {
    assert_eq!(parts("echo 'a && b'"), vec![link("echo 'a && b'", None)]);
    assert_eq!(parts("echo \"a ; b\" ; c"), vec![
        link("echo \"a ; b\" ", Some(ChainOp::Sequence)),
        link(" c", None),
    ]);
    assert_eq!(parts("echo a\\;b"), vec![link("echo a\\;b", None)]);
    assert_eq!(parts("echo \"a \\\" ; b\""), vec![link("echo \"a \\\" ; b\"", None)]);
}

#[test]
fn a_single_ampersand_or_bar_is_no_operator() {
    assert_eq!(parts("a & b | c"), vec![link("a & b | c", None)]);
    assert_eq!(parts("a &&& b"), vec![link("a ", Some(ChainOp::And)), link("& b", None)]);
}

#[test]
fn and_runs_only_after_success() {
    assert_eq!(run("false && echo X"), vec!["false"]);
    assert_eq!(run("true && echo X"), vec!["true", "echo X"]);
}

#[test]
fn or_runs_only_after_failure() {
    assert_eq!(run("false || echo X"), vec!["false", "echo X"]);
    assert_eq!(run("true || echo X"), vec!["true"]);
}

#[test]
fn sequence_runs_in_any_case() {
    assert_eq!(run("true ; echo X"), vec!["true", "echo X"]);
    assert_eq!(run("false ; echo X"), vec!["false", "echo X"]);
}

#[test]
fn a_skipped_command_leaves_the_last_result() {
    assert_eq!(run("false && echo X || echo Y"), vec!["false", "echo Y"]);
    assert_eq!(run("true || echo X && echo Y"), vec!["true", "echo Y"]);
    assert_eq!(run("false && a && b ; c"), vec!["false", "c"]);
}

#[test]
fn the_runner_reports_the_last_result() {
    let mut runner = ChainRunner::new(vec![
        ChainLink { text: "a".to_string(), op: Some(ChainOp::And) },
        ChainLink { text: "b".to_string(), op: None },
    ]);
    assert_eq!(runner.outcome(), Outcome::Success);
    assert_eq!(runner.next_command().as_deref(), Some("a"));
    runner.report(Outcome::Failure);
    assert_eq!(runner.outcome(), Outcome::Failure);
    assert_eq!(runner.next_command(), None);
    assert_eq!(runner.next_command(), None);
    assert_eq!(runner.outcome(), Outcome::Failure);
    assert_eq!(run_to_end("false ; true").1, Outcome::Success);
    assert_eq!(run_to_end("true ; false").1, Outcome::Failure);
    assert_eq!(run_to_end("true || false").1, Outcome::Success);
}

#[test]
fn nothing_runs_after_an_exit() {
    assert_eq!(run_to_end("a ; exit ; b"), (vec!["a".to_string(), "exit".to_string()], Outcome::Exit));
    assert_eq!(run_to_end("exit || b ; c && d"), (vec!["exit".to_string()], Outcome::Exit));
    assert_eq!(run_to_end("false && exit ; b"), (vec!["false".to_string(), "b".to_string()], Outcome::Success));
    let mut runner = ChainRunner::new(split_chain("a ; b ; c"));
    assert_eq!(runner.next_command().as_deref(), Some("a "));
    runner.report(Outcome::Exit);
    runner.report(Outcome::Success);
    assert_eq!(runner.next_command(), None);
    assert_eq!(runner.outcome(), Outcome::Exit);
}

#[test]
fn outcomes_come_from_success() {
    assert_eq!(Outcome::of(true), Outcome::Success);
    assert_eq!(Outcome::of(false), Outcome::Failure);
}

#[test]
fn links_spell_the_line_and_are_no_chains() {
    for line in [
        "",
        "a",
        "a && b",
        " a;b ; c||d&&e ",
        "echo 'x;y' ; echo \"p && q\" || r\\;s",
        "a \\ && b",
        ";;&&||",
        "a & b | c ; d",
    ] {
        let links = split_chain(line);
        let mut spelled = String::new();
        for link in &links {
            spelled.push_str(&link.text);
            spelled.push_str(match link.op {
                Some(ChainOp::And) => "&&",
                Some(ChainOp::Or) => "||",
                Some(ChainOp::Sequence) => ";",
                None => "",
            });
            assert_eq!(split_chain(link.text.trim()).len(), 1, "{:?}", link.text);
            assert!(!matches!(Command::parse(&link.text), Some(Command::Chain(_))));
        }
        assert_eq!(spelled, line);
        assert!(links.last().unwrap().op.is_none());
        assert!(links[..links.len() - 1].iter().all(|l| l.op.is_some()));
    }
}
