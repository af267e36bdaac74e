use rshell::chain::ChainOp;
use rshell::shell::{plan_line, LineReader, Plan};

#[test]
fn a_complete_line_is_handed_on_at_once() {
    let mut r = LineReader::new();
    assert!(!r.is_continuing());
    assert_eq!(r.push_line("echo hi"), Some("echo hi".to_string()));
    let mut r = LineReader::new();
    assert_eq!(r.push_line(""), Some(String::new()));
    let mut r = LineReader::new();
    assert_eq!(r.push_line("  ls  "), Some("  ls  ".to_string()));
}

#[test]
fn a_trailing_backslash_joins_the_next_line_with_a_space() {
    let mut r = LineReader::new();
    assert_eq!(r.push_line("echo a \\"), None);
    assert!(r.is_continuing());
    assert_eq!(r.push_line("b"), Some("echo a  b".to_string()));
    let mut r = LineReader::new();
    assert_eq!(r.push_line("echo a\\"), None);
    assert_eq!(r.push_line("b\\  "), None);
    assert_eq!(r.push_line("c"), Some("echo a b c".to_string()));
}

#[test]
fn two_trailing_backslashes_do_not_continue() {
    let mut r = LineReader::new();
    assert_eq!(r.push_line("echo a\\\\"), Some("echo a\\\\".to_string()));
    let mut r = LineReader::new();
    assert_eq!(r.push_line("echo a\\\\\\"), None);
    assert_eq!(r.push_line("b"), Some("echo a\\\\ b".to_string()));
    let mut r = LineReader::new();
    assert_eq!(r.push_line("\\\\\\\\"), Some("\\\\\\\\".to_string()));
}

#[test]
fn a_lone_backslash_continues() {
    let mut r = LineReader::new();
    assert_eq!(r.push_line("\\"), None);
    assert_eq!(r.push_line("ls"), Some(" ls".to_string()));
}

#[test]
fn an_open_quote_joins_the_next_line_with_a_line_break() {
    let mut r = LineReader::new();
    assert_eq!(r.push_line("echo \"a"), None);
    assert!(r.is_continuing());
    assert_eq!(r.push_line("b"), None);
    assert_eq!(r.push_line("c\" d"), Some("echo \"a\nb\nc\" d".to_string()));
}

#[test]
fn a_backslash_joins_with_a_space_even_inside_a_quote() {
    let mut r = LineReader::new();
    assert_eq!(r.push_line("echo 'a"), None);
    assert_eq!(r.push_line("b\\"), None);
    assert_eq!(r.push_line("c'"), Some("echo 'a\nb c'".to_string()));
}

#[test]
fn a_blank_line_asks_for_nothing() {
    for line in ["", "   ", "\t\n"] {
        let plan = plan_line(line);
        assert_eq!(plan.entry, None);
        assert!(matches!(plan.plan, Plan::Nothing));
    }
}

#[test]
fn a_simple_command_keeps_its_ampersand_for_the_parser() {
    let plan = plan_line("  sleep 5 &  ");
    assert_eq!(plan.entry.as_deref(), Some("sleep 5"));
    match plan.plan {
        Plan::Simple(text) => assert_eq!(text, "sleep 5 &"),
        other => panic!("unexpected: {:?}", other),
    }
    let plan = plan_line("ls -l");
    assert_eq!(plan.entry.as_deref(), Some("ls -l"));
    match plan.plan {
        Plan::Simple(text) => assert_eq!(text, "ls -l"),
        other => panic!("unexpected: {:?}", other),
    }
    let plan = plan_line("&");
    assert_eq!(plan.entry.as_deref(), Some(""));
    assert!(matches!(plan.plan, Plan::Simple(_)));
}

#[test]
fn a_bar_makes_a_pipeline() {
    let plan = plan_line("printf \"b\\na\" | sort");
    assert_eq!(plan.entry.as_deref(), Some("printf \"b\\na\" | sort"));
    match plan.plan {
        Plan::Pipeline { stages, background } => {
            assert!(!background);
            assert_eq!(stages.len(), 2);
            assert_eq!(stages[0].program, "printf");
            assert_eq!(stages[0].args, vec!["b\\na".to_string()]);
            assert_eq!(stages[1].program, "sort");
            assert!(stages[0].stdout_piped && stages[1].stdin_piped);
        }
        other => panic!("unexpected: {:?}", other),
    }
    match plan_line("yes | head &").plan {
        Plan::Pipeline { stages, background } => {
            assert!(background);
            assert_eq!(stages.len(), 2);
            assert_eq!(stages[1].program, "head");
            assert!(stages[1].args.is_empty());
        }
        other => panic!("unexpected: {:?}", other),
    }
}

#[test]
fn a_redirection_without_a_bar_makes_a_redirected_command() {
    let plan = plan_line("echo hi > f.txt");
    assert_eq!(plan.entry.as_deref(), Some("echo hi > f.txt"));
    match plan.plan {
        Plan::Redirect(command) => {
            assert_eq!(command.program, "echo");
            assert_eq!(command.args, vec!["hi".to_string()]);
            assert_eq!(command.redirects.len(), 1);
        }
        other => panic!("unexpected: {:?}", other),
    }
    assert!(matches!(plan_line("sort < in").plan, Plan::Redirect(_)));
    match plan_line("echo hi >").plan {
        Plan::Malformed(why) => assert_eq!(why, "Error: expected filename after '>'"),
        other => panic!("unexpected: {:?}", other),
    }
    match plan_line("sort 2>> ").plan {
        Plan::Malformed(why) => assert_eq!(why, "Error: expected filename after '2>>'"),
        other => panic!("unexpected: {:?}", other),
    }
    assert!(matches!(plan_line("sort < in | uniq").plan, Plan::Pipeline { .. }));
}

#[test]
fn quoted_operators_make_a_simple_command() {
    for line in ["echo \"a > b\"", "echo 'a | b'", "echo '2>' \"&>\" '<'", "echo \"a|b\""] {
        match plan_line(line).plan {
            Plan::Simple(text) => assert_eq!(text, line),
            other => panic!("unexpected: {:?}", other),
        }
    }
    assert!(matches!(plan_line("echo 'a' > b").plan, Plan::Redirect(_)));
    assert!(matches!(plan_line("echo 'a|' | cat").plan, Plan::Pipeline { .. }));
}

#[test]
fn a_double_angle_makes_a_here_document() {
    let plan = plan_line("cat << EOF");
    match plan.plan {
        Plan::Heredoc(text) => assert_eq!(text, "cat << EOF"),
        other => panic!("unexpected: {:?}", other),
    }
    assert!(matches!(plan_line("cat << EOF | wc").plan, Plan::Heredoc(_)));
}

#[test]
fn a_chain_wins_over_everything_else() {
    let plan = plan_line(" a | b && c > d ; e & ");
    assert_eq!(plan.entry.as_deref(), Some("a | b && c > d ; e"));
    match plan.plan {
        Plan::Chain(links) => {
            let texts: Vec<&str> = links.iter().map(|l| l.text.as_str()).collect();
            assert_eq!(texts, vec!["a | b ", " c > d ", " e &"]);
            let ops: Vec<Option<ChainOp>> = links.iter().map(|l| l.op).collect();
            assert_eq!(ops, vec![Some(ChainOp::And), Some(ChainOp::Sequence), None]);
        }
        other => panic!("unexpected: {:?}", other),
    }
    assert!(matches!(plan_line("false || echo X").plan, Plan::Chain(_)));
    assert!(matches!(plan_line("echo 'a || b'").plan, Plan::Simple(_)));
}
