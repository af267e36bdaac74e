use rshell::redirects::{
    operator_string, tokenize_with_redirects, OpenMode, ParsedCommand, RedirectOp, RedirectType,
    Token,
};

fn shown(tokens: Vec<Token>) -> Vec<String> {
    tokens
        .into_iter()
        .map(|t| match t {
            Token::Word(w) => format!("w:{}", w),
            Token::Operator(op) => format!("op:{}", operator_string(op)),
        })
        .collect()
}

fn redirects(line: &str) -> Vec<String> {
    ParsedCommand::parse(line).redirects.iter().map(|r| format!("{:?}", r)).collect()
}

#[test]
fn operators_are_tokens_of_their_own() {
    assert_eq!(
        shown(tokenize_with_redirects("sort<in>out 2>>err")),
        vec!["w:sort", "op:<", "w:in", "op:>", "w:out", "op:2>>", "w:err"]
    );
    assert_eq!(
        shown(tokenize_with_redirects("a >> b 2> c &> d")),
        vec!["w:a", "op:>>", "w:b", "op:2>", "w:c", "op:&>", "w:d"]
    );
}

#[test]
fn the_longest_operator_wins() {
    assert_eq!(shown(tokenize_with_redirects(">>>")), vec!["op:>>", "op:>"]);
    assert_eq!(shown(tokenize_with_redirects("2>>>")), vec!["op:2>>", "op:>"]);
}

#[test]
fn a_two_before_an_output_operator_belongs_to_the_operator() {
    assert_eq!(shown(tokenize_with_redirects("file2>out")), vec!["w:file", "op:2>", "w:out"]);
    assert_eq!(shown(tokenize_with_redirects("echo 2 > f")), vec!["w:echo", "w:2", "op:>", "w:f"]);
    assert_eq!(shown(tokenize_with_redirects("a & b")), vec!["w:a", "w:&", "w:b"]);
}

#[test]
fn quotes_hide_operators_and_spaces() {
    assert_eq!(
        shown(tokenize_with_redirects("echo \"a > b\" '2>' x")),
        vec!["w:echo", "w:a > b", "w:2>", "w:x"]
    );
    assert_eq!(shown(tokenize_with_redirects("a\"b c\"d")), vec!["w:ab cd"]);
    assert_eq!(shown(tokenize_with_redirects("\"it's\"")), vec!["w:it's"]);
}

#[test]
fn a_backslash_is_an_ordinary_character_here() {
    assert_eq!(shown(tokenize_with_redirects("a\\ b")), vec!["w:a\\", "w:b"]);
}

#[test]
fn output_redirection_truncates() {
    let parsed = ParsedCommand::parse("echo hi > f.txt");
    assert_eq!(parsed.program, "echo");
    assert_eq!(parsed.args, vec!["hi".to_string()]);
    assert_eq!(redirects("echo hi > f.txt"), vec!["StdoutTo(\"f.txt\")"]);
    let wiring = parsed.redirects[0].wiring();
    assert_eq!(wiring.path, "f.txt");
    assert_eq!(wiring.mode, OpenMode::Truncate);
    assert!(!wiring.stdin && wiring.stdout && !wiring.stderr);
}

#[test]
fn append_redirection_appends() {
    let parsed = ParsedCommand::parse("echo bye >> f.txt");
    assert_eq!(parsed.program, "echo");
    assert_eq!(parsed.args, vec!["bye".to_string()]);
    assert_eq!(redirects("echo bye >> f.txt"), vec!["StdoutAppend(\"f.txt\")"]);
    let wiring = parsed.redirects[0].wiring();
    assert_eq!(wiring.path, "f.txt");
    assert_eq!(wiring.mode, OpenMode::Append);
    assert!(!wiring.stdin && wiring.stdout && !wiring.stderr);
}

#[test]
fn every_operator_has_its_wiring() {
    let check = |r: RedirectType, mode: OpenMode, streams: (bool, bool, bool)| {
        let w = r.wiring();
        assert_eq!(w.path, "p");
        assert_eq!(w.mode, mode);
        assert_eq!((w.stdin, w.stdout, w.stderr), streams);
    };
    check(RedirectType::StdinFrom("p".into()), OpenMode::Read, (true, false, false));
    check(RedirectType::StdoutTo("p".into()), OpenMode::Truncate, (false, true, false));
    check(RedirectType::StdoutAppend("p".into()), OpenMode::Append, (false, true, false));
    check(RedirectType::StderrTo("p".into()), OpenMode::Truncate, (false, false, true));
    check(RedirectType::StderrAppend("p".into()), OpenMode::Append, (false, false, true));
    check(RedirectType::BothTo("p".into()), OpenMode::Truncate, (false, true, true));
}

#[test]
fn redirections_may_stand_anywhere() {
    let parsed = ParsedCommand::parse("< in sort -r 2> err > out");
    assert_eq!(parsed.program, "sort");
    assert_eq!(parsed.args, vec!["-r".to_string()]);
    assert_eq!(
        redirects("< in sort -r 2> err > out"),
        vec!["StdinFrom(\"in\")", "StderrTo(\"err\")", "StdoutTo(\"out\")"]
    );
    assert_eq!(redirects("a 2>> e &> b"), vec!["StderrAppend(\"e\")", "BothTo(\"b\")"]);
}

#[test]
fn the_token_behind_an_operator_is_its_file_whatever_it_is() {
    let parsed = ParsedCommand::parse("echo > > x");
    assert_eq!(parsed.program, "echo");
    assert_eq!(parsed.args, vec!["x".to_string()]);
    assert_eq!(redirects("echo > > x"), vec!["StdoutTo(\">\")"]);
}

#[test]
fn a_quoted_operator_is_a_word() {
    let parsed = ParsedCommand::parse("echo \">\" x");
    assert_eq!(parsed.program, "echo");
    assert_eq!(parsed.args, vec![">".to_string(), "x".to_string()]);
    assert!(parsed.redirects.is_empty());
    assert!(ParsedCommand::diagnostic("echo \">\"").is_none());
}

#[test]
fn an_operator_without_a_file_is_reported_and_dropped() {
    let parsed = ParsedCommand::parse("echo hi >");
    assert_eq!(parsed.program, "echo");
    assert_eq!(parsed.args, vec!["hi".to_string()]);
    assert!(parsed.redirects.is_empty());
    for (line, op) in [
        ("echo hi >", ">"),
        ("cat <", "<"),
        ("a >>", ">>"),
        ("a 2>", "2>"),
        ("a 2>>", "2>>"),
        ("a &>", "&>"),
    ] {
        assert_eq!(
            ParsedCommand::diagnostic(line),
            Some(format!("Error: expected filename after '{}'", op))
        );
    }
    assert_eq!(ParsedCommand::diagnostic("echo hi > f"), None);
    assert_eq!(ParsedCommand::diagnostic("echo > >"), None);
}

#[test]
fn a_line_without_a_word_has_an_empty_program() {
    let parsed = ParsedCommand::parse("> f");
    assert_eq!(parsed.program, "");
    assert!(parsed.args.is_empty());
    assert_eq!(redirects("> f"), vec!["StdoutTo(\"f\")"]);
    let parsed = ParsedCommand::parse("");
    assert_eq!(parsed.program, "");
    assert!(parsed.args.is_empty());
    assert!(parsed.redirects.is_empty());
}

#[test]
fn operators_have_their_symbols() {
    assert_eq!(operator_string(RedirectOp::Input), "<");
    assert_eq!(operator_string(RedirectOp::Output), ">");
    assert_eq!(operator_string(RedirectOp::Append), ">>");
    assert_eq!(operator_string(RedirectOp::ErrorOutput), "2>");
    assert_eq!(operator_string(RedirectOp::ErrorAppend), "2>>");
    assert_eq!(operator_string(RedirectOp::Both), "&>");
}
