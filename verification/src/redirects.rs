//! Commands with redirections: `<`, `>`, `>>`, `2>`, `2>>` and `&>`.

use crate::text::to_chars;
use vstd::prelude::*;
use vstd::string::StringExecFns;

verus! {

/// A redirection operator.
#[derive(Debug, Clone, Copy, PartialEq, Eq, Structural)]
pub enum RedirectOp {
    /// `<`
    Input,
    /// `>`
    Output,
    /// `>>`
    Append,
    /// `2>`
    ErrorOutput,
    /// `2>>`
    ErrorAppend,
    /// `&>`
    Both,
}

/// A token of a command line with redirections.
#[derive(Debug)]
pub enum Token {
    /// A word; quotes around it or inside it are taken off.
    Word(String),
    /// A redirection operator that stood outside quotes.
    Operator(RedirectOp),
}

/// A [`Token`] with its text as a character sequence.
pub enum TokenView {
    Word(Seq<char>),
    Operator(RedirectOp),
}

impl View for Token {
    type V = TokenView;

    open spec fn view(&self) -> TokenView {
        match *self {
            Token::Word(w) => TokenView::Word(w@),
            Token::Operator(op) => TokenView::Operator(op),
        }
    }
}

/// The views of the tokens `v`.
pub open spec fn tokens_view(v: Seq<Token>) -> Seq<TokenView> {
    Seq::new(v.len(), |i: int| v[i]@)
}

/// The characters that write `op`.
pub open spec fn operator_text(op: RedirectOp) -> Seq<char> {
    match op {
        RedirectOp::Input => seq!['<'],
        RedirectOp::Output => seq!['>'],
        RedirectOp::Append => seq!['>', '>'],
        RedirectOp::ErrorOutput => seq!['2', '>'],
        RedirectOp::ErrorAppend => seq!['2', '>', '>'],
        RedirectOp::Both => seq!['&', '>'],
    }
}

/// The text of a token: the word, or the characters of the operator.
pub open spec fn token_text(t: TokenView) -> Seq<char> {
    match t {
        TokenView::Word(w) => w,
        TokenView::Operator(op) => operator_text(op),
    }
}

/// Where the tokenizer stands after some prefix of a line.
pub struct TokenScan {
    /// The tokens completed so far.
    pub tokens: Seq<TokenView>,
    /// The word being collected.
    pub current: Seq<char>,
    /// Whether a quote is open.
    pub in_quotes: bool,
    /// The character that opened the last quote.
    pub quote_char: char,
}

/// The tokenizer before any input.
pub open spec fn token_start() -> TokenScan {
    TokenScan { tokens: Seq::empty(), current: Seq::empty(), in_quotes: false, quote_char: ' ' }
}

/// The scan with the word being collected completed, where it is not empty.
pub open spec fn flush(st: TokenScan) -> TokenScan {
    if st.current.len() > 0 {
        TokenScan {
            tokens: st.tokens.push(TokenView::Word(st.current)),
            current: Seq::empty(),
            ..st
        }
    } else {
        st
    }
}

/// The scan with the word being collected completed and `op` added.
pub open spec fn emit(st: TokenScan, op: RedirectOp) -> TokenScan {
    TokenScan { tokens: flush(st).tokens.push(TokenView::Operator(op)), ..flush(st) }
}

/// The redirection operator that starts at index `at` of `s`, if one does.
/// The longest operator wins.
pub open spec fn redirect_at(s: Seq<char>, at: int) -> Option<RedirectOp> {
    let c = s[at];
    let next = at + 1 < s.len() && s[at + 1] == '>';
    if c == '>' {
        if next {
            Some(RedirectOp::Append)
        } else {
            Some(RedirectOp::Output)
        }
    } else if c == '<' {
        Some(RedirectOp::Input)
    } else if c == '2' && next {
        if at + 2 < s.len() && s[at + 2] == '>' {
            Some(RedirectOp::ErrorAppend)
        } else {
            Some(RedirectOp::ErrorOutput)
        }
    } else if c == '&' && next {
        Some(RedirectOp::Both)
    } else {
        None
    }
}

/// The tokens of `s` when the tokenizer stands at index `at` in state `st`.
pub open spec fn tokens_from(s: Seq<char>, at: int, st: TokenScan) -> Seq<TokenView>
    decreases s.len() - at,
{
    if at < 0 || at >= s.len() {
        flush(st).tokens
    } else {
        let c = s[at];
        if (c == '"' || c == '\'') && !st.in_quotes {
            tokens_from(s, at + 1, TokenScan { in_quotes: true, quote_char: c, ..st })
        } else if (c == '"' || c == '\'') && st.in_quotes && c == st.quote_char {
            tokens_from(s, at + 1, TokenScan { in_quotes: false, ..st })
        } else if st.in_quotes {
            tokens_from(s, at + 1, TokenScan { current: st.current.push(c), ..st })
        } else if c == ' ' {
            tokens_from(s, at + 1, flush(st))
        } else {
            match redirect_at(s, at) {
                Some(op) => tokens_from(s, at + operator_text(op).len(), emit(st, op)),
                None => tokens_from(s, at + 1, TokenScan { current: st.current.push(c), ..st }),
            }
        }
    }
}

/// The tokens of the line `s`: words, split at spaces outside quotes, and
/// the redirection operators that stand outside quotes.
pub open spec fn tokens_of(s: Seq<char>) -> Seq<TokenView> {
    tokens_from(s, 0, token_start())
}

/// Splits `input` into words and redirection operators.
pub fn tokenize_with_redirects(input: &str) -> (tokens: Vec<Token>)
    ensures
        tokens_view(tokens@) == tokens_of(input@),
{
    let chars = to_chars(input);
    let n = chars.len();
    let mut tokens: Vec<Token> = Vec::new();
    let mut current = String::new();
    let mut in_quotes = false;
    let mut quote_char = ' ';
    let mut i: usize = 0;
    assert(tokens_view(tokens@) =~= Seq::<TokenView>::empty());
    while i < n
        invariant
            0 <= i <= n,
            n == chars.len(),
            chars@ == input@,
            tokens_from(
                chars@,
                i as int,
                TokenScan { tokens: tokens_view(tokens@), current: current@, in_quotes, quote_char },
            ) == tokens_of(chars@),
        decreases n - i,
    {
        let c = chars[i];
        let ghost before = tokens_view(tokens@);
        let ghost st = TokenScan {
            tokens: tokens_view(tokens@),
            current: current@,
            in_quotes,
            quote_char,
        };
        if (c == '"' || c == '\'') && !in_quotes {
            in_quotes = true;
            quote_char = c;
            i += 1;
        } else if (c == '"' || c == '\'') && in_quotes && c == quote_char {
            in_quotes = false;
            i += 1;
        } else if in_quotes {
            current.push(c);
            i += 1;
        } else {
            let next = i + 1 < n && chars[i + 1] == '>';
            let op: Option<RedirectOp> = if c == ' ' {
                None
            } else if c == '>' {
                if next {
                    Some(RedirectOp::Append)
                } else {
                    Some(RedirectOp::Output)
                }
            } else if c == '<' {
                Some(RedirectOp::Input)
            } else if c == '2' && next {
                if i + 2 < n && chars[i + 2] == '>' {
                    Some(RedirectOp::ErrorAppend)
                } else {
                    Some(RedirectOp::ErrorOutput)
                }
            } else if c == '&' && next {
                Some(RedirectOp::Both)
            } else {
                None
            };
            assert(c != ' ' ==> op == redirect_at(chars@, i as int));
            if c == ' ' || op.is_some() {
                if !current.as_str().is_empty() {
                    let ghost word = current@;
                    tokens.push(Token::Word(current));
                    current = String::new();
                    assert(tokens_view(tokens@) =~= before.push(TokenView::Word(word)));
                }
                assert(tokens_view(tokens@) == flush(st).tokens);
            } else {
                current.push(c);
            }
            match op {
                Some(o) => {
                    let width: usize = match o {
                        RedirectOp::Input => 1,
                        RedirectOp::Output => 1,
                        RedirectOp::Append => 2,
                        RedirectOp::ErrorOutput => 2,
                        RedirectOp::ErrorAppend => 3,
                        RedirectOp::Both => 2,
                    };
                    assert(width == operator_text(o).len());
                    let ghost flushed = tokens_view(tokens@);
                    tokens.push(Token::Operator(o));
                    assert(tokens_view(tokens@) =~= flushed.push(TokenView::Operator(o)));
                    i += width;
                },
                None => {
                    i += 1;
                },
            }
        }
    }
    if !current.as_str().is_empty() {
        let ghost before = tokens_view(tokens@);
        let ghost word = current@;
        tokens.push(Token::Word(current));
        assert(tokens_view(tokens@) =~= before.push(TokenView::Word(word)));
    }
    tokens
}

/// A redirection of one command, with the path of its file.
#[derive(Debug, Clone)]
pub enum RedirectType {
    /// `< file`: standard input is read from the file.
    StdinFrom(String),
    /// `> file`: standard output goes to the file, which is emptied first.
    StdoutTo(String),
    /// `>> file`: standard output is added to the end of the file.
    StdoutAppend(String),
    /// `2> file`: standard error goes to the file, which is emptied first.
    StderrTo(String),
    /// `2>> file`: standard error is added to the end of the file.
    StderrAppend(String),
    /// `&> file`: both output streams go to the file, which is emptied first.
    BothTo(String),
}

/// A [`RedirectType`] with its path as a character sequence.
pub enum RedirectView {
    StdinFrom(Seq<char>),
    StdoutTo(Seq<char>),
    StdoutAppend(Seq<char>),
    StderrTo(Seq<char>),
    StderrAppend(Seq<char>),
    BothTo(Seq<char>),
}

impl View for RedirectType {
    type V = RedirectView;

    open spec fn view(&self) -> RedirectView {
        match *self {
            RedirectType::StdinFrom(f) => RedirectView::StdinFrom(f@),
            RedirectType::StdoutTo(f) => RedirectView::StdoutTo(f@),
            RedirectType::StdoutAppend(f) => RedirectView::StdoutAppend(f@),
            RedirectType::StderrTo(f) => RedirectView::StderrTo(f@),
            RedirectType::StderrAppend(f) => RedirectView::StderrAppend(f@),
            RedirectType::BothTo(f) => RedirectView::BothTo(f@),
        }
    }
}

/// The views of the redirections `v`.
pub open spec fn redirects_view(v: Seq<RedirectType>) -> Seq<RedirectView> {
    Seq::new(v.len(), |i: int| v[i]@)
}

/// The redirection that `op` makes to the file `target`.
pub open spec fn redirect_of(op: RedirectOp, target: Seq<char>) -> RedirectView {
    match op {
        RedirectOp::Input => RedirectView::StdinFrom(target),
        RedirectOp::Output => RedirectView::StdoutTo(target),
        RedirectOp::Append => RedirectView::StdoutAppend(target),
        RedirectOp::ErrorOutput => RedirectView::StderrTo(target),
        RedirectOp::ErrorAppend => RedirectView::StderrAppend(target),
        RedirectOp::Both => RedirectView::BothTo(target),
    }
}

/// How a file is opened for a redirection.
#[derive(Debug, Clone, Copy, PartialEq, Eq, Structural)]
pub enum OpenMode {
    /// The file must exist and is read.
    Read,
    /// The file is created where it is missing and emptied where it exists.
    Truncate,
    /// The file is created where it is missing; writes go to its end.
    Append,
}

/// What carrying out one redirection takes: the file, how it is opened,
/// and the streams of the child that are attached to it. Where both output
/// streams are attached they share the one open file.
#[derive(Debug)]
pub struct Wiring {
    pub path: String,
    pub mode: OpenMode,
    pub stdin: bool,
    pub stdout: bool,
    pub stderr: bool,
}

impl RedirectType {
    /// The file and streams of this redirection.
    pub fn wiring(&self) -> (w: Wiring)
        ensures
            match self@ {
                RedirectView::StdinFrom(f) => w.path@ == f && w.mode == OpenMode::Read && w.stdin
                    && !w.stdout && !w.stderr,
                RedirectView::StdoutTo(f) => w.path@ == f && w.mode == OpenMode::Truncate
                    && !w.stdin && w.stdout && !w.stderr,
                RedirectView::StdoutAppend(f) => w.path@ == f && w.mode == OpenMode::Append
                    && !w.stdin && w.stdout && !w.stderr,
                RedirectView::StderrTo(f) => w.path@ == f && w.mode == OpenMode::Truncate
                    && !w.stdin && !w.stdout && w.stderr,
                RedirectView::StderrAppend(f) => w.path@ == f && w.mode == OpenMode::Append
                    && !w.stdin && !w.stdout && w.stderr,
                RedirectView::BothTo(f) => w.path@ == f && w.mode == OpenMode::Truncate
                    && !w.stdin && w.stdout && w.stderr,
            },
    {
        match self {
            RedirectType::StdinFrom(f) => Wiring {
                path: f.clone(),
                mode: OpenMode::Read,
                stdin: true,
                stdout: false,
                stderr: false,
            },
            RedirectType::StdoutTo(f) => Wiring {
                path: f.clone(),
                mode: OpenMode::Truncate,
                stdin: false,
                stdout: true,
                stderr: false,
            },
            RedirectType::StdoutAppend(f) => Wiring {
                path: f.clone(),
                mode: OpenMode::Append,
                stdin: false,
                stdout: true,
                stderr: false,
            },
            RedirectType::StderrTo(f) => Wiring {
                path: f.clone(),
                mode: OpenMode::Truncate,
                stdin: false,
                stdout: false,
                stderr: true,
            },
            RedirectType::StderrAppend(f) => Wiring {
                path: f.clone(),
                mode: OpenMode::Append,
                stdin: false,
                stdout: false,
                stderr: true,
            },
            RedirectType::BothTo(f) => Wiring {
                path: f.clone(),
                mode: OpenMode::Truncate,
                stdin: false,
                stdout: true,
                stderr: true,
            },
        }
    }
}

/// A command with its redirections.
#[derive(Debug)]
pub struct ParsedCommand {
    pub program: String,
    pub args: Vec<String>,
    pub redirects: Vec<RedirectType>,
}

/// A [`ParsedCommand`] with its texts as character sequences.
pub struct ParsedCommandView {
    pub program: Seq<char>,
    pub args: Seq<Seq<char>>,
    pub redirects: Seq<RedirectView>,
}

impl View for ParsedCommand {
    type V = ParsedCommandView;

    open spec fn view(&self) -> ParsedCommandView {
        ParsedCommandView {
            program: self.program@,
            args: self.args.deep_view(),
            redirects: redirects_view(self.redirects@),
        }
    }
}

/// The words and the redirections among some tokens.
pub struct Parts {
    pub words: Seq<Seq<char>>,
    pub redirects: Seq<RedirectView>,
}

/// The words and redirections of the tokens from index `at` on. An operator
/// takes the token behind it as its file, whatever that token is; an
/// operator with no token behind it is passed over.
pub open spec fn parts_from(tokens: Seq<TokenView>, at: int) -> Parts
    decreases tokens.len() - at,
{
    if at < 0 || at >= tokens.len() {
        Parts { words: Seq::empty(), redirects: Seq::empty() }
    } else {
        match tokens[at] {
            TokenView::Operator(op) => if at + 1 < tokens.len() {
                let rest = parts_from(tokens, at + 2);
                Parts {
                    words: rest.words,
                    redirects: seq![redirect_of(op, token_text(tokens[at + 1]))] + rest.redirects,
                }
            } else {
                parts_from(tokens, at + 1)
            },
            TokenView::Word(w) => {
                let rest = parts_from(tokens, at + 1);
                Parts { words: seq![w] + rest.words, redirects: rest.redirects }
            },
        }
    }
}

/// The operator that stands last among the tokens from index `at` on with
/// no token left to name its file.
pub open spec fn dangling_from(tokens: Seq<TokenView>, at: int) -> Option<RedirectOp>
    decreases tokens.len() - at,
{
    if at < 0 || at >= tokens.len() {
        None
    } else {
        match tokens[at] {
            TokenView::Operator(op) => if at + 1 < tokens.len() {
                dangling_from(tokens, at + 2)
            } else {
                Some(op)
            },
            TokenView::Word(_) => dangling_from(tokens, at + 1),
        }
    }
}

/// The command that the line `s` stands for: its first word is the
/// program, the other words are the arguments.
pub open spec fn parsed_of(s: Seq<char>) -> ParsedCommandView {
    let parts = parts_from(tokens_of(s), 0);
    ParsedCommandView {
        program: if parts.words.len() > 0 {
            parts.words[0]
        } else {
            Seq::empty()
        },
        args: if parts.words.len() > 0 {
            parts.words.drop_first()
        } else {
            Seq::empty()
        },
        redirects: parts.redirects,
    }
}

/// What is to be said of the line `s`: a redirection operator at its end
/// names no file.
pub open spec fn missing_target_of(s: Seq<char>) -> Option<Seq<char>> {
    match dangling_from(tokens_of(s), 0) {
        Some(op) => Some("Error: expected filename after '"@ + operator_text(op) + "'"@),
        None => None,
    }
}

/// The characters that write `op`, as a string.
pub fn operator_string(op: RedirectOp) -> (r: String)
    ensures
        r@ == operator_text(op),
{
    let mut r = String::new();
    match op {
        RedirectOp::Input => {
            r.push('<');
        },
        RedirectOp::Output => {
            r.push('>');
        },
        RedirectOp::Append => {
            r.push('>');
            r.push('>');
        },
        RedirectOp::ErrorOutput => {
            r.push('2');
            r.push('>');
        },
        RedirectOp::ErrorAppend => {
            r.push('2');
            r.push('>');
            r.push('>');
        },
        RedirectOp::Both => {
            r.push('&');
            r.push('>');
        },
    }
    assert(r@ =~= operator_text(op));
    r
}

/// The text of a token, as a string.
fn token_string(t: &Token) -> (r: String)
    ensures
        r@ == token_text(t@),
{
    match t {
        Token::Word(w) => w.clone(),
        Token::Operator(op) => operator_string(*op),
    }
}

impl ParsedCommand {
    /// Parses a line with redirections.
    ///
    /// Each redirection operator outside quotes takes the token behind it
    /// as its file. The words that are left are the program and its
    /// arguments; a line without a word has an empty program.
    pub fn parse(input: &str) -> (r: ParsedCommand)
        ensures
            r@ == parsed_of(input@),
    {
        let tokens = tokenize_with_redirects(input);
        let ghost tv = tokens_view(tokens@);
        let n = tokens.len();
        let mut words: Vec<String> = Vec::new();
        let mut redirects: Vec<RedirectType> = Vec::new();
        let mut i: usize = 0;
        assert(words.deep_view() + parts_from(tv, 0).words =~= parts_from(tv, 0).words);
        assert(redirects_view(redirects@) + parts_from(tv, 0).redirects =~= parts_from(
            tv,
            0,
        ).redirects);
        while i < n
            invariant
                0 <= i <= n,
                n == tokens.len(),
                tv == tokens_view(tokens@),
                words.deep_view() + parts_from(tv, i as int).words == parts_from(tv, 0).words,
                redirects_view(redirects@) + parts_from(tv, i as int).redirects == parts_from(
                    tv,
                    0,
                ).redirects,
            decreases n - i,
        {
            let ghost w0 = words.deep_view();
            let ghost r0 = redirects_view(redirects@);
            assert(tv[i as int] == tokens@[i as int]@);
            match &tokens[i] {
                Token::Operator(op) => {
                    if i + 1 < n {
                        assert(tv[i + 1] == tokens@[i + 1]@);
                        let target = token_string(&tokens[i + 1]);
                        let redirect = match op {
                            RedirectOp::Input => RedirectType::StdinFrom(target),
                            RedirectOp::Output => RedirectType::StdoutTo(target),
                            RedirectOp::Append => RedirectType::StdoutAppend(target),
                            RedirectOp::ErrorOutput => RedirectType::StderrTo(target),
                            RedirectOp::ErrorAppend => RedirectType::StderrAppend(target),
                            RedirectOp::Both => RedirectType::BothTo(target),
                        };
                        redirects.push(redirect);
                        proof {
                            let rest = parts_from(tv, i + 2);
                            assert(redirects_view(redirects@) =~= r0.push(redirect@));
                            assert(r0.push(redirect@) + rest.redirects =~= r0 + (seq![redirect@]
                                + rest.redirects));
                        }
                        i += 2;
                    } else {
                        i += 1;
                    }
                },
                Token::Word(w) => {
                    words.push(w.clone());
                    proof {
                        let rest = parts_from(tv, i + 1);
                        assert(words.deep_view() =~= w0.push(w@));
                        assert(w0.push(w@) + rest.words =~= w0 + (seq![w@] + rest.words));
                    }
                    i += 1;
                },
            }
        }
        assert(words.deep_view() =~= parts_from(tv, 0).words);
        assert(redirects_view(redirects@) =~= parts_from(tv, 0).redirects);
        if words.len() > 0 {
            let ghost all = words.deep_view();
            let program = words.remove(0);
            assert(words.deep_view() =~= all.drop_first());
            ParsedCommand { program, args: words, redirects }
        } else {
            assert(words.deep_view() =~= Seq::<Seq<char>>::empty());
            ParsedCommand { program: String::new(), args: words, redirects }
        }
    }

    /// What to tell the user about a line whose last redirection operator
    /// names no file, or `None` where every operator has its file.
    pub fn diagnostic(input: &str) -> (r: Option<String>)
        ensures
            match r {
                Some(text) => missing_target_of(input@) == Some(text@),
                None => missing_target_of(input@) is None,
            },
    {
        let tokens = tokenize_with_redirects(input);
        let ghost tv = tokens_view(tokens@);
        let n = tokens.len();
        let mut i: usize = 0;
        while i < n
            invariant
                0 <= i <= n,
                n == tokens.len(),
                tv == tokens_view(tokens@),
                tv == tokens_of(input@),
                dangling_from(tv, i as int) == dangling_from(tv, 0),
            decreases n - i,
        {
            assert(tv[i as int] == tokens@[i as int]@);
            match &tokens[i] {
                Token::Operator(op) => {
                    if i + 1 < n {
                        i += 2;
                    } else {
                        let mut text = "Error: expected filename after '".to_owned();
                        let symbol = operator_string(*op);
                        text.append(symbol.as_str());
                        text.append("'");
                        return Some(text);
                    }
                },
                Token::Word(_) => {
                    i += 1;
                },
            }
        }
        None
    }
}

} // verus!
