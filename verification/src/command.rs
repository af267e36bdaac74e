//! Turning a line of text into a command: quoting, escapes and word
//! splitting.

use crate::chain::{
    chain_of, lemma_link_is_no_chain, links_view, split_chars, ChainLink, ChainLinkView,
};
use crate::text::{
    char_is_whitespace, find_char, first_index, is_blank, is_whitespace, lemma_first_index,
    lemma_trim_blank, parse_u32, parse_u32_spec, same_text, slice_chars, substring, to_chars,
    trim, trim_bounds,
};
use crate::subshell::{
    error_text, lemma_plain_line, Expander, ExpanderView, Step, StepView, SubshellError,
};
use vstd::prelude::*;
use vstd::string::StringExecFns;

verus! {

/// Where the argument scanner stands after some prefix of a line.
pub struct ArgScan {
    /// The arguments completed so far.
    pub args: Seq<Seq<char>>,
    /// The argument being collected.
    pub current: Seq<char>,
    /// Whether a quote is open.
    pub in_quotes: bool,
    /// The character that opened it (a space when none is open).
    pub quote_char: char,
    /// Whether the previous character was an escaping backslash.
    pub escape_next: bool,
}

/// What an escaped character stands for: the C-style letters are translated,
/// every other character stands for itself.
pub open spec fn unescape(c: char) -> char {
    if c == 'n' {
        '\n'
    } else if c == 't' {
        '\t'
    } else if c == 'r' {
        '\r'
    } else {
        c
    }
}

/// The scanner before any input.
pub open spec fn arg_start() -> ArgScan {
    ArgScan {
        args: Seq::empty(),
        current: Seq::empty(),
        in_quotes: false,
        quote_char: ' ',
        escape_next: false,
    }
}

/// The character of `s` at index `n`, if `s` has one there.
pub open spec fn char_at(s: Seq<char>, n: int) -> Option<char> {
    if 0 <= n < s.len() {
        Some(s[n])
    } else {
        None
    }
}

/// Whether a backslash escapes the character `next` behind it. Inside
/// single quotes it escapes the single quote and nothing else; inside
/// double quotes it escapes every character; outside quotes it escapes
/// whatever follows, and stands for itself at the end of the input.
pub open spec fn escapes(in_quotes: bool, quote_char: char, next: Option<char>) -> bool {
    if in_quotes && quote_char == '\'' {
        next == Some('\'')
    } else {
        in_quotes || next is Some
    }
}

/// One step of the scanner on character `c`; `next` is the character that
/// follows `c`, if one does.
pub open spec fn arg_step(st: ArgScan, c: char, next: Option<char>) -> ArgScan {
    if st.escape_next {
        ArgScan { current: st.current.push(unescape(c)), escape_next: false, ..st }
    } else if c == '\\' && escapes(st.in_quotes, st.quote_char, next) {
        ArgScan { escape_next: true, ..st }
    } else if (c == '"' || c == '\'') && !st.in_quotes {
        ArgScan { in_quotes: true, quote_char: c, ..st }
    } else if (c == '"' || c == '\'') && st.in_quotes && c == st.quote_char {
        ArgScan { in_quotes: false, quote_char: ' ', ..st }
    } else if is_whitespace(c) && !st.in_quotes {
        if st.current.len() > 0 {
            ArgScan { args: st.args.push(st.current), current: Seq::empty(), ..st }
        } else {
            st
        }
    } else {
        ArgScan { current: st.current.push(c), ..st }
    }
}

/// The scanner after the first `n` characters of `s`.
pub open spec fn arg_scan(s: Seq<char>, n: int) -> ArgScan
    decreases n,
{
    if n <= 0 {
        arg_start()
    } else {
        arg_step(arg_scan(s, n - 1), s[n - 1], char_at(s, n))
    }
}

/// The arguments of a scanner at the end of its input: a last argument that
/// is not empty is completed.
pub open spec fn arg_finish(st: ArgScan) -> Seq<Seq<char>> {
    if st.current.len() > 0 {
        st.args.push(st.current)
    } else {
        st.args
    }
}

/// The arguments of the line `s`.
pub open spec fn args_of(s: Seq<char>) -> Seq<Seq<char>> {
    arg_finish(arg_scan(s, s.len() as int))
}

/// Whether the line `s` ends inside an open quote.
pub open spec fn quote_left_open(s: Seq<char>) -> bool {
    arg_scan(s, s.len() as int).in_quotes
}

/// Text between double quotes is one argument, spaces and all: a text that
/// holds neither a double quote nor a backslash, put between double quotes,
/// is split into that text alone.
pub proof fn lemma_quoted_text_is_one_argument(text: Seq<char>)
    requires
        text.len() > 0,
        forall|i: int| 0 <= i < text.len() ==> #[trigger] text[i] != '"' && text[i] != '\\',
    ensures
        args_of(seq!['"'] + text + seq!['"']) == seq![text],
        !quote_left_open(seq!['"'] + text + seq!['"']),
{
    let s = seq!['"'] + text + seq!['"'];
    lemma_scan_inside_quotes(text, text.len() as int);
    let n = text.len() as int;
    assert(s[n + 1] == '"');
    let st = arg_scan(s, n + 2);
    assert(text.subrange(0, text.len() as int) =~= text);
    assert(st.current == text);
    assert(st.args =~= Seq::<Seq<char>>::empty());
    assert(args_of(s) =~= seq![text]);
}

/// Inside double quotes every character but the quote and the backslash is
/// taken as it is.
proof fn lemma_scan_inside_quotes(text: Seq<char>, k: int)
    requires
        0 <= k <= text.len(),
        forall|i: int| 0 <= i < text.len() ==> #[trigger] text[i] != '"' && text[i] != '\\',
    ensures
        arg_scan(seq!['"'] + text + seq!['"'], k + 1) == (ArgScan {
            args: Seq::empty(),
            current: text.subrange(0, k),
            in_quotes: true,
            quote_char: '"',
            escape_next: false,
        }),
    decreases k,
{
    let s = seq!['"'] + text + seq!['"'];
    if k == 0 {
        assert(s[0] == '"');
        assert(arg_scan(s, 0) == arg_start());
        assert(text.subrange(0, 0) =~= Seq::<char>::empty());
    } else {
        lemma_scan_inside_quotes(text, k - 1);
        assert(s[k] == text[k - 1]);
        assert(text.subrange(0, k) =~= text.subrange(0, k - 1).push(text[k - 1]));
    }
}

/// Text between single quotes is one argument and is taken as it is,
/// backslashes and all: a text that holds no single quote and does not end
/// in a backslash, put between single quotes, is split into that text
/// alone.
pub proof fn lemma_single_quoted_text_is_kept(text: Seq<char>)
    requires
        text.len() > 0,
        forall|i: int| 0 <= i < text.len() ==> #[trigger] text[i] != '\'',
        text.last() != '\\',
    ensures
        args_of(seq!['\''] + text + seq!['\'']) == seq![text],
        !quote_left_open(seq!['\''] + text + seq!['\'']),
{
    let s = seq!['\''] + text + seq!['\''];
    lemma_scan_inside_single_quotes(text, text.len() as int);
    let n = text.len() as int;
    assert(s[n + 1] == '\'');
    let st = arg_scan(s, n + 2);
    assert(text.subrange(0, text.len() as int) =~= text);
    assert(st.current == text);
    assert(st.args =~= Seq::<Seq<char>>::empty());
    assert(args_of(s) =~= seq![text]);
}

/// Inside single quotes every character but the quote is taken as it is.
proof fn lemma_scan_inside_single_quotes(text: Seq<char>, k: int)
    requires
        0 <= k <= text.len(),
        text.len() > 0,
        forall|i: int| 0 <= i < text.len() ==> #[trigger] text[i] != '\'',
        text.last() != '\\',
    ensures
        arg_scan(seq!['\''] + text + seq!['\''], k + 1) == (ArgScan {
            args: Seq::empty(),
            current: text.subrange(0, k),
            in_quotes: true,
            quote_char: '\'',
            escape_next: false,
        }),
    decreases k,
{
    let s = seq!['\''] + text + seq!['\''];
    if k == 0 {
        assert(s[0] == '\'');
        assert(arg_scan(s, 0) == arg_start());
        assert(text.subrange(0, 0) =~= Seq::<char>::empty());
    } else {
        lemma_scan_inside_single_quotes(text, k - 1);
        assert(s[k] == text[k - 1]);
        if k < text.len() {
            assert(s[k + 1] == text[k]);
        } else {
            assert(text[k - 1] == text.last());
        }
        assert(text.subrange(0, k) =~= text.subrange(0, k - 1).push(text[k - 1]));
    }
}

/// A blank line holds no argument.
pub proof fn lemma_blank_holds_no_argument(s: Seq<char>, n: int)
    requires
        0 <= n <= s.len(),
        is_blank(s),
    ensures
        arg_scan(s, n) == arg_start(),
        n == s.len() ==> args_of(s).len() == 0,
    decreases n,
{
    if n > 0 {
        lemma_blank_holds_no_argument(s, n - 1);
        assert(is_whitespace(s[n - 1]));
    }
}

/// Whether a backslash at index `at` of `chars` escapes the character
/// behind it.
pub fn escapes_at(in_quotes: bool, quote_char: char, chars: &Vec<char>, at: usize) -> (r: bool)
    requires
        at < chars.len(),
    ensures
        r == escapes(in_quotes, quote_char, char_at(chars@, at + 1)),
{
    if in_quotes && quote_char == '\'' {
        at + 1 < chars.len() && chars[at + 1] == '\''
    } else {
        in_quotes || at + 1 < chars.len()
    }
}

/// Splits `chars` into arguments and reports whether a quote was left open.
pub fn scan_args(chars: &Vec<char>) -> (r: (Vec<String>, bool))
    ensures
        r.0.deep_view() == args_of(chars@),
        r.1 == quote_left_open(chars@),
{
    let n = chars.len();
    let mut args: Vec<String> = Vec::new();
    let mut current = String::new();
    let mut in_quotes = false;
    let mut quote_char = ' ';
    let mut escape_next = false;
    let mut i: usize = 0;
    assert(args.deep_view() =~= Seq::<Seq<char>>::empty());
    while i < n
        invariant
            0 <= i <= n,
            n == chars.len(),
            arg_scan(chars@, i as int) == (ArgScan {
                args: args.deep_view(),
                current: current@,
                in_quotes,
                quote_char,
                escape_next,
            }),
        decreases n - i,
    {
        let c = chars[i];
        let ghost before = args.deep_view();
        if escape_next {
            let u = if c == 'n' {
                '\n'
            } else if c == 't' {
                '\t'
            } else if c == 'r' {
                '\r'
            } else {
                c
            };
            current.push(u);
            escape_next = false;
        } else if c == '\\' && escapes_at(in_quotes, quote_char, chars, i) {
            escape_next = true;
        } else if (c == '"' || c == '\'') && !in_quotes {
            in_quotes = true;
            quote_char = c;
        } else if (c == '"' || c == '\'') && in_quotes && c == quote_char {
            in_quotes = false;
            quote_char = ' ';
        } else if char_is_whitespace(c) && !in_quotes {
            if !current.as_str().is_empty() {
                let ghost done = current@;
                args.push(current);
                current = String::new();
                assert(args.deep_view() =~= before.push(done));
            }
        } else {
            current.push(c);
        }
        i += 1;
    }
    if !current.as_str().is_empty() {
        let ghost before = args.deep_view();
        let ghost done = current@;
        args.push(current);
        assert(args.deep_view() =~= before.push(done));
    }
    (args, in_quotes)
}

/// Whether the character at `at` stands outside quotes and is not escaped.
pub open spec fn is_bare(s: Seq<char>, at: int) -> bool {
    !arg_scan(s, at).in_quotes && !arg_scan(s, at).escape_next
}

/// Decides [`is_bare`].
pub fn bare_at(chars: &Vec<char>, at: usize) -> (r: bool)
    requires
        at <= chars.len(),
    ensures
        r == is_bare(chars@, at as int),
{
    let n = chars.len();
    let mut in_quotes = false;
    let mut quote_char = ' ';
    let mut escape_next = false;
    let mut i: usize = 0;
    while i < at
        invariant
            0 <= i <= at <= n,
            n == chars.len(),
            arg_scan(chars@, i as int).in_quotes == in_quotes,
            arg_scan(chars@, i as int).quote_char == quote_char,
            arg_scan(chars@, i as int).escape_next == escape_next,
        decreases at - i,
    {
        let c = chars[i];
        if escape_next {
            escape_next = false;
        } else if c == '\\' && escapes_at(in_quotes, quote_char, chars, i) {
            escape_next = true;
        } else if (c == '"' || c == '\'') && !in_quotes {
            in_quotes = true;
            quote_char = c;
        } else if (c == '"' || c == '\'') && in_quotes && c == quote_char {
            in_quotes = false;
            quote_char = ' ';
        }
        i += 1;
    }
    !in_quotes && !escape_next
}

/// A command of the shell: a built-in, or an external program.
#[derive(Debug)]
pub enum Command {
    Cd(Option<String>),
    Pwd,
    Echo(Vec<String>),
    /// Sets the environment variable `name` to `value`.
    Export { name: String, value: String },
    Exit,
    Help,
    Ls(Option<String>),
    Cat(String),
    Mkdir(String),
    Rm(String),
    Touch(String),
    Clear,
    History,
    Jobs,
    Fg(u32),
    Bg(u32),
    External { program: String, args: Vec<String>, background: bool },
    /// Commands joined by `&&`, `||` or `;`, each still as text.
    Chain(Vec<ChainLink>),
}

/// What a [`Command`] is, with its texts as character sequences.
pub enum CommandView {
    Cd(Option<Seq<char>>),
    Pwd,
    Echo(Seq<Seq<char>>),
    Export { name: Seq<char>, value: Seq<char> },
    Exit,
    Help,
    Ls(Option<Seq<char>>),
    Cat(Seq<char>),
    Mkdir(Seq<char>),
    Rm(Seq<char>),
    Touch(Seq<char>),
    Clear,
    History,
    Jobs,
    Fg(u32),
    Bg(u32),
    External { program: Seq<char>, args: Seq<Seq<char>>, background: bool },
    Chain(Seq<ChainLinkView>),
}

impl View for Command {
    type V = CommandView;

    open spec fn view(&self) -> CommandView {
        match *self {
            Command::Cd(path) => CommandView::Cd(
                match path {
                    Some(p) => Some(p@),
                    None => None,
                },
            ),
            Command::Pwd => CommandView::Pwd,
            Command::Echo(args) => CommandView::Echo(args.deep_view()),
            Command::Export { name, value } => CommandView::Export { name: name@, value: value@ },
            Command::Exit => CommandView::Exit,
            Command::Help => CommandView::Help,
            Command::Ls(path) => CommandView::Ls(
                match path {
                    Some(p) => Some(p@),
                    None => None,
                },
            ),
            Command::Cat(file) => CommandView::Cat(file@),
            Command::Mkdir(dir) => CommandView::Mkdir(dir@),
            Command::Rm(file) => CommandView::Rm(file@),
            Command::Touch(file) => CommandView::Touch(file@),
            Command::Clear => CommandView::Clear,
            Command::History => CommandView::History,
            Command::Jobs => CommandView::Jobs,
            Command::Fg(id) => CommandView::Fg(id),
            Command::Bg(id) => CommandView::Bg(id),
            Command::External { program, args, background } => CommandView::External {
                program: program@,
                args: args.deep_view(),
                background,
            },
            Command::Chain(links) => CommandView::Chain(links_view(links@)),
        }
    }
}

/// Whether the line `t` asks for background execution: it ends in an `&`
/// that is neither quoted nor escaped.
pub open spec fn runs_in_background(t: Seq<char>) -> bool {
    t.len() > 0 && t.last() == '&' && is_bare(t, t.len() - 1)
}

/// The words of a simple command: its name, its arguments and whether it
/// runs in the background.
pub struct Words {
    pub name: Seq<char>,
    pub args: Seq<Seq<char>>,
    pub background: bool,
}

/// The words of the trimmed line `t`, or `None` where the line holds no
/// command: it is empty, or nothing but an `&`, empty quotes or a lone
/// backslash.
pub open spec fn words_of(t: Seq<char>) -> Option<Words> {
    let background = runs_in_background(t);
    let body = if background {
        trim(t.drop_last())
    } else {
        t
    };
    let parts = args_of(body);
    if parts.len() == 0 || (parts.len() == 1 && (parts[0] == seq!['\\'] || parts[0].len() == 0)) {
        None
    } else {
        Some(Words { name: parts[0], args: parts.drop_first(), background })
    }
}

/// The first argument, if there is one.
pub open spec fn first_arg(args: Seq<Seq<char>>) -> Option<Seq<char>> {
    if args.len() > 0 {
        Some(args[0])
    } else {
        None
    }
}

/// The job that `fg` and `bg` name: the first argument read as a number,
/// and job 1 where it is missing or no number.
pub open spec fn job_id_of(args: Seq<Seq<char>>) -> u32 {
    if args.len() > 0 {
        match parse_u32_spec(args[0]) {
            Some(id) => id,
            None => 1,
        }
    } else {
        1
    }
}

/// Whether `arg` has the form `NAME=VALUE` with a name that is not empty.
pub open spec fn is_assignment(arg: Seq<char>) -> bool {
    0 < first_index(arg, '=') < arg.len()
}

/// The command that the words stand for, or `None` where a built-in lacks
/// its operand.
pub open spec fn dispatch(w: Words) -> Option<CommandView> {
    let name = w.name;
    let args = w.args;
    if name == "cd"@ {
        Some(CommandView::Cd(first_arg(args)))
    } else if name == "pwd"@ {
        Some(CommandView::Pwd)
    } else if name == "echo"@ {
        Some(CommandView::Echo(args))
    } else if name == "export"@ {
        if args.len() > 0 && is_assignment(args[0]) {
            let k = first_index(args[0], '=');
            Some(
                CommandView::Export {
                    name: args[0].subrange(0, k),
                    value: args[0].subrange(k + 1, args[0].len() as int),
                },
            )
        } else {
            None
        }
    } else if name == "exit"@ {
        Some(CommandView::Exit)
    } else if name == "help"@ {
        Some(CommandView::Help)
    } else if name == "ls"@ {
        Some(CommandView::Ls(first_arg(args)))
    } else if name == "cat"@ {
        if args.len() == 0 {
            None
        } else {
            Some(CommandView::Cat(args[0]))
        }
    } else if name == "mkdir"@ {
        if args.len() == 0 {
            None
        } else {
            Some(CommandView::Mkdir(args[0]))
        }
    } else if name == "rm"@ {
        if args.len() == 0 {
            None
        } else {
            Some(CommandView::Rm(args[0]))
        }
    } else if name == "touch"@ {
        if args.len() == 0 {
            None
        } else {
            Some(CommandView::Touch(args[0]))
        }
    } else if name == "clear"@ {
        Some(CommandView::Clear)
    } else if name == "history"@ {
        Some(CommandView::History)
    } else if name == "jobs"@ {
        Some(CommandView::Jobs)
    } else if name == "fg"@ {
        Some(CommandView::Fg(job_id_of(args)))
    } else if name == "bg"@ {
        Some(CommandView::Bg(job_id_of(args)))
    } else {
        Some(CommandView::External { program: name, args, background: w.background })
    }
}

/// The command that the text `s` stands for, parentheses taken as ordinary
/// characters. A text with a chain operator is a chain, whatever its parts
/// hold; any other text is a simple command.
pub open spec fn command_of_text(s: Seq<char>) -> Option<CommandView> {
    let t = trim(s);
    if chain_of(t).len() > 1 {
        Some(CommandView::Chain(chain_of(t)))
    } else {
        match words_of(t) {
            Some(w) => dispatch(w),
            None => None,
        }
    }
}

/// What is to be said of the text `s` when it gives no command though it
/// names one: the built-in lacks its operand.
pub open spec fn complaint_of_text(s: Seq<char>) -> Option<Seq<char>> {
    let t = trim(s);
    if chain_of(t).len() > 1 {
        None
    } else {
        match words_of(t) {
            Some(w) => if w.name == "cat"@ && w.args.len() == 0 {
                Some("cat: missing file operand"@)
            } else if w.name == "mkdir"@ && w.args.len() == 0 {
                Some("mkdir: missing operand"@)
            } else if w.name == "rm"@ && w.args.len() == 0 {
                Some("rm: missing operand"@)
            } else if w.name == "touch"@ && w.args.len() == 0 {
                Some("touch: missing file operand"@)
            } else if w.name == "export"@ && !(w.args.len() > 0 && is_assignment(w.args[0])) {
                Some("export: expected NAME=VALUE"@)
            } else {
                None
            },
            None => None,
        }
    }
}

/// The links of a chain are simple commands: parsing a link never gives a
/// chain again.
pub proof fn lemma_link_is_simple(s: Seq<char>, i: int)
    requires
        0 <= i < chain_of(s).len(),
    ensures
        !(command_of_text(chain_of(s)[i].text) matches Some(CommandView::Chain(_))),
{
    lemma_link_is_no_chain(s, i);
}

/// A text that draws a complaint gives no command.
pub proof fn lemma_complaint_means_no_command(s: Seq<char>)
    requires
        complaint_of_text(s) is Some,
    ensures
        command_of_text(s) is None,
{
    reveal_strlit("cd");
    reveal_strlit("pwd");
    reveal_strlit("echo");
    reveal_strlit("export");
    reveal_strlit("exit");
    reveal_strlit("help");
    reveal_strlit("ls");
    reveal_strlit("cat");
    reveal_strlit("mkdir");
    reveal_strlit("rm");
    reveal_strlit("touch");
    let w = words_of(trim(s))->0;
    if w.name == "cat"@ {
        assert(w.name[0] == 'c' && w.name[1] == 'a');
    } else if w.name == "mkdir"@ {
        assert(w.name[0] == 'm');
    } else if w.name == "rm"@ {
        assert(w.name[0] == 'r');
    } else if w.name == "touch"@ {
        assert(w.name[0] == 't');
    } else {
        assert(w.name == "export"@);
        assert(w.name.len() == 6);
    }
}

/// The first step of the expansion of the line `s`.
pub open spec fn expansion_of(s: Seq<char>) -> StepView {
    (ExpanderView { input: s, position: 0, output: Seq::empty() }).advance().step
}

/// What is to be said of a line whose parentheses are at fault.
pub open spec fn failure_text(e: SubshellError) -> Seq<char> {
    "Error: "@ + error_text(e)
}

/// The command that the line `s` stands for when no subshell runs: none
/// where a parenthesis is unmatched or a command in parentheses waits to be
/// run, else the command of the text that is left.
pub open spec fn command_of(s: Seq<char>) -> Option<CommandView> {
    match expansion_of(s) {
        StepView::Done(text) => command_of_text(text),
        StepView::Run(_) => None,
        StepView::Failed(_) => None,
    }
}

/// What is to be said of the line `s` when it gives no command: the fault
/// of its parentheses, or the complaint of a built-in.
pub open spec fn complaint_of(s: Seq<char>) -> Option<Seq<char>> {
    match expansion_of(s) {
        StepView::Done(text) => complaint_of_text(text),
        StepView::Run(_) => None,
        StepView::Failed(e) => Some(failure_text(e)),
    }
}

/// A blank line expands to itself and gives no command.
pub proof fn lemma_blank_line(s: Seq<char>)
    requires
        is_blank(s),
    ensures
        expansion_of(s) == StepView::Done(s),
        command_of(s) is None,
{
    let x = ExpanderView { input: s, position: 0, output: Seq::empty() };
    assert forall|i: int| 0 <= i < s.len() implies s[i] != '(' && s[i] != ')' by {
        assert(is_whitespace(s[i]));
    }
    lemma_plain_line(x);
    assert(Seq::<char>::empty() + s.subrange(0, s.len() as int) =~= s);
    lemma_trim_blank(s);
}

/// What is to be said of a line whose parentheses are at fault.
pub fn failure_message(e: SubshellError) -> (r: String)
    ensures
        r@ == failure_text(e),
{
    let mut r = "Error: ".to_owned();
    let what = e.message();
    r.append(what.as_str());
    r
}

/// The view of an optional command.
pub open spec fn view_of(c: Option<Command>) -> Option<CommandView> {
    match c {
        Some(c) => Some(c@),
        None => None,
    }
}

/// The trimmed characters of `input`.
fn trimmed_chars(input: &str) -> (t: Vec<char>)
    ensures
        t@ == trim(input@),
{
    let chars = to_chars(input);
    let (a, b) = trim_bounds(&chars, 0, chars.len());
    assert(chars@.subrange(0, chars.len() as int) =~= chars@);
    slice_chars(&chars, a, b)
}

/// The name and the arguments of a trimmed line, split as [`words_of`] says.
fn split_words(t: Vec<char>) -> (r: Option<(String, Vec<String>, bool)>)
    ensures
        match r {
            Some(w) => words_of(t@) == Some(
                Words { name: w.0@, args: w.1.deep_view(), background: w.2 },
            ),
            None => words_of(t@) is None,
        },
{
    let background = t.len() > 0 && t[t.len() - 1] == '&' && bare_at(&t, t.len() - 1);
    let body = if background {
        let (c, d) = trim_bounds(&t, 0, t.len() - 1);
        assert(t@.subrange(0, t.len() - 1) =~= t@.drop_last());
        slice_chars(&t, c, d)
    } else {
        t
    };
    let (mut parts, _) = scan_args(&body);
    if parts.len() == 0 {
        return None;
    }
    if parts.len() == 1 && (same_text(parts[0].as_str(), "\\") || parts[0].as_str().is_empty()) {
        proof {
            reveal_strlit("\\");
            assert("\\"@ =~= seq!['\\']);
        }
        return None;
    }
    proof {
        reveal_strlit("\\");
        assert("\\"@ =~= seq!['\\']);
    }
    let ghost all = parts.deep_view();
    let name = parts.remove(0);
    assert(parts.deep_view() =~= all.drop_first());
    Some((name, parts, background))
}

/// A copy of the first argument, if there is one.
fn first_of(args: &Vec<String>) -> (r: Option<String>)
    ensures
        match r {
            Some(p) => first_arg(args.deep_view()) == Some(p@),
            None => first_arg(args.deep_view()) is None,
        },
{
    if args.len() > 0 {
        Some(args[0].clone())
    } else {
        None
    }
}

/// The job number that the arguments name.
fn job_id(args: &Vec<String>) -> (id: u32)
    ensures
        id == job_id_of(args.deep_view()),
{
    if args.len() > 0 {
        match parse_u32(args[0].as_str()) {
            Some(id) => id,
            None => 1,
        }
    } else {
        1
    }
}

impl Command {
    /// Parses a line into a command.
    ///
    /// Subshells come first. A line with an unmatched parenthesis gives no
    /// command; groups without a command are dropped. A line that holds a
    /// command in parentheses cannot be parsed without running it, and
    /// gives no command here: a [`Parser`] takes such a line step by step.
    /// What is left is parsed as [`Command::parse_text`] says.
    pub fn parse(input: &str) -> (r: Option<Command>)
        ensures
            view_of(r) == command_of(input@),
            is_blank(input@) ==> r is None,
            expansion_of(input@) is Failed ==> r is None,
    {
        proof {
            if is_blank(input@) {
                lemma_blank_line(input@);
            }
        }
        let mut expander = Expander::new(input);
        match expander.next() {
            Step::Done(text) => Command::parse_text(text.as_str()),
            _ => None,
        }
    }

    /// What to tell the user about a line for which [`Command::parse`] gives
    /// no command: the fault of its parentheses, or the complaint of a
    /// built-in that lacks its operand; `None` where there is nothing to
    /// say.
    pub fn diagnostic(input: &str) -> (r: Option<String>)
        ensures
            match r {
                Some(text) => complaint_of(input@) == Some(text@),
                None => complaint_of(input@) is None,
            },
            r is Some ==> command_of(input@) is None,
    {
        let mut expander = Expander::new(input);
        match expander.next() {
            Step::Done(text) => Command::diagnose_text(text.as_str()),
            Step::Failed(e) => Some(failure_message(e)),
            Step::Run(_) => None,
        }
    }

    /// Parses a text in which parentheses are ordinary characters.
    ///
    /// The text is trimmed. Where it holds a chain operator outside quotes
    /// it becomes a chain of command texts. Else a trailing bare `&` asks
    /// for background execution and is taken off; the rest is split into
    /// words, of which the first selects a built-in or names an external
    /// program. A text that is blank, or whose built-in lacks its operand,
    /// gives `None`.
    pub fn parse_text(input: &str) -> (r: Option<Command>)
        ensures
            view_of(r) == command_of_text(input@),
            is_blank(input@) ==> r is None,
    {
        proof {
            if is_blank(input@) {
                lemma_trim_blank(input@);
            }
        }
        let t = trimmed_chars(input);
        let links = split_chars(&t);
        if links.len() > 1 {
            return Some(Command::Chain(links));
        }
        let (name, args, background) = match split_words(t) {
            Some(w) => w,
            None => {
                return None;
            },
        };
        let n = name.as_str();
        if same_text(n, "cd") {
            Some(Command::Cd(first_of(&args)))
        } else if same_text(n, "pwd") {
            Some(Command::Pwd)
        } else if same_text(n, "echo") {
            Some(Command::Echo(args))
        } else if same_text(n, "export") {
            if args.len() == 0 {
                return None;
            }
            let arg = to_chars(args[0].as_str());
            let k = find_char(&arg, '=');
            proof {
                lemma_first_index(arg@, '=');
            }
            if 0 < k && k < arg.len() {
                Some(
                    Command::Export {
                        name: substring(&arg, 0, k),
                        value: substring(&arg, k + 1, arg.len()),
                    },
                )
            } else {
                None
            }
        } else if same_text(n, "exit") {
            Some(Command::Exit)
        } else if same_text(n, "help") {
            Some(Command::Help)
        } else if same_text(n, "ls") {
            Some(Command::Ls(first_of(&args)))
        } else if same_text(n, "cat") {
            if args.len() == 0 {
                None
            } else {
                Some(Command::Cat(args[0].clone()))
            }
        } else if same_text(n, "mkdir") {
            if args.len() == 0 {
                None
            } else {
                Some(Command::Mkdir(args[0].clone()))
            }
        } else if same_text(n, "rm") {
            if args.len() == 0 {
                None
            } else {
                Some(Command::Rm(args[0].clone()))
            }
        } else if same_text(n, "touch") {
            if args.len() == 0 {
                None
            } else {
                Some(Command::Touch(args[0].clone()))
            }
        } else if same_text(n, "clear") {
            Some(Command::Clear)
        } else if same_text(n, "history") {
            Some(Command::History)
        } else if same_text(n, "jobs") {
            Some(Command::Jobs)
        } else if same_text(n, "fg") {
            Some(Command::Fg(job_id(&args)))
        } else if same_text(n, "bg") {
            Some(Command::Bg(job_id(&args)))
        } else {
            Some(Command::External { program: name, args, background })
        }
    }

    /// What to tell the user about a text for which
    /// [`Command::parse_text`] gives no command: the complaint of a
    /// built-in that lacks its operand, or `None` where there is nothing to
    /// say.
    pub fn diagnose_text(input: &str) -> (r: Option<String>)
        ensures
            match r {
                Some(text) => complaint_of_text(input@) == Some(text@),
                None => complaint_of_text(input@) is None,
            },
            r is Some ==> command_of_text(input@) is None,
    {
        proof {
            if complaint_of_text(input@) is Some {
                lemma_complaint_means_no_command(input@);
            }
        }
        let t = trimmed_chars(input);
        let links = split_chars(&t);
        if links.len() > 1 {
            return None;
        }
        let (name, args, _) = match split_words(t) {
            Some(w) => w,
            None => {
                return None;
            },
        };
        let n = name.as_str();
        if same_text(n, "cat") && args.len() == 0 {
            Some("cat: missing file operand".to_owned())
        } else if same_text(n, "mkdir") && args.len() == 0 {
            Some("mkdir: missing operand".to_owned())
        } else if same_text(n, "rm") && args.len() == 0 {
            Some("rm: missing operand".to_owned())
        } else if same_text(n, "touch") && args.len() == 0 {
            Some("touch: missing file operand".to_owned())
        } else if same_text(n, "export") {
            let ok = if args.len() > 0 {
                let arg = to_chars(args[0].as_str());
                let k = find_char(&arg, '=');
                0 < k && k < arg.len()
            } else {
                false
            };
            if ok {
                None
            } else {
                Some("export: expected NAME=VALUE".to_owned())
            }
        } else {
            None
        }
    }

    /// Splits `input` into arguments and reports whether a quote was left
    /// open.
    ///
    /// Words are separated by spaces outside quotes. Single and double
    /// quotes group; a backslash, inside quotes or with input after it,
    /// escapes the next character.
    pub fn parse_args_with_state(input: &str) -> (r: (Vec<String>, bool))
        ensures
            r.0.deep_view() == args_of(input@),
            r.1 == quote_left_open(input@),
    {
        let chars = to_chars(input);
        scan_args(&chars)
    }

    /// The arguments of `input`.
    pub fn parse_args(input: &str) -> (r: Vec<String>)
        ensures
            r.deep_view() == args_of(input@),
    {
        Command::parse_args_with_state(input).0
    }

    /// Whether `input` ends inside an open quote, so that the command goes
    /// on in the next line.
    pub fn needs_line_continuation(input: &str) -> (r: bool)
        ensures
            r == quote_left_open(input@),
    {
        let (_, in_quotes) = Command::parse_args_with_state(input);
        in_quotes
    }
}

/// What the caller of a [`Parser`] does next.
#[derive(Debug)]
pub enum ParseStep {
    /// Run the program, the first word, with the other words as its
    /// arguments, and hand back what it printed.
    Run(Vec<String>),
    /// The line is parsed: this is its command, if it has one, and what to
    /// tell the user, if there is something to say.
    Done { command: Option<Command>, complaint: Option<String> },
}

/// A [`ParseStep`] with its texts as character sequences.
pub enum ParseStepView {
    Run(Seq<Seq<char>>),
    Done { command: Option<CommandView>, complaint: Option<Seq<char>> },
}

impl View for ParseStep {
    type V = ParseStepView;

    open spec fn view(&self) -> ParseStepView {
        match *self {
            ParseStep::Run(words) => ParseStepView::Run(words.deep_view()),
            ParseStep::Done { command, complaint } => ParseStepView::Done {
                command: view_of(command),
                complaint: match complaint {
                    Some(text) => Some(text@),
                    None => None,
                },
            },
        }
    }
}

/// The step of a parser that follows from a step of the expansion: a
/// command to run is handed on; an expanded line is parsed; a line whose
/// parentheses are at fault has no command and is complained of.
pub open spec fn parse_step_of(step: StepView) -> ParseStepView {
    match step {
        StepView::Run(words) => ParseStepView::Run(words),
        StepView::Done(text) => ParseStepView::Done {
            command: command_of_text(text),
            complaint: complaint_of_text(text),
        },
        StepView::Failed(e) => ParseStepView::Done {
            command: None,
            complaint: Some(failure_text(e)),
        },
    }
}

/// Parses one line step by step: the subshells of the line are expanded,
/// each by what its command printed, and the expanded line is parsed.
pub struct Parser {
    expander: Expander,
}

impl View for Parser {
    type V = ExpanderView;

    closed spec fn view(&self) -> ExpanderView {
        self.expander@
    }
}

impl Parser {
    /// A parser at the start of the line `input`.
    pub fn new(input: &str) -> (r: Parser)
        ensures
            r@ == (ExpanderView { input: input@, position: 0, output: Seq::empty() }),
            r@.wf(),
    {
        Parser { expander: Expander::new(input) }
    }

    /// Reads on to the next command that has to run, or to the end of the
    /// line, where the line is parsed.
    pub fn next(&mut self) -> (step: ParseStep)
        requires
            old(self)@.wf(),
        ensures
            final(self)@ == old(self)@.advance().state,
            step@ == parse_step_of(old(self)@.advance().step),
            final(self)@.wf(),
    {
        match self.expander.next() {
            Step::Run(words) => ParseStep::Run(words),
            Step::Done(text) => ParseStep::Done {
                command: Command::parse_text(text.as_str()),
                complaint: Command::diagnose_text(text.as_str()),
            },
            Step::Failed(e) => ParseStep::Done { command: None, complaint: Some(failure_message(e)) },
        }
    }

    /// Takes in what the command of the last [`ParseStep::Run`] printed.
    pub fn supply(&mut self, printed: &str)
        ensures
            final(self)@ == old(self)@.supply(printed@),
            final(self)@.wf() == old(self)@.wf(),
    {
        self.expander.supply(printed);
    }
}

/// A line whose parentheses are at fault has no command, whichever way it
/// is parsed, and what it gives in one piece is what its first step gives.
pub proof fn lemma_parse_agrees(s: Seq<char>)
    ensures
        expansion_of(s) is Failed ==> command_of(s) is None && complaint_of(s) is Some,
        !(expansion_of(s) is Run) ==> parse_step_of(expansion_of(s)) == (ParseStepView::Done {
            command: command_of(s),
            complaint: complaint_of(s),
        }),
{
}

} // verus!
