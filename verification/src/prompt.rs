//! The text of the prompt: `user@host:path sign `, in colour.

use crate::editor::completion::{is_prefix, starts_with};
use crate::editor::line_editor::{visual_length_of, visual_scan, VisualScan};
use crate::text::{same_text, substring, to_chars};
use colored::Colorize;
use vstd::prelude::*;
use vstd::string::StringExecFns;

verus! {

/// The digits that select green text in a colour escape sequence.
pub open spec fn green() -> Seq<char> {
    seq!['3', '2']
}

/// The digits that select blue text in a colour escape sequence.
pub open spec fn blue() -> Seq<char> {
    seq!['3', '4']
}

/// The digits that select white text in a colour escape sequence.
pub open spec fn white() -> Seq<char> {
    seq!['3', '7']
}

/// `text` between the escape sequence that selects `colour` and the one
/// that resets all attributes.
pub open spec fn coloured(text: Seq<char>, colour: Seq<char>) -> Seq<char> {
    seq!['\x1b', '['] + colour + seq!['m'] + text + seq!['\x1b', '[', '0', 'm']
}

/// Whether `s` holds no escape character.
pub open spec fn escape_free(s: Seq<char>) -> bool {
    forall|i: int| 0 <= i < s.len() ==> #[trigger] s[i] != '\x1b'
}

/// What is known of `out`, the text `text` painted in `colour`. The
/// environment decides whether colours are used: a text without an escape
/// character comes out as it is, or between the two escape sequences.
/// Nothing is said of a text that holds an escape character.
pub open spec fn is_painted(out: Seq<char>, text: Seq<char>, colour: Seq<char>) -> bool {
    escape_free(text) ==> (out == text || out == coloured(text, colour))
}

/// `colored::Colorize::green`, formatted with `Display`: the text in green
/// where the environment allows colours, else the text itself.
#[verifier::external_body]
fn paint_green(text: &str) -> (out: String)
    ensures
        is_painted(out@, text@, green()),
{
    text.green().to_string()
}

/// `colored::Colorize::blue`, formatted with `Display`: the text in blue
/// where the environment allows colours, else the text itself.
#[verifier::external_body]
fn paint_blue(text: &str) -> (out: String)
    ensures
        is_painted(out@, text@, blue()),
{
    text.blue().to_string()
}

/// `colored::Colorize::white`, formatted with `Display`: the text in white
/// where the environment allows colours, else the text itself.
#[verifier::external_body]
fn paint_white(text: &str) -> (out: String)
    ensures
        is_painted(out@, text@, white()),
{
    text.white().to_string()
}

/// Whether `s` holds no ASCII capital letter.
pub open spec fn has_no_ascii_capital(s: Seq<char>) -> bool {
    forall|i: int| 0 <= i < s.len() ==> !('A' <= #[trigger] s[i] && s[i] <= 'Z')
}

/// `whoami::hostname`: the name of this machine, which the crate brings to
/// lower case as far as ASCII letters go. Nothing else is known of it.
#[verifier::external_body]
#[allow(deprecated)]
fn machine_hostname() -> (name: String)
    ensures
        has_no_ascii_capital(name@),
{
    whoami::hostname()
}

/// What the prompt shows of the session, as the environment gives it.
#[derive(Debug)]
pub struct Context {
    /// The working directory; `None` where it cannot be had.
    pub cwd: Option<String>,
    /// The variable `HOME`.
    pub home: Option<String>,
    /// The variable `USER`.
    pub user: Option<String>,
    /// The variable `USERNAME`.
    pub username: Option<String>,
    /// The variable `HOSTNAME`.
    pub hostname: Option<String>,
}

/// The text of an optional string.
pub open spec fn optional_text(s: Option<String>) -> Option<Seq<char>> {
    match s {
        Some(s) => Some(s@),
        None => None,
    }
}

/// The working directory as the prompt shows it: `?` where it is unknown,
/// and with `~` in place of the home directory at its beginning.
pub open spec fn shown_path(cwd: Option<Seq<char>>, home: Option<Seq<char>>) -> Seq<char> {
    match cwd {
        None => seq!['?'],
        Some(path) => match home {
            Some(h) => if is_prefix(h, path) {
                seq!['~'] + path.subrange(h.len() as int, path.len() as int)
            } else {
                path
            },
            None => path,
        },
    }
}

/// The name of the user: `USER`, else `USERNAME`, else `unknown`.
pub open spec fn shown_user(user: Option<Seq<char>>, username: Option<Seq<char>>) -> Seq<char> {
    match user {
        Some(name) => name,
        None => match username {
            Some(name) => name,
            None => "unknown"@,
        },
    }
}

/// The sign at the end of the prompt: `#` for root, `$` for anyone else.
pub open spec fn shown_sign(user: Seq<char>) -> Seq<char> {
    if user == "root"@ {
        seq!['#']
    } else {
        seq!['$']
    }
}

/// The prompt made of its four parts: `user@host:path sign `.
pub open spec fn layout(user: Seq<char>, host: Seq<char>, path: Seq<char>, sign: Seq<char>) -> Seq<
    char,
> {
    user + seq!['@'] + host + seq![':'] + path + seq![' '] + sign + seq![' ']
}

/// Whether `out` is a prompt for `user` on `host` in `path`: the layout of
/// the four parts, user and host painted green, the path blue and the sign
/// white.
pub open spec fn is_prompt(out: Seq<char>, user: Seq<char>, host: Seq<char>, path: Seq<char>) -> bool {
    exists|u: Seq<char>, h: Seq<char>, p: Seq<char>, s: Seq<char>|
        is_painted(u, user, green()) && is_painted(h, host, green()) && is_painted(p, path, blue())
            && is_painted(s, shown_sign(user), white()) && out == #[trigger] layout(u, h, p, s)
}

/// The prompt of the shell.
pub struct Prompt;

impl Prompt {
    pub fn new() -> Prompt {
        Prompt
    }

    /// The prompt for `user` on `host` in `path`.
    pub fn render(user: &str, host: &str, path: &str) -> (out: String)
        ensures
            is_prompt(out@, user@, host@, path@),
    {
        let sign = if same_text(user, "root") {
            "#"
        } else {
            "$"
        };
        proof {
            reveal_strlit("#");
            reveal_strlit("$");
            assert("#"@ =~= seq!['#']);
            assert("$"@ =~= seq!['$']);
        }
        let u = paint_green(user);
        let h = paint_green(host);
        let p = paint_blue(path);
        let s = paint_white(sign);
        let mut out = String::new();
        out.append(u.as_str());
        out.push('@');
        out.append(h.as_str());
        out.push(':');
        out.append(p.as_str());
        out.push(' ');
        out.append(s.as_str());
        out.push(' ');
        assert(out@ =~= layout(u@, h@, p@, s@));
        out
    }

    /// The prompt of the session that `context` describes. Where the
    /// context names no host the machine is asked for its name, which
    /// holds no ASCII capital letter.
    pub fn get_string(&self, context: &Context) -> (out: String)
        ensures
            exists|host: Seq<char>|
                (context.hostname is Some ==> host == context.hostname->0@) && (
                context.hostname is None ==> has_no_ascii_capital(host)) && #[trigger] is_prompt(
                    out@,
                    shown_user(optional_text(context.user), optional_text(context.username)),
                    host,
                    shown_path(optional_text(context.cwd), optional_text(context.home)),
                ),
    {
        let path: String = match &context.cwd {
            None => {
                let mut q = String::new();
                q.push('?');
                assert(q@ =~= seq!['?']);
                q
            },
            Some(cwd) => {
                let abbreviated: Option<String> = match &context.home {
                    Some(home) => {
                        let p = to_chars(cwd.as_str());
                        let h = to_chars(home.as_str());
                        if starts_with(&p, &h) {
                            let mut short = String::new();
                            short.push('~');
                            let rest = substring(&p, h.len(), p.len());
                            short.append(rest.as_str());
                            assert(short@ =~= seq!['~'] + p@.subrange(
                                h.len() as int,
                                p.len() as int,
                            ));
                            Some(short)
                        } else {
                            None
                        }
                    },
                    None => None,
                };
                match abbreviated {
                    Some(short) => short,
                    None => cwd.clone(),
                }
            },
        };
        let user: String = match &context.user {
            Some(name) => name.clone(),
            None => match &context.username {
                Some(name) => name.clone(),
                None => "unknown".to_owned(),
            },
        };
        let host: String = match &context.hostname {
            Some(name) => name.clone(),
            None => machine_hostname(),
        };
        assert(user@ == shown_user(optional_text(context.user), optional_text(context.username)));
        assert(path@ == shown_path(optional_text(context.cwd), optional_text(context.home)));
        assert(context.hostname is Some ==> host@ == context.hostname->0@);
        assert(context.hostname is None ==> has_no_ascii_capital(host@));
        let out = Prompt::render(user.as_str(), host.as_str(), path.as_str());
        assert(is_prompt(out@, user@, host@, path@));
        out
    }
}

/// The scan of a prefix looks at the prefix only.
pub proof fn lemma_visual_scan_of_prefix(s: Seq<char>, t: Seq<char>, n: int)
    requires
        0 <= n <= s.len(),
        n <= t.len(),
        forall|i: int| 0 <= i < n ==> s[i] == t[i],
    ensures
        visual_scan(s, n) == visual_scan(t, n),
    decreases n,
{
    if n > 0 {
        lemma_visual_scan_of_prefix(s, t, n - 1);
    }
}

/// Behind a text that ends outside an escape sequence, a second text is
/// scanned as if it stood alone.
pub proof fn lemma_visual_scan_of_sum(a: Seq<char>, b: Seq<char>, k: int)
    requires
        0 <= k <= b.len(),
        !visual_scan(a, a.len() as int).in_escape,
    ensures
        visual_scan(a + b, a.len() + k) == (VisualScan {
            length: visual_scan(a, a.len() as int).length + visual_scan(b, k).length,
            in_escape: visual_scan(b, k).in_escape,
        }),
    decreases k,
{
    if k == 0 {
        lemma_visual_scan_of_prefix(a + b, a, a.len() as int);
    } else {
        lemma_visual_scan_of_sum(a, b, k - 1);
        assert((a + b)[a.len() + k - 1] == b[k - 1]);
    }
}

/// A text without an escape character takes one column for each character.
pub proof fn lemma_visual_scan_plain(s: Seq<char>, n: int)
    requires
        0 <= n <= s.len(),
        escape_free(s),
    ensures
        visual_scan(s, n) == (VisualScan { length: n as nat, in_escape: false }),
    decreases n,
{
    if n > 0 {
        lemma_visual_scan_plain(s, n - 1);
    }
}

/// An escape sequence takes no column: an escape character, then
/// characters that are neither that nor `m`, then `m`.
pub proof fn lemma_visual_scan_escape(body: Seq<char>, n: int)
    requires
        0 <= n <= body.len(),
        forall|i: int| 0 <= i < body.len() ==> #[trigger] body[i] != '\x1b' && body[i] != 'm',
    ensures
        visual_scan(seq!['\x1b'] + body + seq!['m'], n + 1) == (VisualScan {
            length: 0,
            in_escape: true,
        }),
        visual_scan(seq!['\x1b'] + body + seq!['m'], body.len() as int + 2) == (VisualScan {
            length: 0,
            in_escape: false,
        }),
    decreases body.len() - n,
{
    let s = seq!['\x1b'] + body + seq!['m'];
    lemma_visual_scan_escape_inside(body, n);
    lemma_visual_scan_escape_inside(body, body.len() as int);
    assert(s[body.len() as int + 1] == 'm');
}

/// Inside an escape sequence the scan stays inside.
proof fn lemma_visual_scan_escape_inside(body: Seq<char>, n: int)
    requires
        0 <= n <= body.len(),
        forall|i: int| 0 <= i < body.len() ==> #[trigger] body[i] != '\x1b' && body[i] != 'm',
    ensures
        visual_scan(seq!['\x1b'] + body + seq!['m'], n + 1) == (VisualScan {
            length: 0,
            in_escape: true,
        }),
    decreases n,
{
    let s = seq!['\x1b'] + body + seq!['m'];
    if n == 0 {
        assert(s[0] == '\x1b');
        assert(visual_scan(s, 0) == (VisualScan { length: 0, in_escape: false }));
    } else {
        lemma_visual_scan_escape_inside(body, n - 1);
        assert(s[n] == body[n - 1]);
    }
}

/// A painted text takes as many columns as the text itself and ends
/// outside an escape sequence, whether colours are in use or not.
pub proof fn lemma_painted_width(out: Seq<char>, text: Seq<char>, colour: Seq<char>)
    requires
        is_painted(out, text, colour),
        escape_free(text),
        colour == green() || colour == blue() || colour == white(),
    ensures
        visual_scan(out, out.len() as int) == (VisualScan { length: text.len(), in_escape: false }),
{
    lemma_visual_scan_plain(text, text.len() as int);
    if out != text {
        let start = seq!['\x1b'] + (seq!['['] + colour) + seq!['m'];
        let reset = seq!['\x1b'] + seq!['[', '0'] + seq!['m'];
        lemma_visual_scan_escape(seq!['['] + colour, 0);
        lemma_visual_scan_escape(seq!['[', '0'], 0);
        assert(start.len() == 5);
        assert(reset.len() == 4);
        lemma_visual_scan_of_sum(start, text, text.len() as int);
        lemma_visual_scan_of_sum(start + text, reset, reset.len() as int);
        assert(out =~= start + text + reset);
    }
}

/// The prompt takes as many columns as its visible characters: the colour
/// escape sequences take none.
pub proof fn lemma_prompt_width(out: Seq<char>, user: Seq<char>, host: Seq<char>, path: Seq<char>)
    requires
        is_prompt(out, user, host, path),
        escape_free(user),
        escape_free(host),
        escape_free(path),
    ensures
        visual_length_of(out) == user.len() + host.len() + path.len() + 5,
{
    let (u, h, p, s) = choose|u: Seq<char>, h: Seq<char>, p: Seq<char>, s: Seq<char>|
        is_painted(u, user, green()) && is_painted(h, host, green()) && is_painted(p, path, blue())
            && is_painted(s, shown_sign(user), white()) && out == #[trigger] layout(u, h, p, s);
    let sign = shown_sign(user);
    lemma_painted_width(u, user, green());
    lemma_painted_width(h, host, green());
    lemma_painted_width(p, path, blue());
    lemma_painted_width(s, sign, white());
    let at = seq!['@'];
    let colon = seq![':'];
    let space = seq![' '];
    lemma_visual_scan_plain(at, 1);
    lemma_visual_scan_plain(colon, 1);
    lemma_visual_scan_plain(space, 1);
    lemma_visual_scan_of_sum(u, at, 1);
    lemma_visual_scan_of_sum(u + at, h, h.len() as int);
    lemma_visual_scan_of_sum(u + at + h, colon, 1);
    lemma_visual_scan_of_sum(u + at + h + colon, p, p.len() as int);
    lemma_visual_scan_of_sum(u + at + h + colon + p, space, 1);
    lemma_visual_scan_of_sum(u + at + h + colon + p + space, s, s.len() as int);
    lemma_visual_scan_of_sum(u + at + h + colon + p + space + s, space, 1);
}

} // verus!
