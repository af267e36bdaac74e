//! The decisions of the interactive loop: when a line is complete, and what
//! kind of work a complete line asks for.

use crate::chain::{chain_of, links_view, split_chars, ChainLink, ChainLinkView};
use crate::command::{bare_at, quote_left_open, runs_in_background, scan_args};
use crate::pipes::{
    parse_pipeline, pipeline_of, plan_of, plan_pipeline, stage_texts, stages_view, Stage,
    StageView,
};
use crate::redirects::{
    missing_target_of, parsed_of, tokenize_with_redirects, tokens_of, tokens_view, ParsedCommand,
    ParsedCommandView, Token,
};
use crate::text::{
    contains, contains_text, from_chars, is_blank, is_whitespace, lemma_trim_blank, slice_chars,
    to_chars, trim, trim_bounds, trim_end, trim_end_index,
};
use vstd::prelude::*;
use vstd::string::StringExecFns;

verus! {

/// The number of backslashes at the end of `s`.
pub open spec fn trailing_backslashes(s: Seq<char>) -> nat
    decreases s.len(),
{
    if s.len() > 0 && s.last() == '\\' {
        1 + trailing_backslashes(s.drop_last())
    } else {
        0
    }
}

/// Whether the line `s` goes on in the next line: behind its last
/// character that is no whitespace stands a backslash that is not escaped,
/// so that the line ends in an odd number of them.
pub open spec fn ends_in_continuation(s: Seq<char>) -> bool {
    trailing_backslashes(trim_end(s)) % 2 == 1
}

/// The line `s` without its trailing whitespace and the backslash before
/// it.
pub open spec fn without_continuation(s: Seq<char>) -> Seq<char> {
    trim_end(s).drop_last()
}

/// What the lines read before the current one ask of it.
#[derive(Debug, Clone, Copy, PartialEq, Eq, Structural)]
pub enum Pending {
    /// No line was read yet.
    Start,
    /// The line before ended in a backslash.
    AfterBackslash,
    /// The lines before left a quote open.
    AfterOpenQuote,
}

/// What a [`LineReader`] holds: the text put together so far and what the
/// lines before ask for.
pub struct ReaderView {
    pub text: Seq<char>,
    pub pending: Pending,
}

impl ReaderView {
    /// The separator that goes in front of the next line: a space behind a
    /// line that ended in a backslash, a line break inside an open quote.
    pub open spec fn separator(self) -> Seq<char> {
        match self.pending {
            Pending::Start => Seq::empty(),
            Pending::AfterBackslash => seq![' '],
            Pending::AfterOpenQuote => seq!['\n'],
        }
    }

    /// The text with the next line `line` joined to it.
    pub open spec fn joined_with(self, line: Seq<char>) -> Seq<char> {
        if ends_in_continuation(line) {
            self.text + self.separator() + without_continuation(line)
        } else {
            self.text + self.separator() + line
        }
    }

    /// Whether the command is complete once `line` is joined: `line` does
    /// not go on, and no quote is left open.
    pub open spec fn completes(self, line: Seq<char>) -> bool {
        !ends_in_continuation(line) && !quote_left_open(self.joined_with(line))
    }

    /// The reader after the line `line`.
    pub open spec fn push(self, line: Seq<char>) -> ReaderView {
        ReaderView {
            text: self.joined_with(line),
            pending: if ends_in_continuation(line) {
                Pending::AfterBackslash
            } else if quote_left_open(self.joined_with(line)) {
                Pending::AfterOpenQuote
            } else {
                self.pending
            },
        }
    }
}

/// Puts a command together from the lines that the user enters.
pub struct LineReader {
    text: String,
    pending: Pending,
}

impl View for LineReader {
    type V = ReaderView;

    closed spec fn view(&self) -> ReaderView {
        ReaderView { text: self.text@, pending: self.pending }
    }
}

impl LineReader {
    /// A reader that has read nothing.
    pub fn new() -> (r: LineReader)
        ensures
            r@ == (ReaderView { text: Seq::empty(), pending: Pending::Start }),
    {
        LineReader { text: String::new(), pending: Pending::Start }
    }

    /// Whether a line was read already, so that the next one is asked for
    /// with the continuation prompt.
    pub fn is_continuing(&self) -> (r: bool)
        ensures
            r == (self@.pending != Pending::Start),
    {
        match self.pending {
            Pending::Start => false,
            _ => true,
        }
    }

    /// Takes the next line. The result is the complete command, or `None`
    /// where another line is needed.
    pub fn push_line(&mut self, line: &str) -> (r: Option<String>)
        ensures
            final(self)@ == old(self)@.push(line@),
            match r {
                Some(text) => old(self)@.completes(line@) && text@ == final(self)@.text,
                None => !old(self)@.completes(line@),
            },
    {
        match self.pending {
            Pending::Start => {
                assert(self.text@ + Seq::<char>::empty() =~= self.text@);
            },
            Pending::AfterBackslash => {
                self.text.push(' ');
                assert(self.text@ =~= old(self).text@ + seq![' ']);
            },
            Pending::AfterOpenQuote => {
                self.text.push('\n');
                assert(self.text@ =~= old(self).text@ + seq!['\n']);
            },
        }
        let v = to_chars(line);
        let end = trim_end_index(&v, 0, v.len());
        assert(v@.subrange(0, v.len() as int) =~= v@);
        let ghost t = trim_end(line@);
        assert(t == v@.subrange(0, end as int));
        // the backslashes at the end
        let mut k: usize = end;
        while k > 0 && v[k - 1] == '\\'
            invariant
                0 <= k <= end <= v.len(),
                t == v@.subrange(0, end as int),
                trailing_backslashes(t) == (end - k) + trailing_backslashes(
                    v@.subrange(0, k as int),
                ),
            decreases k,
        {
            assert(v@.subrange(0, k as int).drop_last() =~= v@.subrange(0, k - 1));
            k -= 1;
        }
        if (end - k) % 2 == 1 {
            let kept = slice_chars(&v, 0, end - 1);
            assert(kept@ =~= t.drop_last());
            let kept = from_chars(&kept);
            self.text.append(kept.as_str());
            self.pending = Pending::AfterBackslash;
            None
        } else {
            self.text.append(line);
            let chars = to_chars(self.text.as_str());
            let (_, open) = scan_args(&chars);
            if open {
                self.pending = Pending::AfterOpenQuote;
                None
            } else {
                Some(self.text.clone())
            }
        }
    }
}

/// A line that ends in exactly one backslash goes on in the next line, and
/// the two are joined by one space, without the backslash. A line that
/// ends in two backslashes does not go on for that reason.
pub proof fn lemma_continuation(r: ReaderView, line: Seq<char>, next: Seq<char>)
    requires
        line.len() == 0 || line.last() != '\\',
    ensures
        ends_in_continuation(line.push('\\')),
        !ends_in_continuation(line.push('\\').push('\\')),
        !r.completes(line.push('\\')),
        !ends_in_continuation(next) ==> r.push(line.push('\\')).push(next).text == r.text
            + r.separator() + line + seq![' '] + next,
{
    let one = line.push('\\');
    let two = one.push('\\');
    assert(one.drop_last() =~= line);
    assert(two.drop_last() =~= one);
    assert(trailing_backslashes(line) == 0);
    assert(trailing_backslashes(one) == 1);
    assert(trailing_backslashes(two) == 2);
    assert(!is_whitespace('\\'));
    assert(trim_end(one) == one);
    assert(trim_end(two) == two);
    let after = r.push(one);
    assert(after.text == r.text + r.separator() + line);
    if !ends_in_continuation(next) {
        assert(after.push(next).text == after.text + seq![' '] + next);
    }
}

/// The work that a line asks for.
#[derive(Debug)]
pub enum Plan {
    /// The line is blank.
    Nothing,
    /// Commands joined by chain operators; each link is a line of its own.
    Chain(Vec<ChainLink>),
    /// A command that reads a here-document; the text is the line.
    Heredoc(String),
    /// One external command with redirections.
    Redirect(ParsedCommand),
    /// A line that cannot be carried out; the text says why.
    Malformed(String),
    /// A pipeline of external commands.
    Pipeline { stages: Vec<Stage>, background: bool },
    /// A simple command; the text is the line, yet to be expanded and
    /// parsed.
    Simple(String),
}

/// A [`Plan`] with its texts as character sequences.
pub enum PlanView {
    Nothing,
    Chain(Seq<ChainLinkView>),
    Heredoc(Seq<char>),
    Redirect(ParsedCommandView),
    Malformed(Seq<char>),
    Pipeline { stages: Seq<StageView>, background: bool },
    Simple(Seq<char>),
}

impl View for Plan {
    type V = PlanView;

    open spec fn view(&self) -> PlanView {
        match *self {
            Plan::Nothing => PlanView::Nothing,
            Plan::Chain(links) => PlanView::Chain(links_view(links@)),
            Plan::Heredoc(text) => PlanView::Heredoc(text@),
            Plan::Redirect(command) => PlanView::Redirect(command@),
            Plan::Malformed(why) => PlanView::Malformed(why@),
            Plan::Pipeline { stages, background } => PlanView::Pipeline {
                stages: stages_view(stages@),
                background,
            },
            Plan::Simple(text) => PlanView::Simple(text@),
        }
    }
}

/// A line with the work it asks for and the text that goes into the
/// history.
#[derive(Debug)]
pub struct LinePlan {
    /// The line as the history keeps it; `None` for a blank line.
    pub entry: Option<String>,
    pub plan: Plan,
}

/// A [`LinePlan`] with its texts as character sequences.
pub struct LinePlanView {
    pub entry: Option<Seq<char>>,
    pub plan: PlanView,
}

impl View for LinePlan {
    type V = LinePlanView;

    open spec fn view(&self) -> LinePlanView {
        LinePlanView {
            entry: match self.entry {
                Some(text) => Some(text@),
                None => None,
            },
            plan: self.plan@,
        }
    }
}

/// The line `t`, trimmed already, without the `&` that sends it to the
/// background.
pub open spec fn foreground_text(t: Seq<char>) -> Seq<char> {
    if runs_in_background(t) {
        trim(t.drop_last())
    } else {
        t
    }
}

/// Whether the line `s` holds a redirection operator outside quotes.
pub open spec fn has_redirection(s: Seq<char>) -> bool {
    exists|i: int| 0 <= i < tokens_of(s).len() && #[trigger] tokens_of(s)[i] is Operator
}

/// Whether the line `s` holds a `|` outside quotes, so that it has more
/// than one stage.
pub open spec fn has_pipe(s: Seq<char>) -> bool {
    stage_texts(s).len() > 1
}

/// The plan of the line `s`.
///
/// A blank line asks for nothing. Of any other line the history keeps the
/// trimmed text without a trailing `&`. A line with a chain operator
/// outside quotes is a chain, whatever else it holds. Else a `<<` makes it
/// a here-document; a redirection operator outside quotes, without any `|`
/// outside quotes, a command with redirections, which is malformed where
/// its last operator names no file; a `|` outside quotes a pipeline; and
/// any other line is a simple command.
pub open spec fn plan_of_line(s: Seq<char>) -> LinePlanView {
    let t = trim(s);
    let body = foreground_text(t);
    if t.len() == 0 {
        LinePlanView { entry: None, plan: PlanView::Nothing }
    } else {
        LinePlanView {
            entry: Some(body),
            plan: if chain_of(t).len() > 1 {
                PlanView::Chain(chain_of(t))
            } else if contains_text(body, seq!['<', '<']) {
                PlanView::Heredoc(body)
            } else if has_redirection(body) && !has_pipe(body) {
                match missing_target_of(body) {
                    Some(why) => PlanView::Malformed(why),
                    None => PlanView::Redirect(parsed_of(body)),
                }
            } else if has_pipe(body) {
                PlanView::Pipeline {
                    stages: plan_of(pipeline_of(body)),
                    background: runs_in_background(t),
                }
            } else {
                PlanView::Simple(t)
            },
        }
    }
}

/// Decides [`has_redirection`].
fn holds_redirection(line: &str) -> (r: bool)
    ensures
        r == has_redirection(line@),
{
    let tokens = tokenize_with_redirects(line);
    let mut i: usize = 0;
    while i < tokens.len()
        invariant
            0 <= i <= tokens.len(),
            tokens_view(tokens@) == tokens_of(line@),
            forall|k: int| 0 <= k < i ==> !(#[trigger] tokens_of(line@)[k] is Operator),
        decreases tokens.len() - i,
    {
        assert(tokens_of(line@)[i as int] == tokens@[i as int]@);
        match &tokens[i] {
            Token::Operator(_) => {
                return true;
            },
            Token::Word(_) => {},
        }
        i += 1;
    }
    assert(tokens_of(line@).len() == tokens.len());
    false
}

/// Lays out the work that the line `input` asks for.
pub fn plan_line(input: &str) -> (r: LinePlan)
    ensures
        r@ == plan_of_line(input@),
        is_blank(input@) ==> r.plan@ == PlanView::Nothing && r.entry is None,
{
    proof {
        if is_blank(input@) {
            lemma_trim_blank(input@);
        }
    }
    let chars = to_chars(input);
    let (a, b) = trim_bounds(&chars, 0, chars.len());
    assert(chars@.subrange(0, chars.len() as int) =~= chars@);
    let t = slice_chars(&chars, a, b);
    if t.len() == 0 {
        return LinePlan { entry: None, plan: Plan::Nothing };
    }
    let background = t[t.len() - 1] == '&' && bare_at(&t, t.len() - 1);
    let body = if background {
        let (c, d) = trim_bounds(&t, 0, t.len() - 1);
        assert(t@.subrange(0, t.len() - 1) =~= t@.drop_last());
        slice_chars(&t, c, d)
    } else {
        slice_chars(&t, 0, t.len())
    };
    assert(t@.subrange(0, t.len() as int) =~= t@);
    assert(body@ == foreground_text(t@));
    let entry = from_chars(&body);
    let links = split_chars(&t);
    let mut marker: Vec<char> = Vec::new();
    marker.push('<');
    marker.push('<');
    assert(marker@ =~= seq!['<', '<']);
    let plan = if links.len() > 1 {
        Plan::Chain(links)
    } else if contains(&body, &marker) {
        Plan::Heredoc(from_chars(&body))
    } else {
        let commands = parse_pipeline(entry.as_str());
        assert(commands.deep_view().len() == stage_texts(body@).len());
        let piped = commands.len() > 1;
        if holds_redirection(entry.as_str()) && !piped {
            match ParsedCommand::diagnostic(entry.as_str()) {
                Some(why) => Plan::Malformed(why),
                None => Plan::Redirect(ParsedCommand::parse(entry.as_str())),
            }
        } else if piped {
            Plan::Pipeline { stages: plan_pipeline(&commands), background }
        } else {
            Plan::Simple(from_chars(&t))
        }
    };
    LinePlan { entry: Some(entry), plan }
}

} // verus!
