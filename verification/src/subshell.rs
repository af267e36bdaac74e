//! Subshell substitution: the parts of a line in parentheses are commands,
//! and what they print takes their place.
//!
//! The expander scans the line and says which command is to run next; the
//! caller runs it and hands back what it printed.

use crate::command::{args_of, scan_args};
use crate::text::{slice_chars, substring, to_chars, trim, trim_bounds};
use vstd::prelude::*;
use vstd::string::StringExecFns;

verus! {

/// The index of the first parenthesis of `s` at or after `from`, or the
/// length of `s` where there is none.
pub open spec fn first_paren(s: Seq<char>, from: int) -> int
    decreases s.len() - from,
{
    if from < 0 || from >= s.len() {
        s.len() as int
    } else if s[from] == '(' || s[from] == ')' {
        from
    } else {
        first_paren(s, from + 1)
    }
}

/// The index of the `)` that closes the group which is `depth` levels deep
/// at index `at`, or the length of `s` where the group is not closed.
pub open spec fn close_of(s: Seq<char>, at: int, depth: nat) -> int
    decreases s.len() - at,
{
    if at < 0 || at >= s.len() {
        s.len() as int
    } else if s[at] == '(' {
        close_of(s, at + 1, depth + 1)
    } else if s[at] == ')' {
        if depth <= 1 {
            at
        } else {
            close_of(s, at + 1, (depth - 1) as nat)
        }
    } else {
        close_of(s, at + 1, depth)
    }
}

/// Both searches go forward and stay inside the text.
pub proof fn lemma_search_bounds(s: Seq<char>, from: int, depth: nat)
    requires
        0 <= from <= s.len(),
    ensures
        from <= first_paren(s, from) <= s.len(),
        from <= close_of(s, from, depth) <= s.len(),
    decreases s.len() - from,
{
    if from < s.len() {
        lemma_search_bounds(s, from + 1, depth);
        lemma_search_bounds(s, from + 1, depth + 1);
        if depth > 1 {
            lemma_search_bounds(s, from + 1, (depth - 1) as nat);
        }
    }
}

/// Why a line cannot be expanded.
#[derive(Debug, Clone, Copy, PartialEq, Eq, Structural)]
pub enum SubshellError {
    /// A `)` closes nothing.
    UnmatchedClose,
    /// A `(` is never closed.
    UnmatchedOpen,
}

/// What the caller does next.
#[derive(Debug)]
pub enum Step {
    /// Run the program, the first word, with the other words as its
    /// arguments, and hand back what it printed.
    Run(Vec<String>),
    /// The line is expanded: this is its text.
    Done(String),
    /// The line is malformed.
    Failed(SubshellError),
}

/// A [`Step`] with its texts as character sequences.
pub enum StepView {
    Run(Seq<Seq<char>>),
    Done(Seq<char>),
    Failed(SubshellError),
}

impl View for Step {
    type V = StepView;

    open spec fn view(&self) -> StepView {
        match *self {
            Step::Run(words) => StepView::Run(words.deep_view()),
            Step::Done(text) => StepView::Done(text@),
            Step::Failed(e) => StepView::Failed(e),
        }
    }
}

/// What an [`Expander`] holds: the line, how far it has been read, and the
/// expanded text so far.
pub struct ExpanderView {
    pub input: Seq<char>,
    pub position: int,
    pub output: Seq<char>,
}

/// An expander after a step, and the step.
pub struct Advance {
    pub state: ExpanderView,
    pub step: StepView,
}

impl ExpanderView {
    /// The position lies in the line.
    pub open spec fn wf(self) -> bool {
        0 <= self.position <= self.input.len()
    }

    /// The next step from this state. Text outside parentheses is copied.
    /// A group whose command has no words is dropped and the scan goes on;
    /// any other group stops the scan behind it, with its command to run.
    pub open spec fn advance(self) -> Advance
        decreases self.input.len() - self.position,
        via Self::advance_decreases
    {
        let s = self.input;
        let open = first_paren(s, self.position);
        if !self.wf() {
            Advance { state: self, step: StepView::Failed(SubshellError::UnmatchedOpen) }
        } else if open >= s.len() {
            let text = self.output + s.subrange(self.position, s.len() as int);
            Advance {
                state: ExpanderView { position: s.len() as int, output: text, ..self },
                step: StepView::Done(text),
            }
        } else if s[open] == ')' {
            Advance { state: self, step: StepView::Failed(SubshellError::UnmatchedClose) }
        } else {
            let close = close_of(s, open + 1, 1);
            if close >= s.len() {
                Advance { state: self, step: StepView::Failed(SubshellError::UnmatchedOpen) }
            } else {
                let words = args_of(trim(s.subrange(open + 1, close)));
                let behind = ExpanderView {
                    position: close + 1,
                    output: self.output + s.subrange(self.position, open),
                    ..self
                };
                if words.len() == 0 {
                    behind.advance()
                } else {
                    Advance { state: behind, step: StepView::Run(words) }
                }
            }
        }
    }

    #[via_fn]
    proof fn advance_decreases(self) {
        if self.wf() {
            lemma_search_bounds(self.input, self.position, 1);
            let open = first_paren(self.input, self.position);
            if open < self.input.len() {
                lemma_search_bounds(self.input, open + 1, 1);
            }
        }
    }

    /// The state after the command that ran printed `printed`: the text
    /// goes in, without the line break at its end if it has one.
    pub open spec fn supply(self, printed: Seq<char>) -> ExpanderView {
        ExpanderView { output: self.output + without_newline(printed), ..self }
    }
}

/// `s` without the line break at its end, if it ends in one.
pub open spec fn without_newline(s: Seq<char>) -> Seq<char> {
    if s.len() > 0 && s.last() == '\n' {
        s.drop_last()
    } else {
        s
    }
}

/// What is to be said of an error.
pub open spec fn error_text(e: SubshellError) -> Seq<char> {
    match e {
        SubshellError::UnmatchedClose => "Unmatched closing parenthesis"@,
        SubshellError::UnmatchedOpen => "Unmatched opening parenthesis"@,
    }
}

impl SubshellError {
    /// What is to be said of this error.
    pub fn message(&self) -> (r: String)
        ensures
            r@ == error_text(*self),
    {
        match self {
            SubshellError::UnmatchedClose => "Unmatched closing parenthesis".to_owned(),
            SubshellError::UnmatchedOpen => "Unmatched opening parenthesis".to_owned(),
        }
    }
}

/// Expands the subshells of one line, step by step.
pub struct Expander {
    input: Vec<char>,
    position: usize,
    output: String,
}

impl View for Expander {
    type V = ExpanderView;

    closed spec fn view(&self) -> ExpanderView {
        ExpanderView {
            input: self.input@,
            position: self.position as int,
            output: self.output@,
        }
    }
}

impl Expander {
    /// An expander at the start of the line `input`.
    pub fn new(input: &str) -> (r: Expander)
        ensures
            r@ == (ExpanderView { input: input@, position: 0, output: Seq::empty() }),
            r@.wf(),
    {
        Expander { input: to_chars(input), position: 0, output: String::new() }
    }

    /// Reads on to the end of the next group that holds a command, or to
    /// the end of the line.
    pub fn next(&mut self) -> (step: Step)
        requires
            old(self)@.wf(),
        ensures
            final(self)@ == old(self)@.advance().state,
            step@ == old(self)@.advance().step,
            final(self)@.wf(),
    {
        let n = self.input.len();
        loop
            invariant
                n == self.input.len(),
                self@.wf(),
                self@.advance() == old(self)@.advance(),
            decreases n - self.position,
        {
            let ghost x = self@;
            let from = self.position;
            // the first parenthesis
            let mut open: usize = from;
            while open < n && self.input[open] != '(' && self.input[open] != ')'
                invariant
                    from <= open <= n,
                    n == self.input.len(),
                    self@ == x,
                    first_paren(x.input, open as int) == first_paren(x.input, from as int),
                decreases n - open,
            {
                open += 1;
            }
            if open >= n {
                let rest = substring(&self.input, from, n);
                self.output.append(rest.as_str());
                self.position = n;
                return Step::Done(self.output.clone());
            }
            if self.input[open] == ')' {
                return Step::Failed(SubshellError::UnmatchedClose);
            }
            // the parenthesis that closes the group
            let mut close: usize = open + 1;
            let mut depth: usize = 1;
            while close < n && !(self.input[close] == ')' && depth == 1)
                invariant
                    open < close <= n,
                    n == self.input.len(),
                    self@ == x,
                    1 <= depth <= close - open,
                    close_of(x.input, close as int, depth as nat) == close_of(
                        x.input,
                        open + 1,
                        1,
                    ),
                decreases n - close,
            {
                if self.input[close] == '(' {
                    depth += 1;
                } else if self.input[close] == ')' {
                    depth -= 1;
                }
                close += 1;
            }
            if close >= n {
                return Step::Failed(SubshellError::UnmatchedOpen);
            }
            let (a, b) = trim_bounds(&self.input, open + 1, close);
            let command = slice_chars(&self.input, a, b);
            let (words, _) = scan_args(&command);
            let before = substring(&self.input, from, open);
            self.output.append(before.as_str());
            self.position = close + 1;
            if words.len() > 0 {
                return Step::Run(words);
            }
        }
    }

    /// Takes in what the command of the last [`Step::Run`] printed.
    pub fn supply(&mut self, printed: &str)
        ensures
            final(self)@ == old(self)@.supply(printed@),
            final(self)@.wf() == old(self)@.wf(),
    {
        let v = to_chars(printed);
        let end = if v.len() > 0 && v[v.len() - 1] == '\n' {
            v.len() - 1
        } else {
            v.len()
        };
        let text = substring(&v, 0, end);
        assert(text@ =~= without_newline(printed@));
        self.output.append(text.as_str());
    }
}

/// A line without parentheses is its own expansion: the first step ends
/// the scan, and the text is what was put together before, then the rest
/// of the line.
pub proof fn lemma_plain_line(x: ExpanderView)
    requires
        x.wf(),
        forall|i: int| x.position <= i < x.input.len() ==> x.input[i] != '(' && x.input[i] != ')',
    ensures
        x.advance().step == StepView::Done(
            x.output + x.input.subrange(x.position, x.input.len() as int),
        ),
{
    lemma_no_paren(x.input, x.position);
}

/// Where no parenthesis follows, the search for one ends at the end.
proof fn lemma_no_paren(s: Seq<char>, from: int)
    requires
        0 <= from <= s.len(),
        forall|i: int| from <= i < s.len() ==> s[i] != '(' && s[i] != ')',
    ensures
        first_paren(s, from) == s.len(),
    decreases s.len() - from,
{
    if from < s.len() {
        lemma_no_paren(s, from + 1);
    }
}

} // verus!
