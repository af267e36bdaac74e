//! Chains of commands joined by `&&`, `||` and `;`: splitting a line into
//! its links, and deciding which links run.

use crate::command::{arg_scan, char_at, escapes_at, is_bare};
use crate::text::{
    is_whitespace, lemma_trim_end_keeps, lemma_trim_start_keeps, substring, to_chars, trim,
    trim_start,
};
use vstd::prelude::*;

verus! {

/// An operator that joins two commands of a chain.
#[derive(Debug, Clone, Copy, PartialEq, Eq, Structural)]
pub enum ChainOp {
    /// `&&`: the next command runs only after a success.
    And,
    /// `||`: the next command runs only after a failure.
    Or,
    /// `;`: the next command runs in any case.
    Sequence,
}

/// One command text of a chain, with the operator that follows it (`None`
/// after the last one).
#[derive(Debug)]
pub struct ChainLink {
    pub text: String,
    pub op: Option<ChainOp>,
}

/// A [`ChainLink`] with its text as a character sequence.
pub struct ChainLinkView {
    pub text: Seq<char>,
    pub op: Option<ChainOp>,
}

impl View for ChainLink {
    type V = ChainLinkView;

    open spec fn view(&self) -> ChainLinkView {
        ChainLinkView { text: self.text@, op: self.op }
    }
}

/// The views of the links `v`.
pub open spec fn links_view(v: Seq<ChainLink>) -> Seq<ChainLinkView> {
    Seq::new(v.len(), |i: int| v[i]@)
}

/// The chain operator that starts at index `at` of `s`, if one does: the
/// characters must stand outside quotes and not be escaped.
pub open spec fn operator_at(s: Seq<char>, at: int) -> Option<ChainOp> {
    if !(0 <= at < s.len()) || !is_bare(s, at) {
        None
    } else if s[at] == ';' {
        Some(ChainOp::Sequence)
    } else if at + 1 < s.len() && s[at] == '&' && s[at + 1] == '&' {
        Some(ChainOp::And)
    } else if at + 1 < s.len() && s[at] == '|' && s[at + 1] == '|' {
        Some(ChainOp::Or)
    } else {
        None
    }
}

/// The number of characters that write `op`.
pub open spec fn operator_len(op: ChainOp) -> int {
    match op {
        ChainOp::Sequence => 1,
        ChainOp::And => 2,
        ChainOp::Or => 2,
    }
}

/// The links of `s` from index `at` on, where the link being read began at
/// `start`.
pub open spec fn chain_from(s: Seq<char>, start: int, at: int) -> Seq<ChainLinkView>
    decreases s.len() - at,
{
    if at >= s.len() {
        seq![ChainLinkView { text: s.subrange(start, s.len() as int), op: None }]
    } else {
        match operator_at(s, at) {
            Some(op) => seq![ChainLinkView { text: s.subrange(start, at), op: Some(op) }]
                + chain_from(s, at + operator_len(op), at + operator_len(op)),
            None => chain_from(s, start, at + 1),
        }
    }
}

/// The links of the line `s`: the texts between its chain operators, each
/// with the operator that follows it.
pub open spec fn chain_of(s: Seq<char>) -> Seq<ChainLinkView> {
    chain_from(s, 0, 0)
}

/// The characters that write `op`.
pub open spec fn operator_symbol(op: ChainOp) -> Seq<char> {
    match op {
        ChainOp::Sequence => seq![';'],
        ChainOp::And => seq!['&', '&'],
        ChainOp::Or => seq!['|', '|'],
    }
}

/// The line that the links spell: each text, with its operator behind it.
pub open spec fn chain_text(links: Seq<ChainLinkView>) -> Seq<char>
    decreases links.len(),
{
    if links.len() == 0 {
        Seq::empty()
    } else {
        links[0].text + (match links[0].op {
            Some(op) => operator_symbol(op),
            None => Seq::empty(),
        }) + chain_text(links.drop_first())
    }
}

/// Splitting loses nothing: the links of a line spell the line again. The
/// last link, and no other, has no operator behind it.
pub proof fn lemma_links_spell_the_line(s: Seq<char>)
    ensures
        chain_text(chain_of(s)) == s,
        chain_of(s).len() >= 1,
        chain_of(s).last().op is None,
        forall|i: int| 0 <= i < chain_of(s).len() - 1 ==> (#[trigger] chain_of(s)[i]).op is Some,
{
    lemma_links_from(s, 0, 0);
    assert(s.subrange(0, s.len() as int) =~= s);
}

/// The links from an index on spell the line from where the first of them
/// began.
proof fn lemma_links_from(s: Seq<char>, start: int, at: int)
    requires
        0 <= start <= at <= s.len(),
    ensures
        chain_text(chain_from(s, start, at)) == s.subrange(start, s.len() as int),
        chain_from(s, start, at).len() >= 1,
        chain_from(s, start, at).last().op is None,
        forall|i: int|
            0 <= i < chain_from(s, start, at).len() - 1 ==> (#[trigger] chain_from(
                s,
                start,
                at,
            )[i]).op is Some,
    decreases s.len() - at,
{
    let links = chain_from(s, start, at);
    if at >= s.len() {
        assert(links.drop_first() =~= Seq::<ChainLinkView>::empty());
        assert(chain_text(links.drop_first()) =~= Seq::<char>::empty());
        assert(links[0].text == s.subrange(start, s.len() as int));
        assert(chain_text(links) =~= s.subrange(start, s.len() as int));
    } else {
        match operator_at(s, at) {
            Some(op) => {
                let next = at + operator_len(op);
                lemma_links_from(s, next, next);
                let rest = chain_from(s, next, next);
                assert(links.drop_first() =~= rest);
                assert(s.subrange(at, next) =~= operator_symbol(op));
                assert(chain_text(links) =~= s.subrange(start, at) + s.subrange(at, next)
                    + s.subrange(next, s.len() as int));
                assert(chain_text(links) =~= s.subrange(start, s.len() as int));
                assert(links.last() == rest.last());
                assert forall|i: int| 0 <= i < links.len() - 1 implies (#[trigger] links[i]).op
                    is Some by {
                    if i > 0 {
                        assert(links[i] == rest[i - 1]);
                    }
                }
            },
            None => {
                lemma_links_from(s, start, at + 1);
            },
        }
    }
}

/// Whether the scanner stands outside quotes and escapes after `n`
/// characters of `s`, as it does before the first.
pub open spec fn is_clean(s: Seq<char>, n: int) -> bool {
    !arg_scan(s, n).in_quotes && !arg_scan(s, n).escape_next && arg_scan(s, n).quote_char == ' '
}

/// Outside quotes the scanner remembers no quote character.
proof fn lemma_bare_is_clean(s: Seq<char>, n: int)
    requires
        0 <= n,
    ensures
        !arg_scan(s, n).in_quotes ==> arg_scan(s, n).quote_char == ' ',
    decreases n,
{
    if n > 0 {
        lemma_bare_is_clean(s, n - 1);
    }
}

/// Whitespace leaves the scanner outside quotes and escapes.
proof fn lemma_clean_over_whitespace(s: Seq<char>, from: int, to: int)
    requires
        0 <= from <= to <= s.len(),
        is_clean(s, from),
        forall|k: int| from <= k < to ==> is_whitespace(#[trigger] s[k]),
    ensures
        is_clean(s, to),
    decreases to - from,
{
    if from < to {
        lemma_clean_over_whitespace(s, from, to - 1);
        assert(is_whitespace(s[to - 1]));
    }
}

/// A part of a line that begins outside quotes and escapes is scanned, up
/// to its last character, as it is inside the line.
proof fn lemma_scan_of_part(s: Seq<char>, from: int, to: int, k: int)
    requires
        0 <= from <= to <= s.len(),
        is_clean(s, from),
        0 <= k,
        k < to - from || k == 0,
    ensures
        arg_scan(s.subrange(from, to), k).in_quotes == arg_scan(s, from + k).in_quotes,
        arg_scan(s.subrange(from, to), k).quote_char == arg_scan(s, from + k).quote_char,
        arg_scan(s.subrange(from, to), k).escape_next == arg_scan(s, from + k).escape_next,
    decreases k,
{
    if k > 0 {
        lemma_scan_of_part(s, from, to, k - 1);
        assert(s.subrange(from, to)[k - 1] == s[from + k - 1]);
        assert(s.subrange(from, to)[k] == s[from + k]);
        assert(char_at(s.subrange(from, to), k) == char_at(s, from + k));
    }
}

/// A line without a chain operator is a chain of one link.
proof fn lemma_no_operator_no_chain(t: Seq<char>, at: int)
    requires
        0 <= at <= t.len(),
        forall|k: int| at <= k < t.len() ==> operator_at(t, k) is None,
    ensures
        chain_from(t, 0, at).len() == 1,
    decreases t.len() - at,
{
    if at < t.len() {
        lemma_no_operator_no_chain(t, at + 1);
    }
}

/// A part of a line that begins outside quotes and escapes and holds no
/// chain operator is, once trimmed, a chain of one link.
proof fn lemma_part_is_no_chain(s: Seq<char>, from: int, to: int)
    requires
        0 <= from <= to <= s.len(),
        is_clean(s, from),
        forall|k: int| from <= k < to ==> operator_at(s, k) is None,
    ensures
        chain_of(trim(s.subrange(from, to))).len() == 1,
{
    let part = s.subrange(from, to);
    lemma_trim_start_keeps(part);
    let head = trim_start(part);
    lemma_trim_end_keeps(head);
    let t = trim(part);
    let a = from + (part.len() - head.len());
    let b = a + t.len();
    assert(t =~= s.subrange(a, b));
    assert forall|k: int| from <= k < a implies is_whitespace(#[trigger] s[k]) by {
        assert(part.subrange(0, part.len() - head.len())[k - from] == s[k]);
    }
    lemma_clean_over_whitespace(s, from, a);
    assert forall|k: int| 0 <= k < t.len() implies operator_at(t, k) is None by {
        lemma_scan_of_part(s, a, b, k);
        assert(t[k] == s[a + k]);
        if k + 1 < t.len() {
            assert(t[k + 1] == s[a + k + 1]);
        }
        assert(operator_at(s, a + k) is None);
    }
    lemma_no_operator_no_chain(t, 0);
}

/// Every link of the chain that begins at `start` is, once trimmed, a chain
/// of one link.
proof fn lemma_links_are_no_chains(s: Seq<char>, start: int, at: int, i: int)
    requires
        0 <= start <= at <= s.len(),
        is_clean(s, start),
        forall|k: int| start <= k < at ==> operator_at(s, k) is None,
        0 <= i < chain_from(s, start, at).len(),
    ensures
        chain_of(trim(chain_from(s, start, at)[i].text)).len() == 1,
    decreases s.len() - at,
{
    if at >= s.len() {
        lemma_part_is_no_chain(s, start, s.len() as int);
    } else {
        match operator_at(s, at) {
            Some(op) => {
                let next = at + operator_len(op);
                if i == 0 {
                    lemma_part_is_no_chain(s, start, at);
                } else {
                    lemma_bare_is_clean(s, at);
                    assert(is_clean(s, at));
                    assert(is_clean(s, at + 1));
                    assert(is_clean(s, next));
                    let rest = chain_from(s, next, next);
                    assert(chain_from(s, start, at)[i] == rest[i - 1]);
                    lemma_links_are_no_chains(s, next, next, i - 1);
                }
            },
            None => {
                lemma_links_are_no_chains(s, start, at + 1, i);
            },
        }
    }
}

/// A link of a chain holds no chain operator of its own: taken as a line,
/// it is a chain of one link.
pub proof fn lemma_link_is_no_chain(s: Seq<char>, i: int)
    requires
        0 <= i < chain_of(s).len(),
    ensures
        chain_of(trim(chain_of(s)[i].text)).len() == 1,
{
    lemma_links_are_no_chains(s, 0, 0, i);
}

/// Splits the characters `chars` into the links of a chain.
pub fn split_chars(chars: &Vec<char>) -> (links: Vec<ChainLink>)
    ensures
        links_view(links@) == chain_of(chars@),
        links.len() >= 1,
{
    let n = chars.len();
    let mut links: Vec<ChainLink> = Vec::new();
    let mut start: usize = 0;
    let mut i: usize = 0;
    let mut in_quotes = false;
    let mut quote_char = ' ';
    let mut escape_next = false;
    assert(links_view(links@) + chain_from(chars@, 0, 0) =~= chain_of(chars@));
    while i < n
        invariant
            0 <= start <= i <= n,
            n == chars.len(),
            arg_scan(chars@, i as int).in_quotes == in_quotes,
            arg_scan(chars@, i as int).quote_char == quote_char,
            arg_scan(chars@, i as int).escape_next == escape_next,
            links_view(links@) + chain_from(chars@, start as int, i as int) == chain_of(chars@),
        decreases n - i,
    {
        let c = chars[i];
        let bare = !in_quotes && !escape_next;
        let op: Option<ChainOp> = if !bare {
            None
        } else if c == ';' {
            Some(ChainOp::Sequence)
        } else if i + 1 < n && c == '&' && chars[i + 1] == '&' {
            Some(ChainOp::And)
        } else if i + 1 < n && c == '|' && chars[i + 1] == '|' {
            Some(ChainOp::Or)
        } else {
            None
        };
        assert(op == operator_at(chars@, i as int));
        match op {
            Some(o) => {
                let width: usize = match o {
                    ChainOp::Sequence => 1,
                    ChainOp::And => 2,
                    ChainOp::Or => 2,
                };
                let ghost before = links_view(links@);
                let link = ChainLink { text: substring(chars, start, i), op: Some(o) };
                links.push(link);
                proof {
                    assert(links_view(links@) =~= before.push(link@));
                    let rest = chain_from(chars@, i + width, i + width);
                    assert(chain_from(chars@, start as int, i as int) == seq![link@] + rest);
                    assert(before.push(link@) + rest =~= before + (seq![link@] + rest));
                    // the operator's characters leave the quoting as it was
                    assert(arg_scan(chars@, i + 1).in_quotes == in_quotes);
                    assert(arg_scan(chars@, i + 1).escape_next == escape_next);
                    assert(arg_scan(chars@, i + 1).quote_char == quote_char);
                    if width == 2 {
                        assert(arg_scan(chars@, i + 2).in_quotes == in_quotes);
                        assert(arg_scan(chars@, i + 2).escape_next == escape_next);
                        assert(arg_scan(chars@, i + 2).quote_char == quote_char);
                    }
                }
                i += width;
                start = i;
            },
            None => {
                if escape_next {
                    escape_next = false;
                } else if c == '\\' && escapes_at(in_quotes, quote_char, chars, i) {
                    escape_next = true;
                } else if (c == '"' || c == '\'') && !in_quotes {
                    in_quotes = true;
                    quote_char = c;
                } else if (c == '"' || c == '\'') && in_quotes && c == quote_char {
                    in_quotes = false;
                    quote_char = ' ';
                }
                i += 1;
            },
        }
    }
    let ghost before = links_view(links@);
    let link = ChainLink { text: substring(chars, start, n), op: None };
    links.push(link);
    assert(links_view(links@) =~= before.push(link@));
    assert(before.push(link@) =~= before + seq![link@]);
    links
}

/// Splits the line `input` into the links of a chain. A line without a
/// chain operator is a chain of one link.
pub fn split_chain(input: &str) -> (links: Vec<ChainLink>)
    ensures
        links_view(links@) == chain_of(input@),
        links.len() >= 1,
{
    let chars = to_chars(input);
    split_chars(&chars)
}

/// Whether a command runs that stands behind the operator `op`, when the
/// command that ran last ended as `last_success` says. The first command of
/// a chain stands behind no operator.
pub open spec fn runs_after(op: Option<ChainOp>, last_success: bool) -> bool {
    match op {
        Some(ChainOp::And) => last_success,
        Some(ChainOp::Or) => !last_success,
        Some(ChainOp::Sequence) => true,
        None => true,
    }
}

/// The operator in front of link `k`.
pub open spec fn op_before(links: Seq<ChainLinkView>, k: int) -> Option<ChainOp> {
    if 0 < k <= links.len() {
        links[k - 1].op
    } else {
        None
    }
}

/// The first link at or after `from` that runs, or the number of links where
/// none does.
pub open spec fn next_to_run(links: Seq<ChainLinkView>, from: int, last_success: bool) -> int
    decreases links.len() - from,
{
    if from >= links.len() {
        links.len() as int
    } else if runs_after(op_before(links, from), last_success) {
        from
    } else {
        next_to_run(links, from + 1, last_success)
    }
}

/// How a command ended.
#[derive(Debug, Clone, Copy, PartialEq, Eq, Structural)]
pub enum Outcome {
    /// The command did its work.
    Success,
    /// The command failed; the session goes on.
    Failure,
    /// The command asked for the end of the session.
    Exit,
}

impl Outcome {
    /// The outcome of a command that does not end the session.
    pub fn of(success: bool) -> (r: Outcome)
        ensures
            r == (if success {
                Outcome::Success
            } else {
                Outcome::Failure
            }),
    {
        if success {
            Outcome::Success
        } else {
            Outcome::Failure
        }
    }
}

/// Walks a chain: hands out the command texts that are to run, in order,
/// and takes back how each one ended. Once a command has asked for the end
/// of the session no other is handed out.
pub struct ChainRunner {
    links: Vec<ChainLink>,
    position: usize,
    last_success: bool,
    exited: bool,
}

impl ChainRunner {
    #[verifier::type_invariant]
    spec fn well_formed(self) -> bool {
        self.position <= self.links.len()
    }

    /// The links of the chain.
    pub closed spec fn links(self) -> Seq<ChainLinkView> {
        links_view(self.links@)
    }

    /// The index of the link that is looked at next.
    pub closed spec fn position(self) -> int {
        self.position as int
    }

    /// Whether the command that ran last, and did not ask for the end of
    /// the session, did its work; `true` before any has run.
    pub closed spec fn last_success(self) -> bool {
        self.last_success
    }

    /// Whether a command has asked for the end of the session.
    pub closed spec fn exited(self) -> bool {
        self.exited
    }

    /// How the chain has ended so far: with the end of the session where a
    /// command asked for it, else as the command that ran last.
    pub open spec fn outcome_so_far(self) -> Outcome {
        if self.exited() {
            Outcome::Exit
        } else if self.last_success() {
            Outcome::Success
        } else {
            Outcome::Failure
        }
    }

    /// A runner at the start of the chain `links`.
    pub fn new(links: Vec<ChainLink>) -> (r: ChainRunner)
        ensures
            r.links() == links_view(links@),
            r.position() == 0,
            r.last_success(),
            !r.exited(),
    {
        ChainRunner { links, position: 0, last_success: true, exited: false }
    }

    /// The text of the next command that runs, or `None` at the end of the
    /// chain. Links whose operator forbids them are passed over. After a
    /// command has asked for the end of the session the result is `None`,
    /// and the runner stays as it is.
    pub fn next_command(&mut self) -> (r: Option<String>)
        ensures
            final(self).links() == old(self).links(),
            final(self).last_success() == old(self).last_success(),
            final(self).exited() == old(self).exited(),
            old(self).exited() ==> r is None && final(self).position() == old(self).position(),
            !old(self).exited() ==> ({
                let k = next_to_run(old(self).links(), old(self).position(), old(self).last_success());
                match r {
                    Some(text) => k < old(self).links().len() && text@ == old(self).links()[k].text
                        && final(self).position() == k + 1,
                    None => k == old(self).links().len() && final(self).position() == k,
                }
            }),
    {
        proof {
            use_type_invariant(&*self);
        }
        if self.exited {
            return None;
        }
        let n = self.links.len();
        let mut k: usize = self.position;
        while k < n
            invariant
                self.position <= k <= n,
                n == self.links.len(),
                *self == *old(self),
                !self.exited,
                next_to_run(self.links(), k as int, self.last_success) == next_to_run(
                    self.links(),
                    self.position as int,
                    self.last_success,
                ),
            decreases n - k,
        {
            let before: Option<ChainOp> = if k > 0 {
                self.links[k - 1].op
            } else {
                None
            };
            assert(before == op_before(self.links(), k as int));
            let runs = match before {
                Some(ChainOp::And) => self.last_success,
                Some(ChainOp::Or) => !self.last_success,
                Some(ChainOp::Sequence) => true,
                None => true,
            };
            if runs {
                let text = self.links[k].text.clone();
                self.position = k + 1;
                return Some(text);
            }
            k += 1;
        }
        self.position = n;
        None
    }

    /// Takes note of how the command handed out last ended. A success or a
    /// failure decides which command runs next; a request for the end of
    /// the session ends the chain, and stays noted whatever is reported
    /// after it.
    pub fn report(&mut self, outcome: Outcome)
        ensures
            final(self).links() == old(self).links(),
            final(self).position() == old(self).position(),
            final(self).exited() == (old(self).exited() || outcome == Outcome::Exit),
            final(self).last_success() == (match outcome {
                Outcome::Success => true,
                Outcome::Failure => false,
                Outcome::Exit => old(self).last_success(),
            }),
    {
        proof {
            use_type_invariant(&*self);
        }
        match outcome {
            Outcome::Success => {
                self.last_success = true;
            },
            Outcome::Failure => {
                self.last_success = false;
            },
            Outcome::Exit => {
                self.exited = true;
            },
        }
    }

    /// How the chain has ended so far.
    pub fn outcome(&self) -> (r: Outcome)
        ensures
            r == self.outcome_so_far(),
    {
        if self.exited {
            Outcome::Exit
        } else {
            Outcome::of(self.last_success)
        }
    }
}

/// A command behind `&&` runs exactly after a success, one behind `||`
/// exactly after a failure, and one behind `;` in any case. A command that
/// does not run is passed over.
pub proof fn lemma_short_circuit(links: Seq<ChainLinkView>, k: int, last_success: bool)
    requires
        0 < k < links.len(),
    ensures
        k <= next_to_run(links, k, last_success) <= links.len(),
        links[k - 1].op == Some(ChainOp::And) ==> (next_to_run(links, k, last_success) == k
            <==> last_success),
        links[k - 1].op == Some(ChainOp::Or) ==> (next_to_run(links, k, last_success) == k
            <==> !last_success),
        links[k - 1].op == Some(ChainOp::Sequence) ==> next_to_run(links, k, last_success) == k,
{
    lemma_next_to_run_bounds(links, k, last_success);
    lemma_next_to_run_bounds(links, k + 1, last_success);
}

/// [`next_to_run`] never goes back.
pub proof fn lemma_next_to_run_bounds(links: Seq<ChainLinkView>, from: int, last_success: bool)
    requires
        0 <= from <= links.len(),
    ensures
        from <= next_to_run(links, from, last_success) <= links.len(),
    decreases links.len() - from,
{
    if from < links.len() && !runs_after(op_before(links, from), last_success) {
        lemma_next_to_run_bounds(links, from + 1, last_success);
    }
}

} // verus!
