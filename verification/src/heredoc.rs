//! Here-documents: `command << DELIMITER` reads the lines that follow, up
//! to a line that is the delimiter, as the input of the command.

use crate::pipes::{split_whitespace, whitespace_words};
use crate::text::{
    find_char, first_index, lemma_first_index, matches_at, occurs_at, slice_chars, substring,
    to_chars, trim, trim_bounds,
};
use vstd::prelude::*;

verus! {

/// Whether `c` is a quote character.
pub open spec fn is_quote(c: char) -> bool {
    c == '\'' || c == '"'
}

/// `s` without the quote characters at its beginning.
pub open spec fn unquote_start(s: Seq<char>) -> Seq<char>
    decreases s.len(),
{
    if s.len() > 0 && is_quote(s[0]) {
        unquote_start(s.drop_first())
    } else {
        s
    }
}

/// `s` without the quote characters at its end.
pub open spec fn unquote_end(s: Seq<char>) -> Seq<char>
    decreases s.len(),
{
    if s.len() > 0 && is_quote(s.last()) {
        unquote_end(s.drop_last())
    } else {
        s
    }
}

/// `s` without the quote characters around it.
pub open spec fn unquote(s: Seq<char>) -> Seq<char> {
    unquote_end(unquote_start(s))
}

/// The index of the first `<<` in `s` at or after `from`, or the length of
/// `s` where there is none.
pub open spec fn marker_index(s: Seq<char>, from: int) -> int
    decreases s.len() - from,
{
    if from < 0 || from >= s.len() {
        s.len() as int
    } else if occurs_at(s, seq!['<', '<'], from) {
        from
    } else {
        marker_index(s, from + 1)
    }
}

/// A here-document as the line names it.
#[derive(Debug)]
pub struct Heredoc {
    /// The command that reads the document.
    pub command: String,
    /// The line that ends the document.
    pub delimiter: String,
    /// Whether the delimiter stood in quotes.
    pub quoted: bool,
}

/// A [`Heredoc`] with its texts as character sequences.
pub struct HeredocView {
    pub command: Seq<char>,
    pub delimiter: Seq<char>,
    pub quoted: bool,
}

impl View for Heredoc {
    type V = HeredocView;

    open spec fn view(&self) -> HeredocView {
        HeredocView { command: self.command@, delimiter: self.delimiter@, quoted: self.quoted }
    }
}

/// The here-document that the line `s` names: the command stands before
/// the first `<<`, the delimiter behind it, both trimmed, and the quote
/// characters around the delimiter are taken off. `None` where `s` holds no
/// `<<` or nothing behind it.
pub open spec fn heredoc_of(s: Seq<char>) -> Option<HeredocView> {
    let k = marker_index(s, 0);
    if k >= s.len() {
        None
    } else {
        let word = trim(s.subrange(k + 2, s.len() as int));
        if word.len() == 0 {
            None
        } else {
            Some(
                HeredocView {
                    command: trim(s.subrange(0, k)),
                    delimiter: unquote(word),
                    quoted: is_quote(word[0]),
                },
            )
        }
    }
}

/// Reads the here-document that a line names.
pub fn parse_heredoc(input: &str) -> (r: Option<Heredoc>)
    ensures
        match r {
            Some(h) => heredoc_of(input@) == Some(h@),
            None => heredoc_of(input@) is None,
        },
{
    let v = to_chars(input);
    let n = v.len();
    let mut marker: Vec<char> = Vec::new();
    marker.push('<');
    marker.push('<');
    assert(marker@ =~= seq!['<', '<']);
    let mut k: usize = 0;
    while k < n && !(n - k >= 2 && matches_at(&v, &marker, k))
        invariant
            0 <= k <= n,
            n == v.len(),
            marker@ == seq!['<', '<'],
            marker_index(v@, k as int) == marker_index(v@, 0),
        decreases n - k,
    {
        k += 1;
    }
    if k >= n {
        return None;
    }
    let (a, b) = trim_bounds(&v, k + 2, n);
    if a == b {
        return None;
    }
    let ghost word = v@.subrange(a as int, b as int);
    let quoted = v[a] == '\'' || v[a] == '"';
    assert(word[0] == v@[a as int]);
    let mut from: usize = a;
    while from < b && (v[from] == '\'' || v[from] == '"')
        invariant
            a <= from <= b <= n,
            n == v.len(),
            unquote_start(v@.subrange(from as int, b as int)) == unquote_start(word),
        decreases b - from,
    {
        assert(v@.subrange(from as int, b as int).drop_first() =~= v@.subrange(from + 1, b as int));
        from += 1;
    }
    let mut to: usize = b;
    while to > from && (v[to - 1] == '\'' || v[to - 1] == '"')
        invariant
            from <= to <= b <= n,
            n == v.len(),
            unquote_end(v@.subrange(from as int, to as int)) == unquote_end(
                v@.subrange(from as int, b as int),
            ),
        decreases to,
    {
        assert(v@.subrange(from as int, to as int).drop_last() =~= v@.subrange(
            from as int,
            to - 1,
        ));
        to -= 1;
    }
    let (c, d) = trim_bounds(&v, 0, k);
    Some(
        Heredoc {
            command: substring(&v, c, d),
            delimiter: substring(&v, from, to),
            quoted,
        },
    )
}

/// `s` without the line breaks at its end.
pub open spec fn without_line_breaks(s: Seq<char>) -> Seq<char>
    decreases s.len(),
{
    if s.len() > 0 && s.last() == '\n' {
        without_line_breaks(s.drop_last())
    } else {
        s
    }
}

/// Whether `line`, as read with its line break, ends the document whose
/// delimiter is `delimiter`.
pub fn is_terminator(line: &str, delimiter: &str) -> (r: bool)
    ensures
        r == (without_line_breaks(line@) == delimiter@),
{
    let v = to_chars(line);
    let d = to_chars(delimiter);
    let mut end: usize = v.len();
    assert(v@.subrange(0, v.len() as int) =~= v@);
    while end > 0 && v[end - 1] == '\n'
        invariant
            0 <= end <= v.len(),
            without_line_breaks(v@.subrange(0, end as int)) == without_line_breaks(v@),
        decreases end,
    {
        assert(v@.subrange(0, end as int).drop_last() =~= v@.subrange(0, end - 1));
        end -= 1;
    }
    let text = slice_chars(&v, 0, end);
    assert(without_line_breaks(text@) == text@) by {
        if end > 0 {
            assert(text@.last() == v@[end - 1]);
        }
    }
    crate::editor::completion::text_eq(&text, &d)
}

/// The process that reads a here-document.
#[derive(Debug)]
pub struct Reader {
    pub program: String,
    pub args: Vec<String>,
    /// The file that takes what the process prints, where the command
    /// names one.
    pub outfile: Option<String>,
}

/// A [`Reader`] with its texts as character sequences.
pub struct ReaderView {
    pub program: Seq<char>,
    pub args: Seq<Seq<char>>,
    pub outfile: Option<Seq<char>>,
}

impl View for Reader {
    type V = ReaderView;

    open spec fn view(&self) -> ReaderView {
        ReaderView {
            program: self.program@,
            args: self.args.deep_view(),
            outfile: match self.outfile {
                Some(f) => Some(f@),
                None => None,
            },
        }
    }
}

/// The process that the command `s` of a here-document starts. Where the
/// command holds a `>`, the words before the first one are the process and
/// the text behind it, trimmed, is the file for its output. `None` where no
/// word is left to name a program.
pub open spec fn reader_of(s: Seq<char>) -> Option<ReaderView> {
    let k = first_index(s, '>');
    let words = whitespace_words(trim(s.subrange(0, k)));
    if words.len() == 0 {
        None
    } else {
        Some(
            ReaderView {
                program: words[0],
                args: words.drop_first(),
                outfile: if k < s.len() {
                    Some(trim(s.subrange(k + 1, s.len() as int)))
                } else {
                    None
                },
            },
        )
    }
}

/// Lays out the process that reads a here-document.
pub fn heredoc_reader(command: &str) -> (r: Option<Reader>)
    ensures
        match r {
            Some(reader) => reader_of(command@) == Some(reader@),
            None => reader_of(command@) is None,
        },
{
    let v = to_chars(command);
    let k = find_char(&v, '>');
    proof {
        lemma_first_index(v@, '>');
    }
    let (a, b) = trim_bounds(&v, 0, k);
    let text = substring(&v, a, b);
    let mut words = split_whitespace(text.as_str());
    if words.len() == 0 {
        return None;
    }
    let outfile = if k < v.len() {
        let (c, d) = trim_bounds(&v, k + 1, v.len());
        Some(substring(&v, c, d))
    } else {
        None
    };
    let ghost all = words.deep_view();
    let program = words.remove(0);
    assert(words.deep_view() =~= all.drop_first());
    Some(Reader { program, args: words, outfile })
}

} // verus!
