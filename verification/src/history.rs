//! The list of submitted lines, with a cursor for recalling them.

use crate::text::{contains, contains_text, decimal_digits, is_blank, push_decimal, to_chars, trim_bounds, lemma_blank_iff_trims_to_nothing};
use vstd::prelude::*;

verus! {

/// What a [`History`] holds: the lines, oldest first, and the position of
/// the cursor. The position equal to the number of lines means that no
/// line is selected.
pub struct HistoryView {
    pub entries: Seq<Seq<char>>,
    pub position: int,
}

impl HistoryView {
    /// The cursor stands on a line or just behind the last one.
    pub open spec fn wf(self) -> bool {
        0 <= self.position <= self.entries.len()
    }

    /// Whether adding `line` stores it: it is not blank and differs from
    /// the newest line.
    pub open spec fn stores(self, line: Seq<char>) -> bool {
        !is_blank(line) && !(self.entries.len() > 0 && self.entries.last() == line)
    }

    /// The history after `line` was added. A blank line changes nothing; any
    /// other puts the cursor behind the last line.
    pub open spec fn add(self, line: Seq<char>) -> HistoryView {
        if is_blank(line) {
            self
        } else if self.stores(line) {
            HistoryView {
                entries: self.entries.push(line),
                position: self.entries.len() as int + 1,
            }
        } else {
            HistoryView { position: self.entries.len() as int, ..self }
        }
    }

    /// The history after a step towards older lines.
    pub open spec fn previous(self) -> HistoryView {
        if self.position > 0 {
            HistoryView { position: self.position - 1, ..self }
        } else {
            self
        }
    }

    /// The history after a step towards newer lines. A step from the newest
    /// line leaves the lines.
    pub open spec fn next(self) -> HistoryView {
        if self.position + 1 < self.entries.len() {
            HistoryView { position: self.position + 1, ..self }
        } else {
            HistoryView { position: self.entries.len() as int, ..self }
        }
    }

    /// The line under the cursor, if the cursor stands on one.
    pub open spec fn selected(self) -> Option<Seq<char>> {
        if 0 <= self.position < self.entries.len() {
            Some(self.entries[self.position])
        } else {
            None
        }
    }
}

/// The text of an optional string.
pub open spec fn text_of(s: Option<&String>) -> Option<Seq<char>> {
    match s {
        Some(s) => Some(s@),
        None => None,
    }
}

/// The lines among the first `n` of `entries` that hold `pattern`, each
/// with its index.
pub open spec fn hits(entries: Seq<Seq<char>>, pattern: Seq<char>, n: int) -> Seq<
    (int, Seq<char>),
>
    decreases n,
{
    if n <= 0 {
        Seq::empty()
    } else if contains_text(entries[n - 1], pattern) {
        hits(entries, pattern, n - 1).push((n - 1, entries[n - 1]))
    } else {
        hits(entries, pattern, n - 1)
    }
}

/// The found lines `v` with their texts as character sequences.
pub open spec fn hits_view(v: Seq<(usize, &String)>) -> Seq<(int, Seq<char>)> {
    Seq::new(v.len(), |i: int| (v[i].0 as int, v[i].1@))
}

/// The numbered line that shows entry `index` of a listing.
pub open spec fn listed(index: int, line: Seq<char>) -> Seq<char> {
    decimal_digits((index + 1) as nat) + seq![':', ' '] + line
}

/// Submitted lines, oldest first, and a cursor among them.
pub struct History {
    commands: Vec<String>,
    position: usize,
}

impl View for History {
    type V = HistoryView;

    closed spec fn view(&self) -> HistoryView {
        HistoryView { entries: self.commands.deep_view(), position: self.position as int }
    }
}

impl History {
    /// A history of the lines `commands`, oldest first, with no line
    /// selected.
    pub fn new(commands: Vec<String>) -> (h: History)
        ensures
            h@.entries == commands.deep_view(),
            h@.position == commands.len(),
            h@.wf(),
    {
        let position = commands.len();
        History { commands, position }
    }

    /// Adds a submitted line and tells whether it was stored. A blank line
    /// is ignored. A line equal to the newest one is not stored again. In
    /// both of the other cases the cursor ends behind the last line.
    pub fn add(&mut self, command: String) -> (stored: bool)
        requires
            old(self)@.wf(),
        ensures
            final(self)@ == old(self)@.add(command@),
            stored == old(self)@.stores(command@),
            final(self)@.wf(),
    {
        let chars = to_chars(command.as_str());
        let (a, b) = trim_bounds(&chars, 0, chars.len());
        proof {
            assert(chars@.subrange(0, chars.len() as int) =~= chars@);
            lemma_blank_iff_trims_to_nothing(chars@);
        }
        if a == b {
            return false;
        }
        let n = self.commands.len();
        let repeated = n > 0 && self.commands[n - 1] == command;
        assert(repeated == (self@.entries.len() > 0 && self@.entries.last() == command@));
        let mut stored = false;
        if !repeated {
            let ghost before = self.commands.deep_view();
            self.commands.push(command);
            assert(self.commands.deep_view() =~= before.push(command@));
            stored = true;
        }
        self.position = self.commands.len();
        stored
    }

    /// Steps to the next older line and returns it; `None`, and no step,
    /// at the oldest line.
    pub fn previous(&mut self) -> (r: Option<&String>)
        requires
            old(self)@.wf(),
        ensures
            final(self)@ == old(self)@.previous(),
            text_of(r) == (if old(self)@.position > 0 {
                final(self)@.selected()
            } else {
                None
            }),
            final(self)@.wf(),
    {
        if self.position > 0 {
            self.position -= 1;
            Some(&self.commands[self.position])
        } else {
            None
        }
    }

    /// Steps to the next newer line and returns it; from the newest line,
    /// or with no line selected, the cursor leaves the lines and the result
    /// is `None`.
    pub fn next(&mut self) -> (r: Option<&String>)
        requires
            old(self)@.wf(),
        ensures
            final(self)@ == old(self)@.next(),
            text_of(r) == final(self)@.selected(),
            final(self)@.wf(),
    {
        if self.commands.len() > 0 && self.position < self.commands.len() - 1 {
            self.position += 1;
            Some(&self.commands[self.position])
        } else {
            self.position = self.commands.len();
            None
        }
    }

    /// The lines of a listing: each entry with its number, counted from 1.
    pub fn list(&self) -> (lines: Vec<String>)
        ensures
            lines.len() == self@.entries.len(),
            forall|i: int|
                0 <= i < lines.len() ==> (#[trigger] lines[i])@ == listed(i, self@.entries[i]),
    {
        let mut lines: Vec<String> = Vec::new();
        let mut i: usize = 0;
        while i < self.commands.len()
            invariant
                0 <= i <= self.commands.len(),
                lines.len() == i,
                forall|k: int|
                    0 <= k < i ==> (#[trigger] lines[k])@ == listed(k, self@.entries[k]),
            decreases self.commands.len() - i,
        {
            let mut line = String::new();
            push_decimal(&mut line, i as u64 + 1);
            line.push(':');
            line.push(' ');
            line.append(self.commands[i].as_str());
            assert(line@ =~= listed(i as int, self@.entries[i as int]));
            lines.push(line);
            i += 1;
        }
        lines
    }

    /// The lines that hold `pattern`, oldest first, each with its index.
    pub fn search(&self, pattern: &str) -> (found: Vec<(usize, &String)>)
        ensures
            hits_view(found@) == hits(self@.entries, pattern@, self@.entries.len() as int),
    {
        let needle = to_chars(pattern);
        let mut found: Vec<(usize, &String)> = Vec::new();
        let mut i: usize = 0;
        assert(hits_view(found@) =~= hits(self@.entries, pattern@, 0));
        while i < self.commands.len()
            invariant
                0 <= i <= self.commands.len(),
                needle@ == pattern@,
                hits_view(found@) == hits(self@.entries, pattern@, i as int),
            decreases self.commands.len() - i,
        {
            let line = to_chars(self.commands[i].as_str());
            if contains(&line, &needle) {
                let ghost before = hits_view(found@);
                found.push((i, &self.commands[i]));
                assert(hits_view(found@) =~= before.push((i as int, self@.entries[i as int])));
            }
            i += 1;
        }
        found
    }
}

} // verus!
