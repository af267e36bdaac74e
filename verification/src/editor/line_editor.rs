//! The line editor: a buffer of characters with a cursor, and what each key
//! does to them.
//!
//! The editor decides; the caller reads the keys and draws. Every position
//! counts characters, never bytes.

use super::completion::{
    common_prefix, common_prefix_of, dir_and_prefix, split_dir_prefix,
};
use crate::history::{History, HistoryView};
use crate::text::{
    char_is_whitespace, from_chars, is_whitespace, join, joined, same_text, slice_chars, splice,
    substring, to_chars,
};
use vstd::string::StringExecFns;
use vstd::utf8::encode_utf8;
use vstd::prelude::*;

verus! {

/// The index before `k` at which the whitespace that ends at `k` begins.
pub open spec fn back_over_space(s: Seq<char>, k: int) -> int
    decreases k,
{
    if 0 < k <= s.len() && is_whitespace(s[k - 1]) {
        back_over_space(s, k - 1)
    } else {
        k
    }
}

/// The index before `k` at which the word that ends at `k` begins.
pub open spec fn back_over_word(s: Seq<char>, k: int) -> int
    decreases k,
{
    if 0 < k <= s.len() && !is_whitespace(s[k - 1]) {
        back_over_word(s, k - 1)
    } else {
        k
    }
}

/// Neither step back leaves the text.
pub proof fn lemma_back_in_range(s: Seq<char>, k: int)
    requires
        0 <= k <= s.len(),
    ensures
        0 <= back_over_space(s, k) <= k,
        0 <= back_over_word(s, k) <= k,
    decreases k,
{
    if k > 0 {
        lemma_back_in_range(s, k - 1);
    }
}

/// What completion is asked for: the names that begin with `prefix`, among
/// the commands of the search path or among the entries of a directory.
pub struct RequestView {
    /// The commands of the search path are asked for, not files.
    pub search_path: bool,
    /// The directory part of the token, where it has one.
    pub dir: Option<Seq<char>>,
    pub prefix: Seq<char>,
}

/// The text that stands for the candidate `name` in the buffer: the
/// directory part of the token and a `/` go in front of it. The root
/// directory goes in front as the one `/` that it is, and the directory `.`
/// is left out.
pub open spec fn full_completion(dir: Option<Seq<char>>, name: Seq<char>) -> Seq<char> {
    match dir {
        Some(d) => if d == seq!['.'] {
            name
        } else if d == seq!['/'] {
            d + name
        } else {
            d + seq!['/'] + name
        },
        None => name,
    }
}

/// What a [`LineEditor`] holds: the characters of the line and the cursor,
/// as an index into them.
pub struct EditorView {
    pub buffer: Seq<char>,
    pub cursor: int,
}

impl EditorView {
    /// The cursor stands on a character or behind the last one.
    pub open spec fn wf(self) -> bool {
        0 <= self.cursor <= self.buffer.len()
    }

    /// The empty line.
    pub open spec fn empty() -> EditorView {
        EditorView { buffer: Seq::empty(), cursor: 0 }
    }

    /// The line `text` with the cursor at its end.
    pub open spec fn holding(text: Seq<char>) -> EditorView {
        EditorView { buffer: text, cursor: text.len() as int }
    }

    /// `c` put in at the cursor, which moves behind it.
    pub open spec fn insert(self, c: char) -> EditorView {
        EditorView { buffer: self.buffer.insert(self.cursor, c), cursor: self.cursor + 1 }
    }

    /// The character before the cursor taken out.
    pub open spec fn backspace(self) -> EditorView {
        if self.cursor > 0 {
            EditorView { buffer: self.buffer.remove(self.cursor - 1), cursor: self.cursor - 1 }
        } else {
            self
        }
    }

    /// The character under the cursor taken out.
    pub open spec fn delete(self) -> EditorView {
        if self.cursor < self.buffer.len() {
            EditorView { buffer: self.buffer.remove(self.cursor), ..self }
        } else {
            self
        }
    }

    /// The cursor one character to the left.
    pub open spec fn left(self) -> EditorView {
        if self.cursor > 0 {
            EditorView { cursor: self.cursor - 1, ..self }
        } else {
            self
        }
    }

    /// The cursor one character to the right.
    pub open spec fn right(self) -> EditorView {
        if self.cursor < self.buffer.len() {
            EditorView { cursor: self.cursor + 1, ..self }
        } else {
            self
        }
    }

    /// The cursor at the start of the line.
    pub open spec fn home(self) -> EditorView {
        EditorView { cursor: 0, ..self }
    }

    /// The cursor at the end of the line.
    pub open spec fn end(self) -> EditorView {
        EditorView { cursor: self.buffer.len() as int, ..self }
    }

    /// Everything from the cursor on taken out.
    pub open spec fn kill_to_end(self) -> EditorView {
        EditorView { buffer: self.buffer.subrange(0, self.cursor), ..self }
    }

    /// Everything before the cursor taken out.
    pub open spec fn kill_to_start(self) -> EditorView {
        EditorView {
            buffer: self.buffer.subrange(self.cursor, self.buffer.len() as int),
            cursor: 0,
        }
    }

    /// The index at which the word before the cursor ends: whitespace
    /// between it and the cursor is passed over.
    pub open spec fn word_end(self) -> int {
        back_over_space(self.buffer, self.cursor)
    }

    /// The index at which the word before the cursor begins.
    pub open spec fn word_start(self) -> int {
        back_over_word(self.buffer, self.word_end())
    }

    /// The word before the cursor taken out; whitespace between the word
    /// and the cursor stays, and the cursor moves to where the word began.
    pub open spec fn delete_word(self) -> EditorView {
        if self.cursor > 0 {
            EditorView {
                buffer: self.buffer.subrange(0, self.word_start()) + self.buffer.subrange(
                    self.word_end(),
                    self.buffer.len() as int,
                ),
                cursor: self.word_start(),
            }
        } else {
            self
        }
    }

    /// Whether the cursor stands between two characters.
    pub open spec fn can_transpose(self) -> bool {
        0 < self.cursor < self.buffer.len()
    }

    /// The characters on both sides of the cursor exchanged, and the cursor
    /// one to the right.
    pub open spec fn transpose(self) -> EditorView {
        if self.can_transpose() {
            EditorView {
                buffer: self.buffer.update(self.cursor - 1, self.buffer[self.cursor]).update(
                    self.cursor,
                    self.buffer[self.cursor - 1],
                ),
                cursor: self.cursor + 1,
            }
        } else {
            self
        }
    }

    /// The index at which the token under the cursor begins: behind the
    /// last whitespace before the cursor.
    pub open spec fn token_start(self) -> int {
        back_over_word(self.buffer, self.cursor)
    }

    /// The token under the cursor: the characters from the last whitespace
    /// up to the cursor.
    pub open spec fn token(self) -> Seq<char> {
        self.buffer.subrange(self.token_start(), self.cursor)
    }

    /// What completion the token under the cursor asks for: none where the
    /// token is empty; files of a directory where it holds a `/`; commands
    /// where it is the first word of the line; files of the current
    /// directory else.
    pub open spec fn request(self) -> Option<RequestView> {
        let token = self.token();
        if token.len() == 0 {
            None
        } else {
            match dir_and_prefix(token) {
                Some((dir, prefix)) => Some(
                    RequestView { search_path: false, dir: Some(dir), prefix },
                ),
                None => Some(
                    RequestView { search_path: self.token_start() == 0, dir: None, prefix: token },
                ),
            }
        }
    }

    /// The candidate that completion puts in for the token, given the
    /// matches that were found: their common prefix where it is longer than
    /// the prefix asked for, else the only match where there is just one.
    pub open spec fn choice(self, matches: Seq<Seq<char>>) -> Option<Seq<char>> {
        match self.request() {
            Some(request) => if matches.len() == 0 {
                None
            } else if common_prefix_of(matches).len() > request.prefix.len() {
                Some(full_completion(request.dir, common_prefix_of(matches)))
            } else if matches.len() == 1 {
                Some(full_completion(request.dir, matches[0]))
            } else {
                None
            },
            None => None,
        }
    }

    /// The line after completion with `matches`: the token gives way to the
    /// chosen text, and the cursor stands behind it.
    pub open spec fn complete(self, matches: Seq<Seq<char>>) -> EditorView {
        match self.choice(matches) {
            Some(text) => EditorView {
                buffer: self.buffer.subrange(0, self.token_start()) + text + self.buffer.subrange(
                    self.cursor,
                    self.buffer.len() as int,
                ),
                cursor: self.token_start() + text.len(),
            },
            None => self,
        }
    }

    /// Whether completion with `matches` changes the line.
    pub open spec fn completion_changes(self, matches: Seq<Seq<char>>) -> bool {
        match self.choice(matches) {
            Some(text) => text != self.token(),
            None => false,
        }
    }
}

/// The length of a text on the screen and whether the text ends inside an
/// escape sequence.
pub struct VisualScan {
    pub length: nat,
    pub in_escape: bool,
}

/// The scan of the first `n` characters of `s`. An escape sequence goes
/// from an escape character to the next `m` and takes no room.
pub open spec fn visual_scan(s: Seq<char>, n: int) -> VisualScan
    decreases n,
{
    if n <= 0 {
        VisualScan { length: 0, in_escape: false }
    } else {
        let before = visual_scan(s, n - 1);
        let c = s[n - 1];
        if c == '\x1b' {
            VisualScan { in_escape: true, ..before }
        } else if before.in_escape {
            VisualScan { in_escape: c != 'm', ..before }
        } else {
            VisualScan { length: before.length + 1, ..before }
        }
    }
}

/// The number of columns that `s` takes on the screen: its characters
/// without those of colour and style escape sequences.
pub open spec fn visual_length_of(s: Seq<char>) -> nat {
    visual_scan(s, s.len() as int).length
}

/// The visual length never exceeds the number of characters.
pub proof fn lemma_visual_scan_bound(s: Seq<char>, n: int)
    requires
        0 <= n,
    ensures
        visual_scan(s, n).length <= n,
    decreases n,
{
    if n > 0 {
        lemma_visual_scan_bound(s, n - 1);
    }
}

/// Counts the columns of `s` as [`visual_length_of`] says.
pub fn visual_length(s: &str) -> (n: usize)
    ensures
        n == visual_length_of(s@),
{
    let v = to_chars(s);
    let mut in_escape = false;
    let mut length: usize = 0;
    let mut i: usize = 0;
    while i < v.len()
        invariant
            0 <= i <= v.len(),
            length <= i,
            visual_scan(v@, i as int) == (VisualScan { length: length as nat, in_escape }),
        decreases v.len() - i,
    {
        let c = v[i];
        if c == '\x1b' {
            in_escape = true;
        } else if in_escape {
            if c == 'm' {
                in_escape = false;
            }
        } else {
            length += 1;
        }
        i += 1;
    }
    length
}

/// A key of the keyboard.
#[derive(Debug, Clone, Copy, PartialEq, Eq, Structural)]
pub enum Key {
    Enter,
    Backspace,
    Delete,
    Left,
    Right,
    Up,
    Down,
    Home,
    End,
    Tab,
    /// A key that stands for a character.
    Char(char),
    /// Any other key.
    Other,
}

/// A key with the modifiers held down while it was pressed.
#[derive(Debug, Clone, Copy, PartialEq, Eq, Structural)]
pub struct KeyPress {
    pub key: Key,
    pub shift: bool,
    pub control: bool,
    pub alt: bool,
    /// A modifier other than shift, control and alt.
    pub other: bool,
}

impl KeyPress {
    /// Whether the press is the character `c` with control and no other
    /// modifier.
    pub open spec fn is_control(self, c: char) -> bool {
        self.key == Key::Char(c) && self.control && !self.shift && !self.alt && !self.other
    }

    /// Whether the press has no modifier but, at most, shift.
    pub open spec fn is_plain(self) -> bool {
        !self.control && !self.alt && !self.other
    }
}

/// What completion is asked for, with its texts as strings.
#[derive(Debug)]
pub struct Request {
    /// The commands of the search path are asked for, not files.
    pub search_path: bool,
    /// The directory part of the token, where it has one.
    pub dir: Option<String>,
    pub prefix: String,
}

impl View for Request {
    type V = RequestView;

    open spec fn view(&self) -> RequestView {
        RequestView {
            search_path: self.search_path,
            dir: match self.dir {
                Some(d) => Some(d@),
                None => None,
            },
            prefix: self.prefix@,
        }
    }
}

/// What the caller does after a key.
#[derive(Debug)]
pub enum Action {
    /// Nothing.
    Nothing,
    /// Erase the line on the screen, print prompt and buffer again, and put
    /// the cursor in its column.
    Redraw,
    /// Put the cursor in its column.
    MoveCursor,
    /// Go to a new line on the screen and hand the submitted line on.
    Submit(String),
    /// Go to a new line on the screen and hand on an empty line.
    Cancel,
    /// Restore the terminal and end the program.
    Exit,
    /// Ring the bell.
    Bell,
    /// Clear the screen, then redraw.
    ClearScreen,
    /// Look up the candidates and hand them to the completion.
    Complete(Request),
}

/// An [`Action`] with its texts as character sequences.
pub enum ActionView {
    Nothing,
    Redraw,
    MoveCursor,
    Submit(Seq<char>),
    Cancel,
    Exit,
    Bell,
    ClearScreen,
    Complete(RequestView),
}

impl View for Action {
    type V = ActionView;

    open spec fn view(&self) -> ActionView {
        match *self {
            Action::Nothing => ActionView::Nothing,
            Action::Redraw => ActionView::Redraw,
            Action::MoveCursor => ActionView::MoveCursor,
            Action::Submit(line) => ActionView::Submit(line@),
            Action::Cancel => ActionView::Cancel,
            Action::Exit => ActionView::Exit,
            Action::Bell => ActionView::Bell,
            Action::ClearScreen => ActionView::ClearScreen,
            Action::Complete(request) => ActionView::Complete(request@),
        }
    }
}

/// What a key does: the editor and the history after it, and what the
/// caller does.
pub struct Effect {
    pub editor: EditorView,
    pub history: HistoryView,
    pub action: ActionView,
}

/// The effect of a key on the editor `e` with the history `h`.
///
/// The named keys act whatever the modifiers. A character with control
/// alone is a command; a character with no modifier, or with shift alone,
/// is put in; any other press does nothing.
pub open spec fn effect_of(e: EditorView, h: HistoryView, press: KeyPress) -> Effect {
    let stay = Effect { editor: e, history: h, action: ActionView::Nothing };
    let redraw = |editor: EditorView| Effect { editor, history: h, action: ActionView::Redraw };
    let moved = |editor: EditorView| Effect { editor, history: h, action: ActionView::MoveCursor };
    match press.key {
        Key::Enter => Effect { action: ActionView::Submit(e.buffer), ..stay },
        Key::Backspace => if e.cursor > 0 {
            redraw(e.backspace())
        } else {
            stay
        },
        Key::Delete => if e.cursor < e.buffer.len() {
            redraw(e.delete())
        } else {
            stay
        },
        Key::Left => if e.cursor > 0 {
            moved(e.left())
        } else {
            stay
        },
        Key::Right => if e.cursor < e.buffer.len() {
            moved(e.right())
        } else {
            stay
        },
        Key::Up => if h.position > 0 {
            Effect {
                editor: EditorView::holding(h.previous().selected()->0),
                history: h.previous(),
                action: ActionView::Redraw,
            }
        } else {
            stay
        },
        Key::Down => Effect {
            editor: match h.next().selected() {
                Some(line) => EditorView::holding(line),
                None => EditorView::empty(),
            },
            history: h.next(),
            action: ActionView::Redraw,
        },
        Key::Home => moved(e.home()),
        Key::End => moved(e.end()),
        Key::Tab => match e.request() {
            Some(request) => Effect { action: ActionView::Complete(request), ..stay },
            None => stay,
        },
        Key::Char(c) => if press.is_control('a') {
            moved(e.home())
        } else if press.is_control('e') {
            moved(e.end())
        } else if press.is_control('k') {
            redraw(e.kill_to_end())
        } else if press.is_control('u') {
            redraw(e.kill_to_start())
        } else if press.is_control('w') {
            if e.cursor > 0 {
                redraw(e.delete_word())
            } else {
                stay
            }
        } else if press.is_control('l') {
            Effect { action: ActionView::ClearScreen, ..stay }
        } else if press.is_control('c') {
            Effect { editor: EditorView::empty(), history: h, action: ActionView::Cancel }
        } else if press.is_control('d') {
            if e.buffer.len() == 0 {
                Effect { action: ActionView::Exit, ..stay }
            } else {
                stay
            }
        } else if press.is_control('y') {
            Effect { action: ActionView::Bell, ..stay }
        } else if press.is_control('t') {
            if e.can_transpose() {
                redraw(e.transpose())
            } else {
                stay
            }
        } else if press.is_plain() {
            redraw(e.insert(c))
        } else {
            stay
        },
        Key::Other => stay,
    }
}

/// The column of the cursor on the screen, behind a prompt of `prompt`
/// columns: the columns wrap around at 65536.
pub open spec fn column_of(prompt: nat, cursor: int) -> int {
    (prompt + cursor) % 0x10000
}

/// The line that lists the matches of a completion: the matches with four
/// spaces between each two of them.
pub open spec fn listing_of(matches: Seq<Seq<char>>) -> Seq<char> {
    joined(matches, seq![' ', ' ', ' ', ' '])
}

/// The number of bytes that the UTF-8 encoding of `c` takes.
pub open spec fn utf8_width(c: char) -> nat {
    if c as u32 <= 0x7f {
        1
    } else if c as u32 <= 0x7ff {
        2
    } else if c as u32 <= 0xffff {
        3
    } else {
        4
    }
}

/// The number of bytes that the UTF-8 encoding of `s` takes.
pub open spec fn utf8_len(s: Seq<char>) -> nat
    decreases s.len(),
{
    if s.len() == 0 {
        0
    } else {
        utf8_len(s.drop_last()) + utf8_width(s.last())
    }
}

/// The editor of one line.
pub struct LineEditor {
    buffer: Vec<char>,
    cursor_pos: usize,
}

impl View for LineEditor {
    type V = EditorView;

    closed spec fn view(&self) -> EditorView {
        EditorView { buffer: self.buffer@, cursor: self.cursor_pos as int }
    }
}

impl LineEditor {
    /// An editor with an empty line.
    pub fn new() -> (r: LineEditor)
        ensures
            r@ == EditorView::empty(),
            r@.wf(),
    {
        LineEditor { buffer: Vec::new(), cursor_pos: 0 }
    }

    /// Empties the line, as at the start of every read.
    pub fn reset(&mut self)
        ensures
            final(self)@ == EditorView::empty(),
            final(self)@.wf(),
    {
        self.buffer = Vec::new();
        self.cursor_pos = 0;
    }

    /// The line as a string.
    pub fn line(&self) -> (r: String)
        ensures
            r@ == self@.buffer,
    {
        from_chars(&self.buffer)
    }

    /// The cursor, as an index into the characters of the line.
    pub fn cursor(&self) -> (r: usize)
        ensures
            r == self@.cursor,
    {
        self.cursor_pos
    }

    /// The column in which the cursor belongs on the screen, behind the
    /// prompt.
    pub fn cursor_column(&self, prompt: &str) -> (column: u16)
        ensures
            column == column_of(visual_length_of(prompt@), self@.cursor),
    {
        let total: u128 = visual_length(prompt) as u128 + self.cursor_pos as u128;
        (total % 0x10000) as u16
    }

    /// The index of the byte at which character `char_pos` begins in the
    /// UTF-8 encoding of the line; the length of the encoding for a
    /// position behind the last character. A result that does not fit is
    /// the largest `usize`.
    pub fn byte_index_at_char_pos(&self, char_pos: usize) -> (index: usize)
        ensures
            ({
                let upto = if char_pos < self@.buffer.len() {
                    char_pos as int
                } else {
                    self@.buffer.len() as int
                };
                let bytes = utf8_len(self@.buffer.subrange(0, upto));
                index == if bytes <= usize::MAX {
                    bytes
                } else {
                    usize::MAX as nat
                }
            }),
    {
        let upto = if char_pos < self.buffer.len() {
            char_pos
        } else {
            self.buffer.len()
        };
        let mut bytes: usize = 0;
        let mut i: usize = 0;
        assert(self.buffer@.subrange(0, 0) =~= Seq::<char>::empty());
        while i < upto
            invariant
                0 <= i <= upto <= self.buffer.len(),
                upto == (if char_pos < self.buffer.len() {
                    char_pos
                } else {
                    self.buffer.len()
                }),
                bytes == utf8_len(self.buffer@.subrange(0, i as int)),
            decreases upto - i,
        {
            let c = self.buffer[i];
            let width: usize = if c as u32 <= 0x7f {
                1
            } else if c as u32 <= 0x7ff {
                2
            } else if c as u32 <= 0xffff {
                3
            } else {
                4
            };
            assert(self.buffer@.subrange(0, i + 1).drop_last() =~= self.buffer@.subrange(
                0,
                i as int,
            ));
            assert(width == utf8_width(self.buffer@.subrange(0, i + 1).last()));
            assert(utf8_len(self.buffer@.subrange(0, i + 1)) == bytes + width);
            if bytes > usize::MAX - width {
                proof {
                    lemma_utf8_len_grows(self.buffer@.subrange(0, upto as int), i + 1);
                    assert(self.buffer@.subrange(0, upto as int).subrange(0, i + 1)
                        =~= self.buffer@.subrange(0, i + 1));
                }
                return usize::MAX;
            }
            bytes += width;
            i += 1;
        }
        bytes
    }

    /// What completion the token under the cursor asks for.
    pub fn completion_request(&self) -> (r: Option<Request>)
        requires
            self@.wf(),
        ensures
            match r {
                Some(request) => self@.request() == Some(request@),
                None => self@.request() is None,
            },
    {
        let start = self.token_start();
        let token = substring(&self.buffer, start, self.cursor_pos);
        if token.as_str().is_empty() {
            return None;
        }
        match split_dir_prefix(token.as_str()) {
            Some((dir, prefix)) => Some(Request { search_path: false, dir: Some(dir), prefix }),
            None => Some(Request { search_path: start == 0, dir: None, prefix: token }),
        }
    }

    /// The index at which the token under the cursor begins.
    fn token_start(&self) -> (start: usize)
        requires
            self@.wf(),
        ensures
            start == self@.token_start(),
            start <= self@.cursor,
    {
        step_back(&self.buffer, self.cursor_pos, false)
    }

    /// The line that lists `matches` for the user, or `None` where there is
    /// at most one match and so nothing to choose from.
    pub fn completion_listing(matches: &Vec<String>) -> (r: Option<String>)
        ensures
            match r {
                Some(line) => matches.len() > 1 && line@ == listing_of(matches.deep_view()),
                None => matches.len() <= 1,
            },
    {
        if matches.len() > 1 {
            let line = join(matches, "    ");
            proof {
                reveal_strlit("    ");
                assert("    "@ =~= seq![' ', ' ', ' ', ' ']);
            }
            Some(line)
        } else {
            None
        }
    }

    /// Completes the token under the cursor from the matches that were
    /// found for its request, and tells whether the line changed.
    pub fn apply_completion(&mut self, matches: &Vec<String>) -> (changed: bool)
        requires
            old(self)@.wf(),
        ensures
            final(self)@ == old(self)@.complete(matches.deep_view()),
            changed == old(self)@.completion_changes(matches.deep_view()),
            changed == (final(self)@ != old(self)@),
            final(self)@.wf(),
    {
        let ghost e = self@;
        let ghost found = matches.deep_view();
        proof {
            lemma_completion_changes(e, found);
        }
        let request = match self.completion_request() {
            Some(request) => request,
            None => {
                return false;
            },
        };
        if matches.len() == 0 {
            return false;
        }
        let common = common_prefix(matches);
        let name: String = if common.as_str().unicode_len() > request.prefix.as_str().unicode_len() {
            common
        } else if matches.len() == 1 {
            matches[0].clone()
        } else {
            return false;
        };
        let text: String = match &request.dir {
            Some(dir) => {
                proof {
                    reveal_strlit(".");
                    assert("."@ =~= seq!['.']);
                }
                proof {
                    reveal_strlit("/");
                    assert("/"@ =~= seq!['/']);
                }
                if same_text(dir.as_str(), ".") {
                    name
                } else if same_text(dir.as_str(), "/") {
                    let mut full = dir.clone();
                    full.append(name.as_str());
                    full
                } else {
                    let mut full = dir.clone();
                    full.push('/');
                    full.append(name.as_str());
                    assert(full@ =~= dir@ + seq!['/'] + name@);
                    full
                }
            },
            None => name,
        };
        assert(e.choice(found) == Some(text@));
        let start = self.token_start();
        let token = slice_chars(&self.buffer, start, self.cursor_pos);
        let with = to_chars(text.as_str());
        let changed = !crate::editor::completion::text_eq(&with, &token);
        let buffer = splice(&self.buffer, start, self.cursor_pos, &with);
        assert(buffer.len() == start + with.len() + (self.buffer.len() - self.cursor_pos));
        self.buffer = buffer;
        self.cursor_pos = start + with.len();
        changed
    }

    /// Takes a key and says what the caller is to do.
    pub fn handle_key(&mut self, press: KeyPress, history: &mut History) -> (action: Action)
        requires
            old(self)@.wf(),
            old(history)@.wf(),
        ensures
            final(self)@ == effect_of(old(self)@, old(history)@, press).editor,
            final(history)@ == effect_of(old(self)@, old(history)@, press).history,
            action@ == effect_of(old(self)@, old(history)@, press).action,
            final(self)@.wf(),
            final(history)@.wf(),
    {
        let ghost e = self@;
        let n = self.buffer.len();
        let control = press.control && !press.shift && !press.alt && !press.other;
        let plain = !press.control && !press.alt && !press.other;
        match press.key {
            Key::Enter => Action::Submit(self.line()),
            Key::Backspace => {
                if self.cursor_pos > 0 {
                    self.cursor_pos -= 1;
                    self.buffer.remove(self.cursor_pos);
                    Action::Redraw
                } else {
                    Action::Nothing
                }
            },
            Key::Delete => {
                if self.cursor_pos < n {
                    self.buffer.remove(self.cursor_pos);
                    Action::Redraw
                } else {
                    Action::Nothing
                }
            },
            Key::Left => {
                if self.cursor_pos > 0 {
                    self.cursor_pos -= 1;
                    Action::MoveCursor
                } else {
                    Action::Nothing
                }
            },
            Key::Right => {
                if self.cursor_pos < n {
                    self.cursor_pos += 1;
                    Action::MoveCursor
                } else {
                    Action::Nothing
                }
            },
            Key::Up => {
                match history.previous() {
                    Some(entry) => {
                        self.buffer = to_chars(entry.as_str());
                        self.cursor_pos = self.buffer.len();
                        Action::Redraw
                    },
                    None => Action::Nothing,
                }
            },
            Key::Down => {
                match history.next() {
                    Some(entry) => {
                        self.buffer = to_chars(entry.as_str());
                        self.cursor_pos = self.buffer.len();
                    },
                    None => {
                        self.buffer = Vec::new();
                        self.cursor_pos = 0;
                    },
                }
                Action::Redraw
            },
            Key::Home => {
                self.cursor_pos = 0;
                Action::MoveCursor
            },
            Key::End => {
                self.cursor_pos = n;
                Action::MoveCursor
            },
            Key::Tab => {
                match self.completion_request() {
                    Some(request) => Action::Complete(request),
                    None => Action::Nothing,
                }
            },
            Key::Char(c) => {
                if control && c == 'a' {
                    self.cursor_pos = 0;
                    Action::MoveCursor
                } else if control && c == 'e' {
                    self.cursor_pos = n;
                    Action::MoveCursor
                } else if control && c == 'k' {
                    self.buffer.truncate(self.cursor_pos);
                    Action::Redraw
                } else if control && c == 'u' {
                    let rest = slice_chars(&self.buffer, self.cursor_pos, n);
                    self.buffer = rest;
                    self.cursor_pos = 0;
                    Action::Redraw
                } else if control && c == 'w' {
                    if self.cursor_pos > 0 {
                        let word_end = step_back(&self.buffer, self.cursor_pos, true);
                        let word_start = step_back(&self.buffer, word_end, false);
                        let nothing: Vec<char> = Vec::new();
                        let buffer = splice(&self.buffer, word_start, word_end, &nothing);
                        assert(buffer@ =~= e.delete_word().buffer);
                        self.buffer = buffer;
                        self.cursor_pos = word_start;
                        Action::Redraw
                    } else {
                        Action::Nothing
                    }
                } else if control && c == 'l' {
                    Action::ClearScreen
                } else if control && c == 'c' {
                    self.buffer = Vec::new();
                    self.cursor_pos = 0;
                    Action::Cancel
                } else if control && c == 'd' {
                    if n == 0 {
                        Action::Exit
                    } else {
                        Action::Nothing
                    }
                } else if control && c == 'y' {
                    Action::Bell
                } else if control && c == 't' {
                    if self.cursor_pos > 0 && self.cursor_pos < n {
                        let left = self.buffer.remove(self.cursor_pos - 1);
                        self.buffer.insert(self.cursor_pos, left);
                        assert(self.buffer@ =~= e.transpose().buffer);
                        self.cursor_pos += 1;
                        Action::Redraw
                    } else {
                        Action::Nothing
                    }
                } else if plain {
                    self.buffer.insert(self.cursor_pos, c);
                    assert(self.buffer.len() == n + 1);
                    self.cursor_pos += 1;
                    Action::Redraw
                } else {
                    Action::Nothing
                }
            },
            Key::Other => Action::Nothing,
        }
    }
}

/// Steps back from index `from` over whitespace (`over_space`) or over the
/// characters of a word.
fn step_back(v: &Vec<char>, from: usize, over_space: bool) -> (k: usize)
    requires
        from <= v.len(),
    ensures
        k <= from,
        over_space ==> k == back_over_space(v@, from as int),
        !over_space ==> k == back_over_word(v@, from as int),
{
    let mut k: usize = from;
    while k > 0 && char_is_whitespace(v[k - 1]) == over_space
        invariant
            0 <= k <= from <= v.len(),
            over_space ==> back_over_space(v@, k as int) == back_over_space(v@, from as int),
            !over_space ==> back_over_word(v@, k as int) == back_over_word(v@, from as int),
        decreases k,
    {
        k -= 1;
    }
    k
}

/// A longer text takes no fewer bytes than its beginning.
pub proof fn lemma_utf8_len_grows(s: Seq<char>, k: int)
    requires
        0 <= k <= s.len(),
    ensures
        utf8_len(s.subrange(0, k)) <= utf8_len(s),
    decreases s.len(),
{
    if k == s.len() {
        assert(s.subrange(0, k) =~= s);
    } else {
        assert(s.drop_last().subrange(0, k) =~= s.subrange(0, k));
        lemma_utf8_len_grows(s.drop_last(), k);
    }
}

/// [`utf8_len`] is the length of the UTF-8 encoding.
pub proof fn lemma_utf8_len_is_encoding_length(s: Seq<char>)
    ensures
        utf8_len(s) == encode_utf8(s).len(),
    decreases s.len(),
{
    if s.len() > 0 {
        lemma_utf8_len_is_encoding_length(s.drop_last());
        lemma_encoding_length_of_push(s.drop_last(), s.last());
        assert(s.drop_last().push(s.last()) =~= s);
    }
}

/// One more character lengthens the encoding by its width.
proof fn lemma_encoding_length_of_push(s: Seq<char>, c: char)
    ensures
        encode_utf8(s.push(c)).len() == encode_utf8(s).len() + utf8_width(c),
    decreases s.len(),
{
    if s.len() == 0 {
        assert(s.push(c).drop_first() =~= Seq::<char>::empty());
        assert(encode_utf8(s.push(c).drop_first()).len() == 0);
    } else {
        assert(s.push(c).drop_first() =~= s.drop_first().push(c));
        lemma_encoding_length_of_push(s.drop_first(), c);
    }
}

/// Completion changes the line exactly when it is said to.
pub proof fn lemma_completion_changes(e: EditorView, matches: Seq<Seq<char>>)
    requires
        e.wf(),
    ensures
        e.completion_changes(matches) == (e.complete(matches) != e),
        e.complete(matches).wf(),
{
    lemma_back_in_range(e.buffer, e.cursor);
    match e.choice(matches) {
        Some(text) => {
            let start = e.token_start();
            let after = e.complete(matches);
            let pre = e.buffer.subrange(0, start);
            let post = e.buffer.subrange(e.cursor, e.buffer.len() as int);
            assert(e.buffer =~= pre + e.token() + post);
            if text == e.token() {
                assert(after.buffer =~= e.buffer);
            } else if after.buffer == e.buffer {
                if text.len() == e.token().len() {
                    assert(text =~= after.buffer.subrange(start, start + text.len()));
                    assert(e.token() =~= e.buffer.subrange(start, start + text.len()));
                } else {
                    assert(after.buffer.len() == pre.len() + text.len() + post.len());
                }
            }
        },
        None => {},
    }
}

/// Completion is idempotent: where the only match, completed, is the token
/// that stands there already, the line stays as it is and no change is
/// reported.
pub proof fn lemma_completion_idempotent(e: EditorView, matches: Seq<Seq<char>>)
    requires
        e.wf(),
        e.request() is Some,
        matches.len() == 1,
        full_completion(e.request()->0.dir, matches[0]) == e.token(),
    ensures
        e.complete(matches) == e,
        !e.completion_changes(matches),
{
    lemma_completion_changes(e, matches);
    assert(common_prefix_of(matches) =~= matches[0]);
}

/// What the keys do keeps the cursor inside the line, and backspace undoes
/// the character that was put in last.
pub proof fn lemma_edits(e: EditorView, c: char)
    requires
        e.wf(),
    ensures
        e.insert(c).wf(),
        e.backspace().wf(),
        e.delete().wf(),
        e.left().wf(),
        e.right().wf(),
        e.home().wf(),
        e.end().wf(),
        e.kill_to_end().wf(),
        e.kill_to_start().wf(),
        e.delete_word().wf(),
        e.transpose().wf(),
        e.insert(c).backspace() == e,
        e.insert(c).buffer.len() == e.buffer.len() + 1,
        e.insert(c).buffer[e.cursor] == c,
{
    lemma_back_in_range(e.buffer, e.cursor);
    lemma_back_in_range(e.buffer, e.word_end());
    assert(e.buffer.insert(e.cursor, c).remove(e.cursor) =~= e.buffer);
}

} // verus!
