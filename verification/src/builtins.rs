//! What the built-in commands compute, and the texts that the shell prints
//! about the commands it ran.

use crate::command::Command;
use crate::editor::completion::{
    entries_view, lemma_lex_total, lemma_lex_transitive, lex_le, text_le, Entry, EntryView,
};
use crate::text::{decimal_digits, join, joined, push_decimal, to_chars};
use vstd::prelude::*;
use vstd::string::StringExecFns;

verus! {

impl Command {
    /// Whether the session goes on after this command: it does unless the
    /// command is `exit`.
    pub fn keeps_running(&self) -> (r: bool)
        ensures
            r == !(self@ is Exit),
    {
        match self {
            Command::Exit => false,
            _ => true,
        }
    }
}

/// The directory that `cd` changes to: the one named, else the home
/// directory, else the root.
pub open spec fn cd_target_of(path: Option<Seq<char>>, home: Option<Seq<char>>) -> Seq<char> {
    match path {
        Some(p) => p,
        None => match home {
            Some(h) => h,
            None => seq!['/'],
        },
    }
}

/// The directory that `cd` changes to, given the variable `HOME`.
pub fn cd_target(path: &Option<String>, home: &Option<String>) -> (r: String)
    ensures
        r@ == cd_target_of(
            match *path {
                Some(p) => Some(p@),
                None => None,
            },
            match *home {
                Some(h) => Some(h@),
                None => None,
            },
        ),
{
    match path {
        Some(p) => p.clone(),
        None => match home {
            Some(h) => h.clone(),
            None => {
                let mut root = String::new();
                root.push('/');
                assert(root@ =~= seq!['/']);
                root
            },
        },
    }
}

/// The line that `echo` prints: its arguments with one space between each
/// two.
pub fn echo_line(args: &Vec<String>) -> (r: String)
    ensures
        r@ == joined(args.deep_view(), seq![' ']),
{
    proof {
        reveal_strlit(" ");
        assert(" "@ =~= seq![' ']);
    }
    join(args, " ")
}

/// The command line of an external command, as the job table keeps it: the
/// program, a space, and the arguments with one space between each two.
pub fn command_line(program: &str, args: &Vec<String>) -> (r: String)
    ensures
        r@ == program@ + seq![' '] + joined(args.deep_view(), seq![' ']),
{
    let mut r = String::new();
    r.append(program);
    r.push(' ');
    let rest = echo_line(args);
    r.append(rest.as_str());
    assert(r@ =~= program@ + seq![' '] + joined(args.deep_view(), seq![' ']));
    r
}

/// The decimal digits of `n`, with `-` in front of a negative number.
pub open spec fn signed_digits(n: int) -> Seq<char> {
    if n < 0 {
        seq!['-'] + decimal_digits((-n) as nat)
    } else {
        decimal_digits(n as nat)
    }
}

/// Appends `n` in decimal.
fn push_signed(out: &mut String, n: i32)
    ensures
        final(out)@ == old(out)@ + signed_digits(n as int),
{
    if n < 0 {
        out.push('-');
        let magnitude: u64 = (-(n as i64)) as u64;
        push_decimal(out, magnitude);
        assert(out@ =~= old(out)@ + signed_digits(n as int));
    } else {
        push_decimal(out, n as u64);
    }
}

/// What is said of a program that ended with the exit code `code`:
/// `program: exited with code N`.
pub open spec fn exit_text(program: Seq<char>, code: int) -> Seq<char> {
    program + ": exited with code "@ + signed_digits(code)
}

/// What is said of a program that ended with the exit code `code`.
pub fn exit_message(program: &str, code: i32) -> (r: String)
    ensures
        r@ == exit_text(program@, code as int),
{
    let mut r = String::new();
    r.append(program);
    r.append(": exited with code ");
    push_signed(&mut r, code);
    assert(r@ =~= exit_text(program@, code as int));
    r
}

/// What is said where `what` failed because of `cause`: `what: cause`.
pub fn error_message(what: &str, cause: &str) -> (r: String)
    ensures
        r@ == what@ + seq![':', ' '] + cause@,
{
    let mut r = String::new();
    r.append(what);
    r.push(':');
    r.push(' ');
    r.append(cause);
    assert(r@ =~= what@ + seq![':', ' '] + cause@);
    r
}

/// What is said of a program in a subshell that ended with the exit code
/// `code`: `'program' failed with exit code N`.
pub open spec fn subshell_exit_text(program: Seq<char>, code: int) -> Seq<char> {
    seq!['\''] + program + "' failed with exit code "@ + signed_digits(code)
}

/// What is said of a program in a subshell that ended with the exit code
/// `code`; a program that a signal ended has the code -1.
pub fn subshell_exit_message(program: &str, code: Option<i32>) -> (r: String)
    ensures
        r@ == subshell_exit_text(
            program@,
            match code {
                Some(c) => c as int,
                None => -1,
            },
        ),
{
    let mut r = String::new();
    r.push('\'');
    r.append(program);
    r.append("' failed with exit code ");
    let shown: i32 = match code {
        Some(c) => c,
        None => -1,
    };
    push_signed(&mut r, shown);
    assert(r@ =~= subshell_exit_text(program@, shown as int));
    r
}

/// What is said of a program in a subshell that could not be started:
/// `Failed to execute 'program': cause`.
pub open spec fn subshell_launch_text(program: Seq<char>, cause: Seq<char>) -> Seq<char> {
    "Failed to execute '"@ + program + seq!['\'', ':', ' '] + cause
}

/// What is said of a program in a subshell that could not be started.
pub fn subshell_launch_message(program: &str, cause: &str) -> (r: String)
    ensures
        r@ == subshell_launch_text(program@, cause@),
{
    let mut r = String::new();
    r.append("Failed to execute '");
    r.append(program);
    r.push('\'');
    r.push(':');
    r.push(' ');
    r.append(cause);
    assert(r@ =~= subshell_launch_text(program@, cause@));
    r
}

/// The width of a column of a directory listing.
pub const COLUMN_WIDTH: usize = 20;

/// The number of columns of a directory listing.
pub const COLUMNS: usize = 4;

/// `name` with spaces behind it up to the width of a column; a longer name
/// stays as it is.
pub open spec fn padded(name: Seq<char>) -> Seq<char> {
    if name.len() >= COLUMN_WIDTH {
        name
    } else {
        name + Seq::new((COLUMN_WIDTH - name.len()) as nat, |i: int| ' ')
    }
}

/// The cell of an entry in a listing: its padded name, in blue for a
/// directory.
pub open spec fn cell(e: EntryView) -> Seq<char> {
    if e.is_dir {
        seq!['\x1b', '[', '3', '4', 'm'] + padded(e.name) + seq!['\x1b', '[', '0', 'm']
    } else {
        padded(e.name)
    }
}

/// The cells of the first `n` of `items`, with a line break behind every
/// fourth.
pub open spec fn grid(items: Seq<EntryView>, n: int) -> Seq<char>
    decreases n,
{
    if n <= 0 {
        Seq::empty()
    } else if n % (COLUMNS as int) == 0 {
        grid(items, n - 1) + cell(items[n - 1]) + seq!['\n']
    } else {
        grid(items, n - 1) + cell(items[n - 1])
    }
}

/// The listing of `items`, in their order: the grid of their cells and a
/// line break.
pub open spec fn listing_of(items: Seq<EntryView>) -> Seq<char> {
    grid(items, items.len() as int) + seq!['\n']
}

/// Whether `order` holds the entries `all` in the order of their names,
/// entries of one name in the order in which `all` holds them. `from` gives,
/// for each place in `order`, the index in `all` of the entry that stands
/// there.
pub open spec fn is_listing_order(order: Seq<EntryView>, from: Seq<int>, all: Seq<EntryView>) -> bool {
    &&& order.len() == all.len()
    &&& from.len() == all.len()
    &&& forall|i: int|
        0 <= i < order.len() ==> 0 <= #[trigger] from[i] < all.len() && order[i] == all[from[i]]
    &&& forall|i: int, j: int|
        #![trigger order[i], order[j]]
        0 <= i < j < order.len() ==> lex_le(order[i].name, order[j].name) && (order[i].name
            == order[j].name ==> from[i] < from[j])
}

/// An entry with its name as characters.
struct Item {
    name: Vec<char>,
    is_dir: bool,
}

impl View for Item {
    type V = EntryView;

    closed spec fn view(&self) -> EntryView {
        EntryView { name: self.name@, is_dir: self.is_dir }
    }
}

/// The views of the items `v`.
spec fn items_view(v: Seq<Item>) -> Seq<EntryView> {
    Seq::new(v.len(), |i: int| v[i]@)
}

/// Puts `item` into the list `out` behind the last item whose name is not
/// behind its own, and returns the place.
fn insert_item(out: &mut Vec<Item>, item: Item) -> (pos: usize)
    requires
        forall|i: int, j: int|
            #![trigger items_view(old(out)@)[i], items_view(old(out)@)[j]]
            0 <= i < j < old(out).len() ==> lex_le(
                items_view(old(out)@)[i].name,
                items_view(old(out)@)[j].name,
            ),
    ensures
        pos <= old(out).len(),
        items_view(final(out)@) == items_view(old(out)@).insert(pos as int, item@),
        forall|j: int| 0 <= j < pos ==> lex_le((#[trigger] items_view(old(out)@)[j]).name, item@.name),
        forall|j: int|
            pos <= j < old(out).len() ==> lex_le(item@.name, (#[trigger] items_view(old(out)@)[j]).name)
                && items_view(old(out)@)[j].name != item@.name,
{
    let ghost before = items_view(out@);
    let ghost x = item@;
    let n = out.len();
    let mut pos: usize = 0;
    while pos < n && text_le(&out[pos].name, &item.name)
        invariant
            0 <= pos <= n,
            n == out.len(),
            before == items_view(out@),
            x == item@,
            forall|j: int| 0 <= j < pos ==> lex_le((#[trigger] before[j]).name, x.name),
        decreases n - pos,
    {
        assert(before[pos as int] == out@[pos as int]@);
        pos += 1;
    }
    proof {
        if pos < n {
            assert(before[pos as int] == out@[pos as int]@);
            lemma_lex_total(before[pos as int].name, x.name);
            assert forall|j: int| pos <= j < n implies lex_le(x.name, (#[trigger] before[j]).name)
                && before[j].name != x.name by {
                if j > pos {
                    assert(lex_le(before[pos as int].name, before[j].name));
                    lemma_lex_transitive(x.name, before[pos as int].name, before[j].name);
                    if before[j].name == x.name {
                        // then the name at `pos` would not be behind `x` after all
                        assert(lex_le(before[pos as int].name, x.name));
                    }
                }
            }
        }
    }
    out.insert(pos, item);
    assert(items_view(out@) =~= before.insert(pos as int, x));
    pos
}

/// The text that `ls` prints for the entries of a directory: the entries
/// in the order of their names, four to a line in columns of twenty
/// characters, the directories in blue.
pub fn ls_listing(entries: &Vec<Entry>) -> (r: String)
    ensures
        exists|order: Seq<EntryView>, from: Seq<int>|
            #[trigger] is_listing_order(order, from, entries_view(entries@)) && r@ == listing_of(
                order,
            ),
{
    let ghost all = entries_view(entries@);
    let mut items: Vec<Item> = Vec::new();
    let ghost mut from: Seq<int> = Seq::empty();
    let mut i: usize = 0;
    assert(items_view(items@) =~= Seq::<EntryView>::empty());
    while i < entries.len()
        invariant
            0 <= i <= entries.len(),
            all == entries_view(entries@),
            items.len() == i,
            is_listing_order(items_view(items@), from, all.take(i as int)),
        decreases entries.len() - i,
    {
        let ghost before = items_view(items@);
        let ghost before_from = from;
        let item = Item { name: to_chars(entries[i].name.as_str()), is_dir: entries[i].is_dir };
        let ghost x = item@;
        assert(x == all[i as int]);
        let pos = insert_item(&mut items, item);
        proof {
            from = before_from.insert(pos as int, i as int);
            let after = items_view(items@);
            assert(after.len() == items@.len());
            assert(before.len() == i);
            assert forall|k: int| 0 <= k < after.len() implies 0 <= #[trigger] from[k] < i + 1
                && after[k] == all.take(i + 1)[from[k]] by {
                if k < pos {
                    assert(after[k] == before[k] && from[k] == before_from[k]);
                    assert(before[k] == all.take(i as int)[before_from[k]]);
                } else if k > pos {
                    assert(after[k] == before[k - 1] && from[k] == before_from[k - 1]);
                    assert(before[k - 1] == all.take(i as int)[before_from[k - 1]]);
                }
            }
            assert forall|a: int, b: int|
                #![trigger after[a], after[b]]
                0 <= a < b < after.len() implies lex_le(after[a].name, after[b].name) && (
            after[a].name == after[b].name ==> from[a] < from[b]) by {
                if b < pos {
                    assert(after[a] == before[a] && after[b] == before[b]);
                } else if b == pos {
                    assert(after[a] == before[a]);
                    assert(0 <= before_from[a] < i);
                } else if a < pos {
                    assert(after[a] == before[a] && after[b] == before[b - 1]);
                } else if a == pos {
                    assert(after[b] == before[b - 1]);
                } else {
                    assert(after[a] == before[a - 1] && after[b] == before[b - 1]);
                }
            }
        }
        i += 1;
    }
    assert(all.take(entries.len() as int) =~= all);
    let ghost order = items_view(items@);
    let mut r = String::new();
    let mut k: usize = 0;
    while k < items.len()
        invariant
            0 <= k <= items.len(),
            order == items_view(items@),
            r@ == grid(order, k as int),
        decreases items.len() - k,
    {
        let item = &items[k];
        let ghost before = r@;
        assert(order[k as int] == item@);
        if item.is_dir {
            r.append("\x1b[34m");
        }
        let ghost colour = r@;
        let mut col: usize = 0;
        while col < item.name.len()
            invariant
                0 <= col <= item.name.len(),
                r@ == colour + item.name@.subrange(0, col as int),
            decreases item.name.len() - col,
        {
            r.push(item.name[col]);
            assert(item.name@.subrange(0, col + 1) =~= item.name@.subrange(0, col as int).push(
                item.name@[col as int],
            ));
            assert(r@ =~= colour + item.name@.subrange(0, col + 1));
            col += 1;
        }
        assert(item.name@.subrange(0, item.name.len() as int) =~= item.name@);
        let ghost named = r@;
        let mut width: usize = item.name.len();
        while width < COLUMN_WIDTH
            invariant
                item.name.len() <= width,
                width <= COLUMN_WIDTH || width == item.name.len(),
                r@ == named + Seq::new((width - item.name.len()) as nat, |i: int| ' '),
            decreases COLUMN_WIDTH - width,
        {
            r.push(' ');
            assert(r@ =~= named + Seq::new((width + 1 - item.name.len()) as nat, |i: int| ' '));
            width += 1;
        }
        assert(r@ =~= colour + padded(item.name@));
        if item.is_dir {
            r.append("\x1b[0m");
        }
        proof {
            reveal_strlit("\x1b[34m");
            reveal_strlit("\x1b[0m");
            assert("\x1b[34m"@ =~= seq!['\x1b', '[', '3', '4', 'm']);
            assert("\x1b[0m"@ =~= seq!['\x1b', '[', '0', 'm']);
            assert(r@ =~= before + cell(order[k as int]));
        }
        if (k + 1) % COLUMNS == 0 {
            r.push('\n');
        }
        assert(r@ =~= grid(order, k + 1));
        k += 1;
    }
    r.push('\n');
    assert(r@ =~= listing_of(order));
    assert(is_listing_order(order, from, entries_view(entries@)));
    r
}

/// The text that `help` prints, line by line.
pub open spec fn help_lines() -> Seq<Seq<char>> {
    seq![
        "Available commands:"@,
        "  cd [path]       - Change directory"@,
        "  pwd             - Print working directory"@,
        "  ls [path]       - List directory contents"@,
        "  cat <file>      - Display file contents"@,
        "  mkdir <dir>     - Create directory"@,
        "  rm <file>       - Remove file"@,
        "  touch <file>    - Create empty file"@,
        "  echo [args...]  - Print arguments"@,
        "  export NAME=VALUE - Set environment variable"@,
        "  clear           - Clear screen"@,
        "  history         - Show command history"@,
        "  jobs            - List background jobs"@,
        "  fg [job_id]     - Bring job to foreground"@,
        "  bg [job_id]     - Resume job in background"@,
        "  exit            - Exit shell"@,
        ""@,
        "Features:"@,
        "  - Quotes: echo \"hello world\" or echo 'single quotes'"@,
        "  - Subshells: echo $(pwd) or echo $(ls)"@,
        "  - Background: command &"@,
        "  - Pipes: command1 | command2"@,
    ]
}

/// The text that `help` prints, line by line.
pub fn help_text() -> (lines: Vec<String>)
    ensures
        lines.deep_view() == help_lines(),
{
    let mut lines: Vec<String> = Vec::new();
    lines.push("Available commands:".to_owned());
    lines.push("  cd [path]       - Change directory".to_owned());
    lines.push("  pwd             - Print working directory".to_owned());
    lines.push("  ls [path]       - List directory contents".to_owned());
    lines.push("  cat <file>      - Display file contents".to_owned());
    lines.push("  mkdir <dir>     - Create directory".to_owned());
    lines.push("  rm <file>       - Remove file".to_owned());
    lines.push("  touch <file>    - Create empty file".to_owned());
    lines.push("  echo [args...]  - Print arguments".to_owned());
    lines.push("  export NAME=VALUE - Set environment variable".to_owned());
    lines.push("  clear           - Clear screen".to_owned());
    lines.push("  history         - Show command history".to_owned());
    lines.push("  jobs            - List background jobs".to_owned());
    lines.push("  fg [job_id]     - Bring job to foreground".to_owned());
    lines.push("  bg [job_id]     - Resume job in background".to_owned());
    lines.push("  exit            - Exit shell".to_owned());
    lines.push("".to_owned());
    lines.push("Features:".to_owned());
    lines.push("  - Quotes: echo \"hello world\" or echo 'single quotes'".to_owned());
    lines.push("  - Subshells: echo $(pwd) or echo $(ls)".to_owned());
    lines.push("  - Background: command &".to_owned());
    lines.push("  - Pipes: command1 | command2".to_owned());
    assert(lines.deep_view() =~= help_lines());
    lines
}

/// The escape sequences that clear the screen and put the cursor in its
/// upper left corner.
pub fn clear_sequence() -> (r: String)
    ensures
        r@ == seq!['\x1b', '[', '2', 'J', '\x1b', '[', 'H'],
{
    let mut r = String::new();
    r.push('\x1b');
    r.push('[');
    r.push('2');
    r.push('J');
    r.push('\x1b');
    r.push('[');
    r.push('H');
    assert(r@ =~= seq!['\x1b', '[', '2', 'J', '\x1b', '[', 'H']);
    r
}

} // verus!
