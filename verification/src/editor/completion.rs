//! Completion of file names and command names: choosing the candidates
//! among directory entries, ordering them, and their longest common prefix.

use crate::text::{from_chars, substring, to_chars};
use vstd::prelude::*;

verus! {

/// The index of the last `c` in `s`, or -1 where there is none.
pub open spec fn last_index(s: Seq<char>, c: char) -> int
    decreases s.len(),
{
    if s.len() == 0 {
        -1
    } else if s.last() == c {
        s.len() - 1
    } else {
        last_index(s.drop_last(), c)
    }
}

/// [`last_index`] is in range, points at a `c` unless it is -1, and no `c`
/// stands behind it.
pub proof fn lemma_last_index(s: Seq<char>, c: char)
    ensures
        -1 <= last_index(s, c) < s.len(),
        last_index(s, c) >= 0 ==> s[last_index(s, c)] == c,
        forall|j: int| last_index(s, c) < j < s.len() ==> s[j] != c,
    decreases s.len(),
{
    if s.len() > 0 && s.last() != c {
        lemma_last_index(s.drop_last(), c);
        assert forall|j: int| last_index(s, c) < j < s.len() implies s[j] != c by {
            if j < s.len() - 1 {
                assert(s.drop_last()[j] == s[j]);
            }
        }
    }
}

/// The directory and the name prefix of the path `s`, split at its last
/// `/`: the directory of a path that begins with its only `/` is `/`
/// itself. `None` for a path without `/`.
pub open spec fn dir_and_prefix(s: Seq<char>) -> Option<(Seq<char>, Seq<char>)> {
    let k = last_index(s, '/');
    if k < 0 {
        None
    } else {
        Some(
            (
                if k == 0 {
                    seq!['/']
                } else {
                    s.subrange(0, k)
                },
                s.subrange(k + 1, s.len() as int),
            ),
        )
    }
}

/// Splits a path at its last `/` into directory and name prefix.
pub fn split_dir_prefix(path: &str) -> (r: Option<(String, String)>)
    ensures
        match r {
            Some(p) => dir_and_prefix(path@) == Some((p.0@, p.1@)),
            None => dir_and_prefix(path@) is None,
        },
{
    let v = to_chars(path);
    let mut k: usize = v.len();
    assert(v@.subrange(0, v.len() as int) =~= v@);
    while k > 0 && v[k - 1] != '/'
        invariant
            0 <= k <= v.len(),
            last_index(v@, '/') == last_index(v@.subrange(0, k as int), '/'),
        decreases k,
    {
        assert(v@.subrange(0, k as int).drop_last() =~= v@.subrange(0, k - 1));
        k -= 1;
    }
    if k == 0 {
        None
    } else {
        let idx = k - 1;
        let dir = if idx == 0 {
            let mut d = String::new();
            d.push('/');
            assert(d@ =~= seq!['/']);
            d
        } else {
            substring(&v, 0, idx)
        };
        let prefix = substring(&v, idx + 1, v.len());
        Some((dir, prefix))
    }
}

/// Whether `p` is a prefix of `s`.
pub open spec fn is_prefix(p: Seq<char>, s: Seq<char>) -> bool {
    p.len() <= s.len() && s.subrange(0, p.len() as int) == p
}

/// Whether `p` is a prefix of every one of `strings`.
pub open spec fn is_common_prefix(p: Seq<char>, strings: Seq<Seq<char>>) -> bool {
    forall|i: int| 0 <= i < strings.len() ==> is_prefix(p, #[trigger] strings[i])
}

/// Decides [`is_prefix`].
pub fn starts_with(s: &Vec<char>, p: &Vec<char>) -> (r: bool)
    ensures
        r == is_prefix(p@, s@),
{
    if p.len() > s.len() {
        return false;
    }
    let mut i: usize = 0;
    while i < p.len()
        invariant
            0 <= i <= p.len() <= s.len(),
            forall|j: int| 0 <= j < i ==> s@[j] == p@[j],
        decreases p.len() - i,
    {
        if s[i] != p[i] {
            assert(s@.subrange(0, p.len() as int)[i as int] != p@[i as int]);
            return false;
        }
        i += 1;
    }
    assert(s@.subrange(0, p.len() as int) =~= p@);
    true
}

/// The number of characters at the beginning of `a` and `b` that agree.
pub open spec fn agree_len(a: Seq<char>, b: Seq<char>) -> nat
    decreases a.len(),
{
    if a.len() == 0 || b.len() == 0 || a[0] != b[0] {
        0
    } else {
        1 + agree_len(a.drop_first(), b.drop_first())
    }
}

/// Texts that agree in their first `k` characters agree in at least `k`,
/// and in exactly `k` where one of them ends there or the next characters
/// differ.
pub proof fn lemma_agree_len(a: Seq<char>, b: Seq<char>, k: int)
    requires
        0 <= k <= a.len(),
        k <= b.len(),
        forall|j: int| 0 <= j < k ==> a[j] == b[j],
    ensures
        agree_len(a, b) >= k,
        (k == a.len() || k == b.len() || a[k] != b[k]) ==> agree_len(a, b) == k,
    decreases k,
{
    if k > 0 {
        assert forall|j: int| 0 <= j < k - 1 implies a.drop_first()[j] == b.drop_first()[j] by {
            assert(a.drop_first()[j] == a[j + 1] && b.drop_first()[j] == b[j + 1]);
        }
        if k < a.len() && k < b.len() {
            assert(a.drop_first()[k - 1] == a[k] && b.drop_first()[k - 1] == b[k]);
        }
        lemma_agree_len(a.drop_first(), b.drop_first(), k - 1);
    }
}

/// The length of the longest prefix of `strings[0]` that the first `n` of
/// `strings` share.
pub open spec fn common_len(strings: Seq<Seq<char>>, n: int) -> nat
    decreases n,
{
    if n <= 1 {
        strings[0].len()
    } else {
        let shorter = common_len(strings, n - 1);
        let here = agree_len(strings[0], strings[n - 1]);
        if here < shorter {
            here
        } else {
            shorter
        }
    }
}

/// The longest common prefix of `strings`; the empty text where there are
/// none.
pub open spec fn common_prefix_of(strings: Seq<Seq<char>>) -> Seq<char> {
    if strings.len() == 0 {
        Seq::empty()
    } else {
        strings[0].subrange(0, common_len(strings, strings.len() as int) as int)
    }
}

/// The longest common prefix of `strings`: a prefix of each of them, and no
/// shorter than any other text that is one.
pub fn common_prefix(strings: &[String]) -> (r: String)
    ensures
        r@ == common_prefix_of(strings.deep_view()),
        is_common_prefix(r@, strings.deep_view()),
        forall|q: Seq<char>| #[trigger]
            is_common_prefix(q, strings.deep_view()) && strings.len() > 0 ==> q.len() <= r@.len(),
{
    let ghost all = strings.deep_view();
    if strings.len() == 0 {
        return String::new();
    }
    let first = to_chars(strings[0].as_str());
    assert(all[0] == first@);
    let mut len: usize = first.len();
    let mut i: usize = 1;
    assert(first@.subrange(0, len as int) =~= first@);
    while i < strings.len()
        invariant
            1 <= i <= strings.len(),
            all == strings.deep_view(),
            all[0] == first@,
            len <= first.len(),
            len == common_len(all, i as int),
            forall|k: int| 0 <= k < i ==> is_prefix(first@.subrange(0, len as int), #[trigger] all[k]),
            len == first.len() || exists|k: int|
                0 <= k < i && !is_prefix(first@.subrange(0, len + 1), #[trigger] all[k]),
        decreases strings.len() - i,
    {
        let other = to_chars(strings[i].as_str());
        assert(all[i as int] == other@);
        let mut n: usize = 0;
        while n < len && n < other.len() && first[n] == other[n]
            invariant
                0 <= n <= len <= first.len(),
                n <= other.len(),
                forall|j: int| 0 <= j < n ==> first@[j] == other@[j],
            decreases len - n,
        {
            n += 1;
        }
        proof {
            lemma_agree_len(first@, other@, n as int);
            let p = first@.subrange(0, n as int);
            assert(other@.subrange(0, n as int) =~= p);
            assert forall|k: int| 0 <= k < i + 1 implies is_prefix(p, #[trigger] all[k]) by {
                if k < i {
                    let q = first@.subrange(0, len as int);
                    assert(is_prefix(q, all[k]));
                    assert(all[k].subrange(0, n as int) =~= q.subrange(0, n as int));
                    assert(q.subrange(0, n as int) =~= p);
                }
            }
            if n < len {
                let longer = first@.subrange(0, n + 1);
                if n < other.len() {
                    assert(other@.subrange(0, n + 1)[n as int] != longer[n as int]);
                }
                assert(!is_prefix(longer, all[i as int]));
            }
        }
        len = n;
        i += 1;
    }
    let r = substring(&first, 0, len);
    proof {
        assert forall|q: Seq<char>| #[trigger] is_common_prefix(q, all) implies q.len()
            <= r@.len() by {
            assert(is_prefix(q, all[0]));
            if q.len() > len {
                let k = choose|k: int|
                    0 <= k < strings.len() && !is_prefix(
                        first@.subrange(0, len + 1),
                        #[trigger] all[k],
                    );
                assert(is_prefix(q, all[k]));
                assert(first@.subrange(0, len + 1) =~= q.subrange(0, len + 1));
                assert(all[k].subrange(0, len + 1) =~= all[k].subrange(0, q.len() as int).subrange(
                    0,
                    len + 1,
                ));
            }
        }
    }
    r
}

/// The order of texts: character by character, by code point, a prefix
/// before its extensions.
pub open spec fn lex_le(a: Seq<char>, b: Seq<char>) -> bool
    decreases a.len(),
{
    if a.len() == 0 {
        true
    } else if b.len() == 0 {
        false
    } else if a[0] != b[0] {
        a[0] < b[0]
    } else {
        lex_le(a.drop_first(), b.drop_first())
    }
}

/// Of two texts one stands before the other.
pub proof fn lemma_lex_total(a: Seq<char>, b: Seq<char>)
    ensures
        lex_le(a, b) || lex_le(b, a),
    decreases a.len(),
{
    if a.len() > 0 && b.len() > 0 && a[0] == b[0] {
        lemma_lex_total(a.drop_first(), b.drop_first());
    }
}

/// The order of texts is transitive.
pub proof fn lemma_lex_transitive(a: Seq<char>, b: Seq<char>, c: Seq<char>)
    requires
        lex_le(a, b),
        lex_le(b, c),
    ensures
        lex_le(a, c),
    decreases a.len(),
{
    if a.len() > 0 && b.len() > 0 && c.len() > 0 && a[0] == b[0] && b[0] == c[0] {
        lemma_lex_transitive(a.drop_first(), b.drop_first(), c.drop_first());
    }
}

/// Two texts that stand before each other are equal.
pub proof fn lemma_lex_antisymmetric(a: Seq<char>, b: Seq<char>)
    requires
        lex_le(a, b),
        lex_le(b, a),
    ensures
        a == b,
    decreases a.len(),
{
    if a.len() > 0 && b.len() > 0 {
        lemma_lex_antisymmetric(a.drop_first(), b.drop_first());
        assert(a =~= seq![a[0]] + a.drop_first());
        assert(b =~= seq![b[0]] + b.drop_first());
    } else {
        assert(a =~= b);
    }
}

/// Every text stands before itself.
pub proof fn lemma_lex_reflexive(a: Seq<char>)
    ensures
        lex_le(a, a),
    decreases a.len(),
{
    if a.len() > 0 {
        lemma_lex_reflexive(a.drop_first());
    }
}

/// Whether `s` is in order.
pub open spec fn is_sorted(s: Seq<Seq<char>>) -> bool {
    forall|i: int, j: int| 0 <= i < j < s.len() ==> lex_le(#[trigger] s[i], #[trigger] s[j])
}

/// Whether `s` is in order and holds no text twice.
pub open spec fn is_strictly_sorted(s: Seq<Seq<char>>) -> bool {
    forall|i: int, j: int|
        0 <= i < j < s.len() ==> lex_le(#[trigger] s[i], #[trigger] s[j]) && s[i] != s[j]
}

/// Decides [`lex_le`].
pub fn text_le(a: &Vec<char>, b: &Vec<char>) -> (r: bool)
    ensures
        r == lex_le(a@, b@),
{
    let mut i: usize = 0;
    assert(a@.skip(0) =~= a@ && b@.skip(0) =~= b@);
    while i < a.len() && i < b.len() && a[i] == b[i]
        invariant
            0 <= i <= a.len(),
            i <= b.len(),
            lex_le(a@, b@) == lex_le(a@.skip(i as int), b@.skip(i as int)),
        decreases a.len() - i,
    {
        assert(a@.skip(i as int).drop_first() =~= a@.skip(i + 1));
        assert(b@.skip(i as int).drop_first() =~= b@.skip(i + 1));
        i += 1;
    }
    if i == a.len() {
        true
    } else if i == b.len() {
        false
    } else {
        a[i] < b[i]
    }
}

/// Whether `a` and `b` hold the same characters.
pub fn text_eq(a: &Vec<char>, b: &Vec<char>) -> (r: bool)
    ensures
        r == (a@ == b@),
{
    if a.len() != b.len() {
        return false;
    }
    let mut i: usize = 0;
    while i < a.len()
        invariant
            0 <= i <= a.len(),
            a.len() == b.len(),
            forall|j: int| 0 <= j < i ==> a@[j] == b@[j],
        decreases a.len() - i,
    {
        if a[i] != b[i] {
            return false;
        }
        i += 1;
    }
    assert(a@ =~= b@);
    true
}

/// The texts of the character vectors `v`.
pub open spec fn texts(v: Seq<Vec<char>>) -> Seq<Seq<char>> {
    Seq::new(v.len(), |i: int| v[i]@)
}

/// Puts `x` into the ordered list `out` at its place, behind the texts
/// equal to it. With `unique` set a text that the list holds already is
/// dropped.
fn insert_sorted(out: &mut Vec<Vec<char>>, x: Vec<char>, unique: bool)
    requires
        is_sorted(texts(old(out)@)),
    ensures
        is_sorted(texts(final(out)@)),
        unique && texts(old(out)@).contains(x@) ==> texts(final(out)@) == texts(old(out)@),
        !(unique && texts(old(out)@).contains(x@)) ==> exists|k: int|
            0 <= k <= old(out).len() && texts(final(out)@) == #[trigger] texts(old(out)@).insert(k, x@),
{
    let ghost before = texts(out@);
    let n = out.len();
    let mut pos: usize = 0;
    while pos < n && text_le(&out[pos], &x)
        invariant
            0 <= pos <= n,
            n == out.len(),
            before == texts(out@),
            forall|j: int| 0 <= j < pos ==> lex_le(#[trigger] before[j], x@),
        decreases n - pos,
    {
        assert(before[pos as int] == out@[pos as int]@);
        pos += 1;
    }
    proof {
        if pos < n {
            assert(before[pos as int] == out@[pos as int]@);
            lemma_lex_total(before[pos as int], x@);
            assert forall|j: int| pos <= j < n implies lex_le(x@, #[trigger] before[j]) by {
                if j > pos {
                    lemma_lex_transitive(x@, before[pos as int], before[j]);
                }
            }
        }
    }
    if unique && pos > 0 && text_eq(&out[pos - 1], &x) {
        assert(before[pos - 1] == out@[pos - 1]@);
        return ;
    }
    proof {
        if unique && before.contains(x@) {
            // `x` stands in the list already: not behind the place, where
            // every text is larger, so the text just before the place is `x`
            let k = choose|k: int| 0 <= k < before.len() && before[k] == x@;
            lemma_lex_reflexive(x@);
            if k >= pos {
                if k > pos {
                    assert(lex_le(before[pos as int], before[k]));
                }
                assert(false);
            }
            assert(before[pos - 1] == out@[pos - 1]@);
            if k < pos - 1 {
                assert(lex_le(before[k], before[pos - 1]));
            }
            lemma_lex_antisymmetric(before[pos - 1], x@);
            assert(false);
        }
    }
    out.insert(pos, x);
    proof {
        let after = texts(out@);
        assert(after =~= before.insert(pos as int, x@));
        assert forall|i: int, j: int| 0 <= i < j < after.len() implies lex_le(
            #[trigger] after[i],
            #[trigger] after[j],
        ) by {
            if j < pos {
                assert(after[i] == before[i] && after[j] == before[j]);
            } else if j == pos {
                assert(after[i] == before[i]);
            } else if i < pos {
                assert(after[i] == before[i] && after[j] == before[j - 1]);
            } else if i == pos {
                assert(after[j] == before[j - 1]);
            } else {
                assert(after[i] == before[i - 1] && after[j] == before[j - 1]);
            }
        }
    }
}

/// Putting an item into a list adds it to what the list holds.
pub proof fn lemma_insert_adds<A>(s: Seq<A>, k: int, x: A)
    requires
        0 <= k <= s.len(),
    ensures
        s.insert(k, x).to_multiset() == s.to_multiset().insert(x),
        forall|y: A| s.insert(k, x).contains(y) <==> (y == x || s.contains(y)),
{
    let t = s.insert(k, x);
    assert(t[k] == x);
    assert(t.remove(k) =~= s);
    vstd::seq_lib::to_multiset_remove(t, k);
    t.to_multiset_ensures();
    assert(t.contains(x));
    assert(t.to_multiset() =~= s.to_multiset().insert(x));
    assert forall|y: A| t.contains(y) <==> (y == x || s.contains(y)) by {
        if t.contains(y) {
            let i = choose|i: int| 0 <= i < t.len() && t[i] == y;
            if i < k {
                assert(s[i] == y);
            } else if i > k {
                assert(s[i - 1] == y);
            }
        }
        if s.contains(y) {
            let i = choose|i: int| 0 <= i < s.len() && s[i] == y;
            if i < k {
                assert(t[i] == y);
            } else {
                assert(t[i + 1] == y);
            }
        }
    }
}

/// The strings of the texts `v`.
fn to_strings(v: &Vec<Vec<char>>) -> (r: Vec<String>)
    ensures
        r.deep_view() == texts(v@),
{
    let mut r: Vec<String> = Vec::new();
    let mut i: usize = 0;
    while i < v.len()
        invariant
            0 <= i <= v.len(),
            r.len() == i,
            forall|k: int| 0 <= k < i ==> (#[trigger] r@[k])@ == v@[k]@,
        decreases v.len() - i,
    {
        r.push(from_chars(&v[i]));
        i += 1;
    }
    assert(r.deep_view() =~= texts(v@));
    r
}

/// An entry of a directory.
#[derive(Debug)]
pub struct Entry {
    pub name: String,
    pub is_dir: bool,
}

/// An [`Entry`] with its name as a character sequence.
pub struct EntryView {
    pub name: Seq<char>,
    pub is_dir: bool,
}

impl View for Entry {
    type V = EntryView;

    open spec fn view(&self) -> EntryView {
        EntryView { name: self.name@, is_dir: self.is_dir }
    }
}

/// The views of the entries `v`.
pub open spec fn entries_view(v: Seq<Entry>) -> Seq<EntryView> {
    Seq::new(v.len(), |i: int| v[i]@)
}

/// The text that completes to the entry `e`: its name, with a `/` behind
/// the name of a directory.
pub open spec fn shown(e: EntryView) -> Seq<char> {
    if e.is_dir {
        e.name.push('/')
    } else {
        e.name
    }
}

/// Whether the entry `e` is a file that `prefix` may stand for.
pub open spec fn is_file_for(e: EntryView, prefix: Seq<char>) -> bool {
    is_prefix(prefix, e.name)
}

/// The completions of `prefix` among the entries of a directory: the shown
/// texts, in order and each once, of the entries whose name begins with
/// `prefix`.
pub fn list_dir_matches(entries: &Vec<Entry>, prefix: &str) -> (matches: Vec<String>)
    ensures
        is_strictly_sorted(matches.deep_view()),
        forall|text: Seq<char>|
            matches.deep_view().contains(text) <==> exists|k: int|
                0 <= k < entries.len() && is_file_for(#[trigger] entries@[k]@, prefix@) && shown(
                    entries@[k]@,
                ) == text,
{
    let p = to_chars(prefix);
    let mut out: Vec<Vec<char>> = Vec::new();
    let mut i: usize = 0;
    assert(texts(out@) =~= Seq::<Seq<char>>::empty());
    while i < entries.len()
        invariant
            0 <= i <= entries.len(),
            p@ == prefix@,
            is_strictly_sorted(texts(out@)),
            forall|text: Seq<char>|
                texts(out@).contains(text) <==> exists|k: int|
                    0 <= k < i && is_file_for(#[trigger] entries@[k]@, prefix@) && shown(
                        entries@[k]@,
                    ) == text,
        decreases entries.len() - i,
    {
        let entry = &entries[i];
        let ghost before = texts(out@);
        let mut name = to_chars(entry.name.as_str());
        if starts_with(&name, &p) {
            assert(is_file_for(entries@[i as int]@, prefix@));
            if entry.is_dir {
                name.push('/');
            }
            assert(name@ == shown(entries@[i as int]@));
            let ghost added = name@;
            insert_sorted(&mut out, name, true);
            proof {
                lemma_unique_insert(before, texts(out@), added);
                let after = texts(out@);
                assert forall|n: Seq<char>| after.contains(n) <==> exists|k: int|
                    0 <= k < i + 1 && is_file_for(#[trigger] entries@[k]@, prefix@) && shown(
                        entries@[k]@,
                    ) == n by {
                    assert(after.contains(n) <==> (n == added || before.contains(n)));
                    if n == added {
                        assert(is_file_for(entries@[i as int]@, prefix@));
                    }
                }
            }
        } else {
            assert(!is_file_for(entries@[i as int]@, prefix@));
        }
        i += 1;
    }
    to_strings(&out)
}

/// A list without repetitions stays one when a text goes in that it does
/// not hold, and then holds that text besides its own.
pub proof fn lemma_unique_insert(before: Seq<Seq<char>>, after: Seq<Seq<char>>, x: Seq<char>)
    requires
        is_strictly_sorted(before),
        is_sorted(after),
        before.contains(x) ==> after == before,
        !before.contains(x) ==> exists|k: int|
            0 <= k <= before.len() && after == #[trigger] before.insert(k, x),
    ensures
        is_strictly_sorted(after),
        forall|y: Seq<char>| after.contains(y) <==> (y == x || before.contains(y)),
{
    if !before.contains(x) {
        let k = choose|k: int| 0 <= k <= before.len() && after == #[trigger] before.insert(k, x);
        lemma_insert_adds(before, k, x);
        assert forall|a: int, b: int| 0 <= a < b < after.len() implies after[a] != after[b] by {
            if after[a] == after[b] {
                if a != k && b != k {
                    let a0 = if a < k {
                        a
                    } else {
                        a - 1
                    };
                    let b0 = if b < k {
                        b
                    } else {
                        b - 1
                    };
                    assert(before[a0] == after[a] && before[b0] == after[b]);
                } else if a == k {
                    assert(before[b - 1] == after[b]);
                    assert(before.contains(x));
                } else {
                    assert(before[a] == after[a]);
                    assert(before.contains(x));
                }
            }
        }
    }
}

/// An entry of a directory of the search path.
#[derive(Debug)]
pub struct PathEntry {
    pub name: String,
    /// The permission bits of the entry, where they could be read.
    pub mode: Option<u32>,
}

/// A [`PathEntry`] with its name as a character sequence.
pub struct PathEntryView {
    pub name: Seq<char>,
    pub mode: Option<u32>,
}

impl View for PathEntry {
    type V = PathEntryView;

    open spec fn view(&self) -> PathEntryView {
        PathEntryView { name: self.name@, mode: self.mode }
    }
}

/// Whether the permission bits allow anyone to execute the entry.
pub open spec fn is_executable(mode: Option<u32>) -> bool {
    match mode {
        Some(bits) => bits & 0o111 != 0,
        None => false,
    }
}

/// Whether the entry `e` is a command that `prefix` may stand for.
pub open spec fn is_command_for(e: PathEntryView, prefix: Seq<char>) -> bool {
    is_prefix(prefix, e.name) && is_executable(e.mode)
}

/// The commands that `prefix` may stand for among the entries of the search
/// path: the names, in order and each once, of the executable entries whose
/// name begins with `prefix`.
pub fn list_path_commands(entries: &Vec<PathEntry>, prefix: &str) -> (matches: Vec<String>)
    ensures
        is_strictly_sorted(matches.deep_view()),
        forall|name: Seq<char>|
            matches.deep_view().contains(name) <==> exists|k: int|
                0 <= k < entries.len() && is_command_for(#[trigger] entries@[k]@, prefix@)
                    && entries@[k]@.name == name,
{
    let p = to_chars(prefix);
    let mut out: Vec<Vec<char>> = Vec::new();
    let mut i: usize = 0;
    assert(texts(out@) =~= Seq::<Seq<char>>::empty());
    while i < entries.len()
        invariant
            0 <= i <= entries.len(),
            p@ == prefix@,
            is_strictly_sorted(texts(out@)),
            forall|name: Seq<char>|
                texts(out@).contains(name) <==> exists|k: int|
                    0 <= k < i && is_command_for(#[trigger] entries@[k]@, prefix@)
                        && entries@[k]@.name == name,
        decreases entries.len() - i,
    {
        let entry = &entries[i];
        let ghost before = texts(out@);
        let name = to_chars(entry.name.as_str());
        let executable = match entry.mode {
            Some(bits) => bits & 0o111 != 0,
            None => false,
        };
        if starts_with(&name, &p) && executable {
            assert(is_command_for(entries@[i as int]@, prefix@));
            let ghost added = name@;
            insert_sorted(&mut out, name, true);
            proof {
                lemma_unique_insert(before, texts(out@), added);
                let after = texts(out@);
                assert forall|n: Seq<char>| after.contains(n) <==> exists|k: int|
                    0 <= k < i + 1 && is_command_for(#[trigger] entries@[k]@, prefix@)
                        && entries@[k]@.name == n by {
                    assert(after.contains(n) <==> (n == added || before.contains(n)));
                    if n == added {
                        assert(is_command_for(entries@[i as int]@, prefix@));
                    }
                }
            }
        } else {
            assert(!is_command_for(entries@[i as int]@, prefix@));
        }
        i += 1;
    }
    to_strings(&out)
}

} // verus!
