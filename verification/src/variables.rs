//! Substitution of `$NAME` by the value of the variable `NAME`.

use crate::text::{substring, to_chars};
use vstd::prelude::*;
use vstd::string::StringExecFns;

verus! {

/// Whether `c` is a letter or a number in the sense of Unicode, as
/// `char::is_alphanumeric` decides it.
pub uninterp spec fn is_alphanumeric(c: char) -> bool;

/// `char::is_alphanumeric` depends on the character alone.
pub assume_specification[ char::is_alphanumeric ](c: char) -> (b: bool)
    ensures
        b == is_alphanumeric(c),
;

/// Whether `c` may stand in the name of a variable.
pub open spec fn is_name_char(c: char) -> bool {
    is_alphanumeric(c) || c == '_'
}

/// A variable of the environment.
#[derive(Debug)]
pub struct Variable {
    pub name: String,
    pub value: String,
}

/// A [`Variable`] with its texts as character sequences.
pub struct VariableView {
    pub name: Seq<char>,
    pub value: Seq<char>,
}

impl View for Variable {
    type V = VariableView;

    open spec fn view(&self) -> VariableView {
        VariableView { name: self.name@, value: self.value@ }
    }
}

/// The views of the variables `v`.
pub open spec fn variables_view(v: Seq<Variable>) -> Seq<VariableView> {
    Seq::new(v.len(), |i: int| v[i]@)
}

/// The value of the first variable called `name` among the first `n` of
/// `env`.
pub open spec fn value_of(env: Seq<VariableView>, name: Seq<char>, n: int) -> Option<Seq<char>>
    decreases n,
{
    if n <= 0 {
        None
    } else {
        match value_of(env, name, n - 1) {
            Some(value) => Some(value),
            None => if env[n - 1].name == name {
                Some(env[n - 1].value)
            } else {
                None
            },
        }
    }
}

/// The index at which the name that begins at `at` ends.
pub open spec fn name_end(s: Seq<char>, at: int) -> int
    decreases s.len() - at,
{
    if 0 <= at < s.len() && is_name_char(s[at]) {
        name_end(s, at + 1)
    } else {
        at
    }
}

/// A name ends at or behind its beginning, inside the text.
pub proof fn lemma_name_end_bounds(s: Seq<char>, at: int)
    requires
        0 <= at <= s.len(),
    ensures
        at <= name_end(s, at) <= s.len(),
    decreases s.len() - at,
{
    if at < s.len() && is_name_char(s[at]) {
        lemma_name_end_bounds(s, at + 1);
    }
}

/// The text `s` from index `at` on with its variables replaced.
///
/// A `$` with a name behind it gives way, together with the name, to the
/// value of the variable; where `env` holds no such variable both stay. A
/// `$` without a name behind it becomes `>`.
pub open spec fn expanded_from(s: Seq<char>, at: int, env: Seq<VariableView>) -> Seq<char>
    decreases s.len() - at,
    via expanded_from_decreases
{
    if at < 0 || at >= s.len() {
        Seq::empty()
    } else if s[at] == '$' {
        let end = name_end(s, at + 1);
        if end > at + 1 {
            let name = s.subrange(at + 1, end);
            (match value_of(env, name, env.len() as int) {
                Some(value) => value,
                None => seq!['$'] + name,
            }) + expanded_from(s, end, env)
        } else {
            seq!['>'] + expanded_from(s, at + 1, env)
        }
    } else {
        seq![s[at]] + expanded_from(s, at + 1, env)
    }
}

#[via_fn]
proof fn expanded_from_decreases(s: Seq<char>, at: int, env: Seq<VariableView>) {
    if 0 <= at < s.len() {
        lemma_name_end_bounds(s, at + 1);
    }
}

/// The text `s` with its variables replaced.
pub open spec fn expanded(s: Seq<char>, env: Seq<VariableView>) -> Seq<char> {
    expanded_from(s, 0, env)
}

/// The value of the first variable called `name` in `env`.
fn look_up<'a>(env: &'a Vec<Variable>, name: &String) -> (r: Option<&'a String>)
    ensures
        match r {
            Some(value) => value_of(variables_view(env@), name@, env.len() as int) == Some(
                value@,
            ),
            None => value_of(variables_view(env@), name@, env.len() as int) is None,
        },
{
    let mut i: usize = 0;
    while i < env.len()
        invariant
            0 <= i <= env.len(),
            value_of(variables_view(env@), name@, i as int) is None,
        decreases env.len() - i,
    {
        assert(variables_view(env@)[i as int] == env@[i as int]@);
        if env[i].name == *name {
            proof {
                lemma_value_found(variables_view(env@), name@, i as int, env.len() as int);
            }
            return Some(&env[i].value);
        }
        i += 1;
    }
    None
}

/// A variable that is the first of its name stays the one found, however
/// many variables follow.
pub proof fn lemma_value_found(env: Seq<VariableView>, name: Seq<char>, i: int, n: int)
    requires
        0 <= i < n <= env.len(),
        value_of(env, name, i) is None,
        env[i].name == name,
    ensures
        value_of(env, name, n) == Some(env[i].value),
    decreases n - i,
{
    if n > i + 1 {
        lemma_value_found(env, name, i, n - 1);
    }
}

/// Replaces the variables of `input` by their values in `env`.
pub fn expand_variables(input: &str, env: &Vec<Variable>) -> (r: String)
    ensures
        r@ == expanded(input@, variables_view(env@)),
{
    let ghost vars = variables_view(env@);
    let v = to_chars(input);
    let n = v.len();
    let mut r = String::new();
    let mut i: usize = 0;
    assert(r@ + expanded_from(v@, 0, vars) =~= expanded(v@, vars));
    while i < n
        invariant
            0 <= i <= n,
            n == v.len(),
            vars == variables_view(env@),
            r@ + expanded_from(v@, i as int, vars) == expanded(v@, vars),
        decreases n - i,
    {
        let ghost before = r@;
        if v[i] == '$' {
            let mut end: usize = i + 1;
            while end < n && (v[end].is_alphanumeric() || v[end] == '_')
                invariant
                    i < end <= n,
                    n == v.len(),
                    name_end(v@, end as int) == name_end(v@, i + 1),
                decreases n - end,
            {
                end += 1;
            }
            if end > i + 1 {
                let name = substring(&v, i + 1, end);
                let ghost rest = expanded_from(v@, end as int, vars);
                match look_up(env, &name) {
                    Some(value) => {
                        r.append(value.as_str());
                        assert(r@ + rest =~= before + (value@ + rest));
                    },
                    None => {
                        r.push('$');
                        r.append(name.as_str());
                        assert(r@ + rest =~= before + ((seq!['$'] + name@) + rest));
                    },
                }
                i = end;
            } else {
                r.push('>');
                assert(r@ + expanded_from(v@, i + 1, vars) =~= before + (seq!['>']
                    + expanded_from(v@, i + 1, vars)));
                i += 1;
            }
        } else {
            r.push(v[i]);
            assert(r@ + expanded_from(v@, i + 1, vars) =~= before + (seq![v@[i as int]]
                + expanded_from(v@, i + 1, vars)));
            i += 1;
        }
    }
    assert(r@ + Seq::<char>::empty() =~= r@);
    r
}

/// A text without `$` stays as it is.
pub proof fn lemma_plain_text(s: Seq<char>, env: Seq<VariableView>)
    requires
        forall|i: int| 0 <= i < s.len() ==> s[i] != '$',
    ensures
        expanded(s, env) == s,
{
    lemma_plain_from(s, 0, env);
    assert(s.subrange(0, s.len() as int) =~= s);
}

/// A text without `$` stays as it is, from any index on.
proof fn lemma_plain_from(s: Seq<char>, at: int, env: Seq<VariableView>)
    requires
        0 <= at <= s.len(),
        forall|i: int| 0 <= i < s.len() ==> s[i] != '$',
    ensures
        expanded_from(s, at, env) == s.subrange(at, s.len() as int),
    decreases s.len() - at,
{
    if at < s.len() {
        lemma_plain_from(s, at + 1, env);
        assert(seq![s[at]] + s.subrange(at + 1, s.len() as int) =~= s.subrange(
            at,
            s.len() as int,
        ));
    } else {
        assert(s.subrange(at, s.len() as int) =~= Seq::<char>::empty());
    }
}

} // verus!
