//! Character-level text operations: exact string comparison, prefix tests,
//! trimming, and the placeholder substitution that rewrites `${name}` into the
//! value a variable store holds for `name`.
//!
//! Substitution is a single left-to-right pass: a placeholder whose name is
//! bound is replaced by the bound value and scanning resumes after the
//! placeholder, so a value that itself contains `${...}` is never expanded
//! again; a placeholder whose name is unbound is left verbatim.

use vstd::prelude::*;
use crate::store::VarStore;

verus! {

/// Whether two string slices hold the same characters.
pub fn str_eq(a: &str, b: &str) -> (r: bool)
    ensures
        r == (a@ == b@),
{
    let la = a.unicode_len();
    let lb = b.unicode_len();
    if la != lb {
        return false;
    }
    let mut i: usize = 0;
    while i < la
        invariant
            i <= la,
            la == a@.len() && la == b@.len(),
            forall|k: int| 0 <= k < i ==> a@[k] == b@[k],
        decreases la - i,
    {
        if a.get_char(i) != b.get_char(i) {
            return false;
        }
        i = i + 1;
    }
    proof {
        assert(a@ =~= b@);
    }
    true
}

/// Whether `s` starts with `prefix`.
pub open spec fn spec_starts_with(s: Seq<char>, prefix: Seq<char>) -> bool {
    prefix.len() <= s.len() && s.subrange(0, prefix.len() as int) == prefix
}

pub fn starts_with(s: &str, prefix: &str) -> (r: bool)
    ensures
        r == spec_starts_with(s@, prefix@),
{
    let lp = prefix.unicode_len();
    let ls = s.unicode_len();
    if lp > ls {
        proof {
            assert(!spec_starts_with(s@, prefix@));
        }
        return false;
    }
    let mut i: usize = 0;
    while i < lp
        invariant
            i <= lp,
            lp == prefix@.len() && ls == s@.len() && lp <= ls,
            forall|k: int| 0 <= k < i ==> s@[k] == prefix@[k],
        decreases lp - i,
    {
        if s.get_char(i) != prefix.get_char(i) {
            proof {
                assert(s@.subrange(0, lp as int)[i as int] != prefix@[i as int]);
            }
            return false;
        }
        i = i + 1;
    }
    proof {
        assert(s@.subrange(0, lp as int) =~= prefix@);
    }
    true
}

/// The whitespace that trimming removes at either end of a line of input.
pub open spec fn is_space(c: char) -> bool {
    c == ' ' || c == '\t' || c == '\n' || c == '\r'
}

/// The least index `j >= i` of a non-space character, or the length when
/// there is none.
pub open spec fn first_non_space(s: Seq<char>, i: int) -> int
    decreases s.len() - i,
{
    if i < 0 || i >= s.len() {
        s.len() as int
    } else if !is_space(s[i]) {
        i
    } else {
        first_non_space(s, i + 1)
    }
}

/// The greatest index `j <= i` of a non-space character, or `-1` when there
/// is none.
pub open spec fn last_non_space(s: Seq<char>, i: int) -> int
    decreases i + 1,
{
    if i < 0 || i >= s.len() {
        -1
    } else if !is_space(s[i]) {
        i
    } else {
        last_non_space(s, i - 1)
    }
}

/// `s` without leading and trailing whitespace.
pub open spec fn spec_trim(s: Seq<char>) -> Seq<char> {
    let a = first_non_space(s, 0);
    let b = last_non_space(s, s.len() - 1);
    if a <= b {
        s.subrange(a, b + 1)
    } else {
        Seq::empty()
    }
}

proof fn lemma_first_non_space_at(s: Seq<char>, i: int, a: int)
    requires
        0 <= i <= a <= s.len(),
        forall|k: int| i <= k < a ==> is_space(s[k]),
        a < s.len() ==> !is_space(s[a]),
    ensures
        first_non_space(s, i) == if a == s.len() { s.len() as int } else { a },
    decreases a - i,
{
    if i < a {
        lemma_first_non_space_at(s, i + 1, a);
    }
}

proof fn lemma_last_non_space_le(s: Seq<char>, i: int)
    requires
        i >= -1,
    ensures
        last_non_space(s, i) <= i,
    decreases i + 1,
{
    if 0 <= i && i < s.len() && is_space(s[i]) {
        lemma_last_non_space_le(s, i - 1);
    }
}

proof fn lemma_last_non_space_at(s: Seq<char>, i: int, b: int)
    requires
        1 <= b,
        b - 1 <= i < s.len(),
        !is_space(s[b - 1]),
        forall|k: int| b <= k <= i ==> is_space(s[k]),
    ensures
        last_non_space(s, i) == b - 1,
    decreases i,
{
    if i >= b {
        lemma_last_non_space_at(s, i - 1, b);
    }
}

/// Whether `c` is trimmed away at the ends of a line of input.
pub fn is_space_char(c: char) -> (r: bool)
    ensures
        r == is_space(c),
{
    c == ' ' || c == '\t' || c == '\n' || c == '\r'
}

/// `s` without leading and trailing whitespace.
#[verifier::loop_isolation(false)]
pub fn trim_str<'a>(s: &'a str) -> (r: &'a str)
    ensures
        r@ == spec_trim(s@),
{
    let len = s.unicode_len();
    let mut a: usize = 0;
    while a < len && is_space_char(s.get_char(a))
        invariant
            a <= len,
            forall|k: int| 0 <= k < a ==> is_space(s@[k]),
        decreases len - a,
    {
        a = a + 1;
    }
    proof {
        lemma_first_non_space_at(s@, 0, a as int);
    }
    if a == len {
        proof {
            lemma_last_non_space_le(s@, len - 1);
            reveal_strlit("");
            assert(""@ =~= Seq::<char>::empty());
        }
        return "";
    }
    let mut b: usize = len;
    while b > a + 1 && is_space_char(s.get_char(b - 1))
        invariant
            a < b <= len,
            forall|k: int| b <= k < len ==> is_space(s@[k]),
        decreases b,
    {
        b = b - 1;
    }
    proof {
        assert(!is_space(s@[b - 1])) by {
            if b == a + 1 {
                assert(!is_space(s@[a as int]));
            }
        }
        lemma_last_non_space_at(s@, len - 1, b as int);
    }
    s.substring_char(a, b)
}

/// Whether a confirmation answer declines: after trimming, `n` or `no` in any
/// letter case. Every other answer, the empty one included, accepts.
pub open spec fn spec_cancels(s: Seq<char>) -> bool {
    let t = spec_trim(s);
    ||| t.len() == 1 && (t[0] == 'n' || t[0] == 'N')
    ||| t.len() == 2 && (t[0] == 'n' || t[0] == 'N') && (t[1] == 'o' || t[1] == 'O')
}

/// Whether a confirmation answer declines the action.
pub fn confirmation_cancels(input: &str) -> (r: bool)
    ensures
        r == spec_cancels(input@),
{
    let t = trim_str(input);
    let tl = t.unicode_len();
    if tl == 1 {
        let c = t.get_char(0);
        c == 'n' || c == 'N'
    } else if tl == 2 {
        let c0 = t.get_char(0);
        let c1 = t.get_char(1);
        (c0 == 'n' || c0 == 'N') && (c1 == 'o' || c1 == 'O')
    } else {
        false
    }
}

/// The least index `j >= i` with `s[j] == '}'`, or `-1` when there is none.
pub open spec fn find_close(s: Seq<char>, i: int) -> int
    decreases s.len() - i,
{
    if i < 0 || i >= s.len() {
        -1
    } else if s[i] == '}' {
        i
    } else {
        find_close(s, i + 1)
    }
}

pub proof fn lemma_find_close_bounds(s: Seq<char>, i: int)
    requires
        0 <= i,
    ensures
        find_close(s, i) == -1 ==> forall|k: int| i <= k < s.len() ==> s[k] != '}',
        find_close(s, i) >= 0 ==> i <= find_close(s, i) < s.len() && s[find_close(s, i)] == '}'
            && forall|k: int| i <= k < find_close(s, i) ==> s[k] != '}',
    decreases s.len() - i,
{
    if i < s.len() && s[i] != '}' {
        lemma_find_close_bounds(s, i + 1);
    }
}

pub proof fn lemma_find_close_none(s: Seq<char>, i: int)
    requires
        0 <= i,
        forall|k: int| i <= k < s.len() ==> s[k] != '}',
    ensures
        find_close(s, i) == -1,
    decreases s.len() - i,
{
    if i < s.len() {
        lemma_find_close_none(s, i + 1);
    }
}

pub proof fn lemma_find_close_at(s: Seq<char>, i: int, j: int)
    requires
        0 <= i <= j < s.len(),
        s[j] == '}',
        forall|k: int| i <= k < j ==> s[k] != '}',
    ensures
        find_close(s, i) == j,
    decreases j - i,
{
    if i < j {
        lemma_find_close_at(s, i + 1, j);
    }
}

/// Whether a complete placeholder `${...}` begins at index `i` of `s`.
pub open spec fn placeholder_at(s: Seq<char>, i: int) -> bool {
    &&& 0 <= i
    &&& i + 1 < s.len()
    &&& s[i] == '$'
    &&& s[i + 1] == '{'
    &&& find_close(s, i + 2) >= 0
}

/// The name inside the placeholder that begins at index `i`.
pub open spec fn placeholder_name(s: Seq<char>, i: int) -> Seq<char> {
    s.subrange(i + 2, find_close(s, i + 2))
}

/// One substitution pass over `s` from index `i` on: each placeholder whose
/// name `vars` binds becomes the bound value, every other character stays.
pub open spec fn subst_from(s: Seq<char>, vars: Map<Seq<char>, Seq<char>>, i: int) -> Seq<char>
    decreases s.len() - i,
    via subst_from_decreases
{
    if i < 0 || i >= s.len() {
        Seq::empty()
    } else if placeholder_at(s, i) {
        let j = find_close(s, i + 2);
        let name = placeholder_name(s, i);
        if vars.contains_key(name) {
            vars[name] + subst_from(s, vars, j + 1)
        } else {
            s.subrange(i, j + 1) + subst_from(s, vars, j + 1)
        }
    } else {
        seq![s[i]] + subst_from(s, vars, i + 1)
    }
}

#[via_fn]
proof fn subst_from_decreases(s: Seq<char>, vars: Map<Seq<char>, Seq<char>>, i: int) {
    if 0 <= i < s.len() && placeholder_at(s, i) {
        lemma_find_close_bounds(s, i + 2);
    }
}

/// The whole substituted form of `s` under `vars`.
pub open spec fn subst(s: Seq<char>, vars: Map<Seq<char>, Seq<char>>) -> Seq<char> {
    subst_from(s, vars, 0)
}

/// Whether some placeholder in `s` has a name that `vars` binds.
pub open spec fn has_bound_placeholder(s: Seq<char>, vars: Map<Seq<char>, Seq<char>>) -> bool {
    exists|i: int| #[trigger] placeholder_at(s, i) && vars.contains_key(placeholder_name(s, i))
}

proof fn lemma_subst_from_identity(s: Seq<char>, vars: Map<Seq<char>, Seq<char>>, i: int)
    requires
        0 <= i <= s.len(),
        !has_bound_placeholder(s, vars),
    ensures
        subst_from(s, vars, i) == s.subrange(i, s.len() as int),
    decreases s.len() - i,
{
    if i == s.len() {
        assert(subst_from(s, vars, i) =~= s.subrange(i, s.len() as int));
    } else if placeholder_at(s, i) {
        assert(!vars.contains_key(placeholder_name(s, i)));
        let j = find_close(s, i + 2);
        lemma_find_close_bounds(s, i + 2);
        lemma_subst_from_identity(s, vars, j + 1);
        assert(s.subrange(i, j + 1) + s.subrange(j + 1, s.len() as int) =~= s.subrange(
            i,
            s.len() as int,
        ));
    } else {
        lemma_subst_from_identity(s, vars, i + 1);
        assert(seq![s[i]] + s.subrange(i + 1, s.len() as int) =~= s.subrange(i, s.len() as int));
    }
}

/// A text none of whose placeholders is bound substitutes to itself: unbound
/// placeholders and plain text are kept verbatim.
pub proof fn lemma_subst_identity(s: Seq<char>, vars: Map<Seq<char>, Seq<char>>)
    requires
        !has_bound_placeholder(s, vars),
    ensures
        subst(s, vars) == s,
{
    lemma_subst_from_identity(s, vars, 0);
    assert(s.subrange(0, s.len() as int) =~= s);
}

/// On a text none of whose placeholders is bound, substitution is idempotent.
pub proof fn lemma_subst_idempotent(s: Seq<char>, vars: Map<Seq<char>, Seq<char>>)
    requires
        !has_bound_placeholder(s, vars),
    ensures
        subst(subst(s, vars), vars) == subst(s, vars),
{
    lemma_subst_identity(s, vars);
}

/// A text that is exactly one placeholder whose name is bound — a name
/// holding no closing brace — substitutes to exactly the bound value.
pub proof fn lemma_subst_single(name: Seq<char>, vars: Map<Seq<char>, Seq<char>>)
    requires
        vars.contains_key(name),
        forall|k: int| 0 <= k < name.len() ==> name[k] != '}',
    ensures
        subst(seq!['$', '{'] + name + seq!['}'], vars) == vars[name],
{
    let s = seq!['$', '{'] + name + seq!['}'];
    assert(s.len() == name.len() + 3);
    assert(s[0] == '$' && s[1] == '{');
    assert(s[s.len() - 1] == '}');
    assert forall|k: int| 2 <= k < s.len() - 1 implies s[k] != '}' by {
        assert(s[k] == name[k - 2]);
    }
    lemma_find_close_at(s, 2, s.len() - 1);
    assert(placeholder_at(s, 0));
    assert(placeholder_name(s, 0) =~= name);
    assert(subst_from(s, vars, s.len() as int) == Seq::<char>::empty());
    assert(subst(s, vars) =~= vars[name]);
}

/// Replaces, in one pass, every `${name}` in `s` whose `name` is bound in
/// `vars` by the bound value; unbound placeholders and all other text are kept
/// verbatim.
#[verifier::loop_isolation(false)]
pub fn substitute_str(s: &str, vars: &VarStore) -> (r: String)
    ensures
        r@ == subst(s@, vars@),
{
    let len = s.unicode_len();
    let mut out = String::new();
    let mut i: usize = 0;
    while i < len
        invariant
            i <= len,
            subst(s@, vars@) == out@ + subst_from(s@, vars@, i as int),
        decreases len - i,
    {
        let mut handled = false;
        if s.get_char(i) == '$' && i + 1 < len {
            if s.get_char(i + 1) == '{' {
                // look for the matching close brace
                let mut j = i + 2;
                while j < len && s.get_char(j) != '}'
                    invariant
                        i + 2 <= j <= len,
                        forall|k: int| i + 2 <= k < j ==> s@[k] != '}',
                    decreases len - j,
                {
                    j = j + 1;
                }
                if j < len {
                    proof {
                        lemma_find_close_at(s@, i + 2, j as int);
                        assert(placeholder_at(s@, i as int));
                    }
                    let name = s.substring_char(i + 2, j);
                    match vars.get(name) {
                        Some(value) => {
                            proof {
                                assert(name@ == placeholder_name(s@, i as int));
                                assert(subst_from(s@, vars@, i as int) == vars@[name@]
                                    + subst_from(s@, vars@, j + 1));
                            }
                            out.append(value.as_str());
                        }
                        None => {
                            let verbatim = s.substring_char(i, j + 1);
                            proof {
                                assert(subst_from(s@, vars@, i as int) == s@.subrange(
                                    i as int,
                                    j + 1,
                                ) + subst_from(s@, vars@, j + 1));
                            }
                            out.append(verbatim);
                        }
                    }
                    proof {
                        assert(subst(s@, vars@) =~= out@ + subst_from(s@, vars@, j + 1));
                    }
                    i = j + 1;
                    handled = true;
                } else {
                    proof {
                        assert(j == len && len == s@.len());
                        assert(forall|k: int| i + 2 <= k < s@.len() ==> s@[k] != '}');
                        lemma_find_close_none(s@, i + 2);
                        assert(!placeholder_at(s@, i as int));
                    }
                }
            }
        }
        if !handled {
            proof {
                assert(!placeholder_at(s@, i as int));
                assert(subst_from(s@, vars@, i as int) == seq![s@[i as int]] + subst_from(
                    s@,
                    vars@,
                    i as int + 1,
                ));
            }
            let one = s.substring_char(i, i + 1);
            proof {
                assert(one@ =~= seq![s@[i as int]]);
            }
            out.append(one);
            proof {
                assert(subst(s@, vars@) =~= out@ + subst_from(s@, vars@, i as int + 1));
            }
            i = i + 1;
        }
    }
    proof {
        assert(subst(s@, vars@) =~= out@);
    }
    out
}

} // verus!
