use crate::symbols::{faithful, same_symbol};
use vstd::prelude::*;

verus! {

/// Whether the non-empty pattern `p` occurs in `s` starting at position `i`.
/// An empty pattern never applies: it would consume nothing.
pub open spec fn pattern_matches<T>(s: Seq<T>, i: int, p: Seq<T>) -> bool {
    &&& 0 < p.len()
    &&& 0 <= i
    &&& i + p.len() <= s.len()
    &&& s.subrange(i, i + p.len()) == p
}

/// `f` with the entry at (`i`, `j`) set to `v`.
pub open spec fn set_at<A>(f: spec_fn(int, int) -> A, i: int, j: int, v: A) -> spec_fn(int, int) -> A {
    |a: int, b: int|
        if a == i && b == j {
            v
        } else {
            f(a, b)
        }
}

/// `f` and `g` agree on every cursor position before `i`.
pub open spec fn same_before<A>(f: spec_fn(int, int) -> A, g: spec_fn(int, int) -> A, i: int) -> bool {
    forall|a: int, b: int| a < i ==> #[trigger] f(a, b) == g(a, b)
}

/// The index of the first rule, from index `j` on, whose pattern matches at
/// cursor `i`; `pats.len()` where there is none.
pub open spec fn first_rule<T>(s: Seq<T>, pats: Seq<Seq<T>>, i: int, j: int) -> int
    decreases pats.len() - j,
{
    if j >= pats.len() {
        pats.len() as int
    } else if pattern_matches(s, i, pats[j]) {
        j
    } else {
        first_rule(s, pats, i, j + 1)
    }
}

/// The output of one generation from cursor `i` to the end of `s`. At each
/// cursor the first rule `j` that matches emits `prod(i, j)` and the cursor
/// moves past the matched pattern; where no rule does, the symbol
/// at the cursor is kept and the cursor moves by one.
pub open spec fn scan<T>(
    s: Seq<T>,
    pats: Seq<Seq<T>>,
    prod: spec_fn(int, int) -> Seq<T>,
    i: int,
) -> Seq<T>
    decreases s.len() - i,
{
    if i < 0 || i >= s.len() {
        Seq::empty()
    } else {
        let j = first_rule(s, pats, i, 0);
        if 0 <= j < pats.len() && 0 < pats[j].len() && i + pats[j].len() <= s.len() {
            prod(i, j) + scan(s, pats, prod, i + pats[j].len())
        } else {
            seq![s[i]] + scan(s, pats, prod, i + 1)
        }
    }
}

/// The patterns of a rule list whose rules lead with a pattern.
pub open spec fn patterns_of<T, R>(rules: Seq<(Vec<T>, R)>) -> Seq<Seq<T>> {
    rules.map_values(|r: (Vec<T>, R)| r.0@)
}

/// The production that emits rule `b`'s fixed replacement wherever it applies.
pub open spec fn fixed<T>(reps: Seq<Seq<T>>) -> spec_fn(int, int) -> Seq<T> {
    |a: int, b: int| reps[b]
}

/// A rule whose first-rule search found index `j < pats.len()` matches there.
pub proof fn lemma_first_rule_matches<T>(s: Seq<T>, pats: Seq<Seq<T>>, i: int, j: int)
    requires
        0 <= j,
    ensures
        first_rule(s, pats, i, j) < pats.len() ==> {
            let k = first_rule(s, pats, i, j);
            &&& j <= k
            &&& pattern_matches(s, i, pats[k])
        },
        first_rule(s, pats, i, j) <= pats.len(),
    decreases pats.len() - j,
{
    if j < pats.len() {
        lemma_first_rule_matches(s, pats, i, j + 1);
    }
}

/// Whether `p` matches `s` at position `i`.
pub(crate) fn matches_at<T: PartialEq + Clone>(s: &Vec<T>, i: usize, p: &Vec<T>) -> (r: bool)
    requires
        faithful::<T>(),
        i <= s.len(),
    ensures
        r == pattern_matches(s@, i as int, p@),
{
    if p.len() == 0 || p.len() > s.len() - i {
        return false;
    }
    let mut k: usize = 0;
    while k < p.len()
        invariant
            faithful::<T>(),
            i + p.len() <= s.len(),
            k <= p.len(),
            forall|m: int| 0 <= m < k ==> s@[i + m] == p@[m],
        decreases p.len() - k,
    {
        if !same_symbol(&s[i + k], &p[k]) {
            assert(s@.subrange(i as int, i + p.len())[k as int] != p@[k as int]);
            return false;
        }
        k = k + 1;
    }
    assert(s@.subrange(i as int, i + p.len()) =~= p@);
    true
}

/// The index of the first rule whose pattern matches at `i`, or `rules.len()`.
pub(crate) fn first_match<T: PartialEq + Clone, R>(s: &Vec<T>, i: usize, rules: &Vec<(Vec<T>, R)>) -> (j: usize)
    requires
        faithful::<T>(),
        i < s.len(),
    ensures
        j <= rules.len(),
        j == first_rule(s@, patterns_of(rules@), i as int, 0),
{
    let ghost pats = patterns_of(rules@);
    let mut j: usize = 0;
    while j < rules.len()
        invariant
            faithful::<T>(),
            i < s.len(),
            j <= rules.len(),
            pats == patterns_of(rules@),
            first_rule(s@, pats, i as int, 0) == first_rule(s@, pats, i as int, j as int),
        decreases rules.len() - j,
    {
        if matches_at(s, i, &rules[j].0) {
            return j;
        }
        j = j + 1;
    }
    j
}

} // verus!
