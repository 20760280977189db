use crate::scan::{first_match, first_rule, lemma_first_rule_matches, patterns_of, same_before, scan, set_at};
use crate::symbols::{copy_symbol, copy_symbols, faithful};
use vstd::prelude::*;

verus! {

/// A record of replacements, one for each cursor position and rule index.
pub type Production<T> = spec_fn(int, int) -> Seq<T>;

/// `f`, called with a vector that holds `pat`, may return one that holds `out`.
pub open spec fn may_produce<T, F: Fn(Vec<T>) -> Vec<T>>(f: F, pat: Seq<T>, out: Seq<T>) -> bool {
    exists|x: Vec<T>, v: Vec<T>| x@ == pat && v@ == out && #[trigger] f.ensures((x,), v)
}

/// Along the scan of `s` from cursor `i`, every replacement that `prod` records
/// where a rule applies is a result that the rule's function may return for the
/// rule's pattern.
pub open spec fn productions_valid<T, F: Fn(Vec<T>) -> Vec<T>>(
    s: Seq<T>,
    rules: Seq<(Vec<T>, F)>,
    prod: Production<T>,
    i: int,
) -> bool
    decreases s.len() - i,
{
    if i < 0 || i >= s.len() {
        true
    } else {
        let pats = patterns_of(rules);
        let j = first_rule(s, pats, i, 0);
        if 0 <= j < pats.len() && 0 < pats[j].len() && i + pats[j].len() <= s.len() {
            may_produce(rules[j].1, rules[j].0@, prod(i, j)) && productions_valid(s, rules, prod, i + pats[j].len())
        } else {
            productions_valid(s, rules, prod, i + 1)
        }
    }
}

/// The generations from `s`, one for each replacement record in `prods`.
pub open spec fn function_rewrite<T>(s: Seq<T>, pats: Seq<Seq<T>>, prods: Seq<Production<T>>) -> Seq<T>
    decreases prods.len(),
{
    if prods.len() == 0 {
        s
    } else {
        scan(function_rewrite(s, pats, prods.drop_last()), pats, prods.last(), 0)
    }
}

/// Every record of `prods` is valid along the generation it was used for.
pub open spec fn runs_valid<T, F: Fn(Vec<T>) -> Vec<T>>(s: Seq<T>, rules: Seq<(Vec<T>, F)>, prods: Seq<Production<T>>) -> bool
    decreases prods.len(),
{
    prods.len() == 0 || (runs_valid(s, rules, prods.drop_last()) && productions_valid(
        function_rewrite(s, patterns_of(rules), prods.drop_last()),
        rules,
        prods.last(),
        0,
    ))
}

/// `r` is what `n` generations from `s` give under the replacement records
/// `prods`, one per generation, where each replacement used is one that the
/// rule's function may return for its pattern.
pub open spec fn function_outcome<T, F: Fn(Vec<T>) -> Vec<T>>(
    s: Seq<T>,
    rules: Seq<(Vec<T>, F)>,
    n: nat,
    prods: Seq<Production<T>>,
    r: Seq<T>,
) -> bool {
    &&& prods.len() == n
    &&& runs_valid(s, rules, prods)
    &&& r == function_rewrite(s, patterns_of(rules), prods)
}

/// Rewrites `start` for `iterations` generations with (pattern, function)
/// rules. The scan is that of the pattern engine; where a rule applies, its
/// function is called with a copy of the pattern and what it returns is emitted.
pub fn arbitrary_lsystem<T: PartialEq + Clone, F: Fn(Vec<T>) -> Vec<T>>(
    start: Vec<T>,
    rules: &Vec<(Vec<T>, F)>,
    iterations: u32,
) -> (r: Vec<T>)
    requires
        faithful::<T>(),
        forall|j: int, v: Vec<T>| 0 <= j < rules@.len() ==> #[trigger] rules@[j].1.requires((v,)),
    ensures
        exists|prods: Seq<Production<T>>| #[trigger] function_outcome(start@, rules@, iterations as nat, prods, r@),
{
    let ghost pats = patterns_of(rules@);
    let ghost mut prods: Seq<Production<T>> = Seq::empty();
    let mut cur = start;
    let mut k: u32 = 0;
    while k < iterations
        invariant
            faithful::<T>(),
            forall|j: int, v: Vec<T>| 0 <= j < rules@.len() ==> #[trigger] rules@[j].1.requires((v,)),
            k <= iterations,
            pats == patterns_of(rules@),
            function_outcome(start@, rules@, k as nat, prods, cur@),
        decreases iterations - k,
    {
        cur = function_generation(&cur, rules);
        proof {
            let p = choose|p: Production<T>| productions_valid(function_rewrite(start@, pats, prods), rules@, p, 0) && cur@ == #[trigger] scan(
                function_rewrite(start@, pats, prods),
                pats,
                p,
                0,
            );
            let next = prods.push(p);
            assert(next.drop_last() =~= prods);
            prods = next;
        }
        k = k + 1;
    }
    cur
}

/// One generation of the function engine.
fn function_generation<T: PartialEq + Clone, F: Fn(Vec<T>) -> Vec<T>>(s: &Vec<T>, rules: &Vec<(Vec<T>, F)>) -> (r:
    Vec<T>)
    requires
        faithful::<T>(),
        forall|j: int, v: Vec<T>| 0 <= j < rules@.len() ==> #[trigger] rules@[j].1.requires((v,)),
    ensures
        exists|p: Production<T>| productions_valid(s@, rules@, p, 0) && r@ == #[trigger] scan(
            s@,
            patterns_of(rules@),
            p,
            0,
        ),
{
    let ghost pats = patterns_of(rules@);
    let ghost mut cur: Production<T> = |a: int, b: int| Seq::<T>::empty();
    let mut out: Vec<T> = Vec::new();
    let mut i: usize = 0;
    while i < s.len()
        invariant
            faithful::<T>(),
            forall|j: int, v: Vec<T>| 0 <= j < rules@.len() ==> #[trigger] rules@[j].1.requires((v,)),
            i <= s.len(),
            pats == patterns_of(rules@),
            forall|p: Production<T>|
                same_before(p, cur, i as int) ==> #[trigger] productions_valid(s@, rules@, p, 0)
                    == productions_valid(s@, rules@, p, i as int),
            forall|p: Production<T>|
                same_before(p, cur, i as int) ==> #[trigger] scan(s@, pats, p, 0) == out@ + scan(
                    s@,
                    pats,
                    p,
                    i as int,
                ),
        decreases s.len() - i,
    {
        let j = first_match(s, i, rules);
        proof {
            lemma_first_rule_matches(s@, pats, i as int, 0);
        }
        let ghost old_out = out@;
        let ghost at = i as int;
        if j < rules.len() {
            let pat = copy_symbols(&rules[j].0);
            let ghost x = pat;
            let mut rep = (rules[j].1)(pat);
            let ghost emitted = rep@;
            let ghost prev = cur;
            proof {
                cur = set_at(prev, at, j as int, emitted);
                assert(may_produce(rules@[j as int].1, rules@[j as int].0@, emitted));
            }
            out.append(&mut rep);
            i = i + rules[j].0.len();
            assert forall|p: Production<T>| same_before(p, cur, i as int) implies #[trigger] scan(
                s@,
                pats,
                p,
                0,
            ) == out@ + scan(s@, pats, p, i as int) by {
                assert forall|a: int, b: int| a < at implies #[trigger] p(a, b) == prev(a, b) by {
                    assert(p(a, b) == cur(a, b));
                }
                assert(p(at, j as int) == cur(at, j as int));
                let tail = scan(s@, pats, p, i as int);
                assert(old_out + (emitted + tail) =~= out@ + tail);
            }
            assert forall|p: Production<T>| same_before(p, cur, i as int) implies #[trigger] productions_valid(
                s@,
                rules@,
                p,
                0,
            ) == productions_valid(s@, rules@, p, i as int) by {
                assert forall|a: int, b: int| a < at implies #[trigger] p(a, b) == prev(a, b) by {
                    assert(p(a, b) == cur(a, b));
                }
                assert(p(at, j as int) == cur(at, j as int));
                assert(productions_valid(s@, rules@, p, 0) == productions_valid(s@, rules@, p, at));
            }
        } else {
            out.push(copy_symbol(&s[i]));
            i = i + 1;
            assert forall|p: Production<T>| same_before(p, cur, i as int) implies #[trigger] scan(
                s@,
                pats,
                p,
                0,
            ) == out@ + scan(s@, pats, p, i as int) by {
                assert(same_before(p, cur, at));
                let tail = scan(s@, pats, p, i as int);
                assert(old_out + (seq![s@[at]] + tail) =~= out@ + tail);
            }
            assert forall|p: Production<T>| same_before(p, cur, i as int) implies #[trigger] productions_valid(
                s@,
                rules@,
                p,
                0,
            ) == productions_valid(s@, rules@, p, i as int) by {
                assert(same_before(p, cur, at));
                assert(productions_valid(s@, rules@, p, 0) == productions_valid(s@, rules@, p, at));
            }
        }
    }
    assert(same_before(cur, cur, s.len() as int));
    assert(scan(s@, pats, cur, 0) == out@ + scan(s@, pats, cur, s.len() as int));
    assert(out@ + Seq::<T>::empty() =~= out@);
    assert(productions_valid(s@, rules@, cur, 0) == productions_valid(s@, rules@, cur, s.len() as int));
    assert(productions_valid(s@, rules@, cur, 0) && out@ == scan(s@, pats, cur, 0));
    out
}

} // verus!
