use crate::symbols::{copy_symbol, copy_symbols, faithful, same_symbol};
use vstd::prelude::*;

verus! {

/// The rules of the per-symbol engine, with each replacement seen as a sequence.
pub open spec fn symbol_rules_view<T>(rules: Seq<(T, Vec<T>)>) -> Seq<(T, Seq<T>)> {
    rules.map_values(|r: (T, Vec<T>)| (r.0, r.1@))
}

/// What one symbol becomes: the replacement of the first rule for it, or the
/// symbol itself where no rule names it.
pub open spec fn symbol_image<T>(x: T, rules: Seq<(T, Seq<T>)>) -> Seq<T>
    decreases rules.len(),
{
    if rules.len() == 0 {
        seq![x]
    } else if rules[0].0 == x {
        rules[0].1
    } else {
        symbol_image(x, rules.drop_first())
    }
}

/// One generation: every symbol replaced by its image, in order.
pub open spec fn symbol_pass<T>(s: Seq<T>, rules: Seq<(T, Seq<T>)>) -> Seq<T>
    decreases s.len(),
{
    if s.len() == 0 {
        Seq::empty()
    } else {
        symbol_pass(s.drop_last(), rules) + symbol_image(s.last(), rules)
    }
}

/// `n` generations from `s`.
pub open spec fn symbol_rewrite<T>(s: Seq<T>, rules: Seq<(T, Seq<T>)>, n: nat) -> Seq<T>
    decreases n,
{
    if n == 0 {
        s
    } else {
        symbol_pass(symbol_rewrite(s, rules, (n - 1) as nat), rules)
    }
}

/// Rewrites `start` for `iterations` generations, one symbol at a time: each
/// symbol becomes the replacement of the first rule whose symbol equals it, or
/// stays as it is where no rule does.
pub fn lsystem<T: PartialEq + Clone>(start: Vec<T>, rules: &Vec<(T, Vec<T>)>, iterations: u32) -> (r:
    Vec<T>)
    requires
        faithful::<T>(),
    ensures
        r@ == symbol_rewrite(start@, symbol_rules_view(rules@), iterations as nat),
{
    let mut cur = start;
    let mut k: u32 = 0;
    while k < iterations
        invariant
            faithful::<T>(),
            k <= iterations,
            cur@ == symbol_rewrite(start@, symbol_rules_view(rules@), k as nat),
        decreases iterations - k,
    {
        cur = symbol_generation(&cur, rules);
        k = k + 1;
    }
    cur
}

/// One generation of the per-symbol engine.
fn symbol_generation<T: PartialEq + Clone>(s: &Vec<T>, rules: &Vec<(T, Vec<T>)>) -> (r: Vec<T>)
    requires
        faithful::<T>(),
    ensures
        r@ == symbol_pass(s@, symbol_rules_view(rules@)),
{
    let ghost rv = symbol_rules_view(rules@);
    let mut out: Vec<T> = Vec::new();
    let mut i: usize = 0;
    while i < s.len()
        invariant
            faithful::<T>(),
            i <= s.len(),
            rv == symbol_rules_view(rules@),
            out@ == symbol_pass(s@.subrange(0, i as int), rv),
        decreases s.len() - i,
    {
        let mut j: usize = 0;
        let mut found = false;
        assert(rv.subrange(0, rv.len() as int) =~= rv);
        while j < rules.len() && !found
            invariant
                faithful::<T>(),
                i < s.len(),
                j <= rules.len(),
                rv == symbol_rules_view(rules@),
                !found ==> symbol_image(s@[i as int], rv) == symbol_image(
                    s@[i as int],
                    rv.subrange(j as int, rv.len() as int),
                ),
                !found ==> out@ == symbol_pass(s@.subrange(0, i as int), rv),
                found ==> out@ == symbol_pass(s@.subrange(0, i as int), rv) + symbol_image(
                    s@[i as int],
                    rv,
                ),
            decreases rules.len() - j + if found { 0int } else { 1int },
        {
            let ghost tail = rv.subrange(j as int, rv.len() as int);
            assert(tail.drop_first() =~= rv.subrange(j + 1, rv.len() as int));
            if same_symbol(&s[i], &rules[j].0) {
                let mut rep = copy_symbols(&rules[j].1);
                out.append(&mut rep);
                found = true;
            } else {
                j = j + 1;
            }
        }
        if !found {
            assert(rv.subrange(j as int, rv.len() as int).len() == 0);
            out.push(copy_symbol(&s[i]));
        }
        let ghost pre = s@.subrange(0, i + 1);
        assert(pre.drop_last() =~= s@.subrange(0, i as int));
        i = i + 1;
    }
    assert(s@.subrange(0, s.len() as int) =~= s@);
    out
}

} // verus!
