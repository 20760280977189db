use crate::scan::{first_match, fixed, lemma_first_rule_matches, patterns_of, scan};
use crate::symbols::{copy_symbol, copy_symbols, faithful};
use vstd::prelude::*;

verus! {

/// The replacements of a rule list of (pattern, replacement) pairs.
pub open spec fn replacements_of<T>(rules: Seq<(Vec<T>, Vec<T>)>) -> Seq<Seq<T>> {
    rules.map_values(|r: (Vec<T>, Vec<T>)| r.1@)
}

/// One generation of the pattern engine: at each cursor the first rule whose
/// pattern matches emits its replacement.
pub open spec fn pattern_pass<T>(s: Seq<T>, pats: Seq<Seq<T>>, reps: Seq<Seq<T>>) -> Seq<T> {
    scan(s, pats, fixed(reps), 0)
}

/// `n` generations of the pattern engine from `s`.
pub open spec fn pattern_rewrite<T>(s: Seq<T>, pats: Seq<Seq<T>>, reps: Seq<Seq<T>>, n: nat) -> Seq<T>
    decreases n,
{
    if n == 0 {
        s
    } else {
        pattern_pass(pattern_rewrite(s, pats, reps, (n - 1) as nat), pats, reps)
    }
}

/// Rewrites `start` for `iterations` generations with (pattern, replacement)
/// rules. At each cursor the first rule, in list order, whose pattern occurs
/// there is applied and the cursor moves past the whole pattern; where none
/// does, the symbol is kept and the cursor moves by one. Rules with an empty
/// pattern never apply.
pub fn complex_lsystem<T: PartialEq + Clone>(
    start: Vec<T>,
    rules: &Vec<(Vec<T>, Vec<T>)>,
    iterations: u32,
) -> (r: Vec<T>)
    requires
        faithful::<T>(),
    ensures
        r@ == pattern_rewrite(start@, patterns_of(rules@), replacements_of(rules@), iterations as nat),
{
    let mut cur = start;
    let mut k: u32 = 0;
    while k < iterations
        invariant
            faithful::<T>(),
            k <= iterations,
            cur@ == pattern_rewrite(start@, patterns_of(rules@), replacements_of(rules@), k as nat),
        decreases iterations - k,
    {
        cur = pattern_generation(&cur, rules);
        k = k + 1;
    }
    cur
}

/// One generation of the pattern engine.
fn pattern_generation<T: PartialEq + Clone>(s: &Vec<T>, rules: &Vec<(Vec<T>, Vec<T>)>) -> (r: Vec<T>)
    requires
        faithful::<T>(),
    ensures
        r@ == pattern_pass(s@, patterns_of(rules@), replacements_of(rules@)),
{
    let ghost pats = patterns_of(rules@);
    let ghost prod = fixed(replacements_of(rules@));
    let mut out: Vec<T> = Vec::new();
    let mut i: usize = 0;
    while i < s.len()
        invariant
            faithful::<T>(),
            i <= s.len(),
            pats == patterns_of(rules@),
            prod == fixed(replacements_of(rules@)),
            scan(s@, pats, prod, 0) == out@ + scan(s@, pats, prod, i as int),
        decreases s.len() - i,
    {
        let j = first_match(s, i, rules);
        proof {
            lemma_first_rule_matches(s@, pats, i as int, 0);
        }
        let ghost old_out = out@;
        if j < rules.len() {
            let mut rep = copy_symbols(&rules[j].1);
            let ghost emitted = rep@;
            out.append(&mut rep);
            i = i + rules[j].0.len();
            let ghost tail = scan(s@, pats, prod, i as int);
            assert(old_out + (emitted + tail) =~= out@ + tail);
        } else {
            out.push(copy_symbol(&s[i]));
            i = i + 1;
            let ghost tail = scan(s@, pats, prod, i as int);
            assert(old_out + (seq![s@[i - 1]] + tail) =~= out@ + tail);
        }
    }
    assert(out@ + Seq::<T>::empty() =~= out@);
    out
}

} // verus!
