use crate::function_engine::{function_outcome, function_rewrite, may_produce, productions_valid, runs_valid, Production};
use crate::pattern_engine::{pattern_pass, pattern_rewrite};
use crate::random_engine::{
    chance_patterns_of, chance_replacements_of, chances_of, cursor_step, draw_scan, draws_in_range,
    draws_rewrite, random_outcome, rules_draw_scan, CHANCE_SCALE,
};
use crate::scan::{first_rule, fixed, pattern_matches, patterns_of, scan};
use crate::symbol_engine::{symbol_image, symbol_pass, symbol_rewrite};
use vstd::prelude::*;

verus! {

// ----- helper lemmas -----
proof fn lemma_scan_no_rules<T>(s: Seq<T>, pats: Seq<Seq<T>>, p: Production<T>, i: int)
    requires
        pats.len() == 0,
        0 <= i <= s.len(),
    ensures
        scan(s, pats, p, i) == s.subrange(i, s.len() as int),
    decreases s.len() - i,
{
    if i < s.len() {
        lemma_scan_no_rules(s, pats, p, i + 1);
        assert(seq![s[i]] + s.subrange(i + 1, s.len() as int) =~= s.subrange(i, s.len() as int));
    } else {
        assert(s.subrange(i, s.len() as int) =~= Seq::<T>::empty());
    }
}

proof fn lemma_symbol_no_rules<T>(s: Seq<T>, rules: Seq<(T, Seq<T>)>)
    requires
        rules.len() == 0,
    ensures
        symbol_pass(s, rules) == s,
    decreases s.len(),
{
    if s.len() > 0 {
        lemma_symbol_no_rules(s.drop_last(), rules);
        assert(symbol_image(s.last(), rules) == seq![s.last()]);
        assert(s.drop_last() + seq![s.last()] =~= s);
    }
}

proof fn lemma_symbol_empty_start<T>(rules: Seq<(T, Seq<T>)>, n: nat)
    ensures
        symbol_rewrite(Seq::<T>::empty(), rules, n) == Seq::<T>::empty(),
    decreases n,
{
    if n > 0 {
        lemma_symbol_empty_start(rules, (n - 1) as nat);
    }
}

proof fn lemma_draw_scan_no_rules<T>(
    s: Seq<T>,
    pats: Seq<Seq<T>>,
    reps: Seq<Seq<T>>,
    chances: Seq<i64>,
    draws: Seq<u32>,
    i: int,
)
    requires
        pats.len() == 0,
        0 <= i <= s.len(),
    ensures
        draw_scan(s, pats, reps, chances, draws, i) == Some((s.subrange(i, s.len() as int), 0nat)),
    decreases s.len() - i,
{
    if i < s.len() {
        assert(draws.skip(0) =~= draws);
        lemma_draw_scan_no_rules(s, pats, reps, chances, draws, i + 1);
        assert(seq![s[i]] + s.subrange(i + 1, s.len() as int) =~= s.subrange(i, s.len() as int));
    } else {
        assert(s.subrange(i, s.len() as int) =~= Seq::<T>::empty());
    }
}

proof fn lemma_random_no_rules<T>(s: Seq<T>, rules: Seq<(Vec<T>, Vec<T>, i64)>, runs: Seq<Seq<u32>>)
    requires
        rules.len() == 0,
    ensures
        draws_rewrite(s, rules, runs) == Some(s),
    decreases runs.len(),
{
    if runs.len() > 0 {
        lemma_random_no_rules(s, rules, runs.drop_last());
        lemma_draw_scan_no_rules(
            s,
            chance_patterns_of(rules),
            chance_replacements_of(rules),
            chances_of(rules),
            runs.last(),
            0,
        );
        assert(s.subrange(0, s.len() as int) =~= s);
    }
}

proof fn lemma_function_no_rules<T>(s: Seq<T>, pats: Seq<Seq<T>>, prods: Seq<Production<T>>)
    requires
        pats.len() == 0,
    ensures
        function_rewrite(s, pats, prods) == s,
    decreases prods.len(),
{
    if prods.len() > 0 {
        lemma_function_no_rules(s, pats, prods.drop_last());
        lemma_scan_no_rules(s, pats, prods.last(), 0);
        assert(s.subrange(0, s.len() as int) =~= s);
    }
}

/// Along a valid record, where every result a rule's function may return for
/// its pattern is that rule's fixed replacement, the scan is the pattern scan.
proof fn lemma_valid_scan<T, F: Fn(Vec<T>) -> Vec<T>>(
    s: Seq<T>,
    rules: Seq<(Vec<T>, F)>,
    reps: Seq<Seq<T>>,
    p: Production<T>,
    i: int,
)
    requires
        forall|b: int, o: Seq<T>|
            0 <= b < rules.len() && #[trigger] may_produce(rules[b].1, rules[b].0@, o) ==> o == reps[b],
        productions_valid(s, rules, p, i),
    ensures
        scan(s, patterns_of(rules), p, i) == scan(s, patterns_of(rules), fixed(reps), i),
    decreases s.len() - i,
{
    let pats = patterns_of(rules);
    if 0 <= i < s.len() {
        let j = first_rule(s, pats, i, 0);
        if 0 <= j < pats.len() && 0 < pats[j].len() && i + pats[j].len() <= s.len() {
            lemma_valid_scan(s, rules, reps, p, i + pats[j].len());
        } else {
            lemma_valid_scan(s, rules, reps, p, i + 1);
        }
    }
}

proof fn lemma_valid_runs<T, F: Fn(Vec<T>) -> Vec<T>>(
    s: Seq<T>,
    rules: Seq<(Vec<T>, F)>,
    reps: Seq<Seq<T>>,
    prods: Seq<Production<T>>,
)
    requires
        forall|b: int, o: Seq<T>|
            0 <= b < rules.len() && #[trigger] may_produce(rules[b].1, rules[b].0@, o) ==> o == reps[b],
        runs_valid(s, rules, prods),
    ensures
        function_rewrite(s, patterns_of(rules), prods) == pattern_rewrite(s, patterns_of(rules), reps, prods.len()),
    decreases prods.len(),
{
    if prods.len() > 0 {
        lemma_valid_runs(s, rules, reps, prods.drop_last());
        lemma_valid_scan(
            function_rewrite(s, patterns_of(rules), prods.drop_last()),
            rules,
            reps,
            prods.last(),
            0,
        );
    }
}

// ----- laws -----
/// Zero generations give back the starting sequence, for every engine.
pub proof fn law_zero_generations<T, F: Fn(Vec<T>) -> Vec<T>>(
    s: Seq<T>,
    symbol_rules: Seq<(T, Seq<T>)>,
    pats: Seq<Seq<T>>,
    reps: Seq<Seq<T>>,
    chance_rules: Seq<(Vec<T>, Vec<T>, i64)>,
    runs: Seq<Seq<u32>>,
    function_rules: Seq<(Vec<T>, F)>,
    prods: Seq<Production<T>>,
    random_result: Seq<T>,
    function_result: Seq<T>,
)
    requires
        random_outcome(s, chance_rules, 0, runs, random_result),
        function_outcome(s, function_rules, 0, prods, function_result),
    ensures
        symbol_rewrite(s, symbol_rules, 0) == s,
        pattern_rewrite(s, pats, reps, 0) == s,
        random_result == s,
        function_result == s,
{
}

/// With no rules, every engine gives back the starting sequence, whatever the
/// number of generations.
pub proof fn law_no_rules_identity<T, F: Fn(Vec<T>) -> Vec<T>>(
    s: Seq<T>,
    n: nat,
    symbol_rules: Seq<(T, Seq<T>)>,
    pats: Seq<Seq<T>>,
    reps: Seq<Seq<T>>,
    chance_rules: Seq<(Vec<T>, Vec<T>, i64)>,
    runs: Seq<Seq<u32>>,
    function_rules: Seq<(Vec<T>, F)>,
    prods: Seq<Production<T>>,
    random_result: Seq<T>,
    function_result: Seq<T>,
)
    requires
        symbol_rules.len() == 0,
        pats.len() == 0,
        chance_rules.len() == 0,
        function_rules.len() == 0,
        random_outcome(s, chance_rules, n, runs, random_result),
        function_outcome(s, function_rules, n, prods, function_result),
    ensures
        symbol_rewrite(s, symbol_rules, n) == s,
        pattern_rewrite(s, pats, reps, n) == s,
        random_result == s,
        function_result == s,
{
    lemma_random_no_rules(s, chance_rules, runs);
    lemma_function_no_rules(s, patterns_of(function_rules), prods);
    lemma_symbol_rewrite_no_rules(s, symbol_rules, n);
    lemma_pattern_rewrite_no_rules(s, pats, reps, n);
}

proof fn lemma_symbol_rewrite_no_rules<T>(s: Seq<T>, rules: Seq<(T, Seq<T>)>, n: nat)
    requires
        rules.len() == 0,
    ensures
        symbol_rewrite(s, rules, n) == s,
    decreases n,
{
    if n > 0 {
        lemma_symbol_rewrite_no_rules(s, rules, (n - 1) as nat);
        lemma_symbol_no_rules(s, rules);
    }
}

proof fn lemma_pattern_rewrite_no_rules<T>(s: Seq<T>, pats: Seq<Seq<T>>, reps: Seq<Seq<T>>, n: nat)
    requires
        pats.len() == 0,
    ensures
        pattern_rewrite(s, pats, reps, n) == s,
    decreases n,
{
    if n > 0 {
        lemma_pattern_rewrite_no_rules(s, pats, reps, (n - 1) as nat);
        lemma_scan_no_rules(s, pats, fixed(reps), 0);
        assert(s.subrange(0, s.len() as int) =~= s);
    }
}

/// Where a rule applies at cursor `i`, it consumes exactly its pattern: the
/// generation goes on at `i` plus the pattern's length, and what it emits
/// from `i` is the replacement followed by the rest of the scan from there.
pub proof fn law_pattern_advance<T>(s: Seq<T>, pats: Seq<Seq<T>>, reps: Seq<Seq<T>>, i: int)
    requires
        0 <= i < s.len(),
        first_rule(s, pats, i, 0) < pats.len(),
    ensures
        ({
            let j = first_rule(s, pats, i, 0);
            &&& pattern_matches(s, i, pats[j])
            &&& scan(s, pats, fixed(reps), i) == reps[j] + scan(
                s,
                pats,
                fixed(reps),
                i + pats[j].len(),
            )
        }),
{
    crate::scan::lemma_first_rule_matches(s, pats, i, 0);
}

proof fn lemma_first_rule_suffix<T>(s: Seq<T>, pats: Seq<Seq<T>>, i: int, k: int, j: int)
    requires
        0 <= i <= s.len(),
        0 <= k,
    ensures
        first_rule(s, pats, i + k, j) == first_rule(s.skip(i), pats, k, j),
    decreases pats.len() - j,
{
    if j < pats.len() {
        lemma_first_rule_suffix(s, pats, i, k, j + 1);
        if 0 < pats[j].len() && i + k + pats[j].len() <= s.len() {
            assert(s.subrange(i + k, i + k + pats[j].len()) =~= s.skip(i).subrange(k, k + pats[j].len()));
        }
    }
}

/// The scan from cursor `i + k` is the scan of the suffix from `i` at cursor `k`.
proof fn lemma_scan_suffix<T>(s: Seq<T>, pats: Seq<Seq<T>>, reps: Seq<Seq<T>>, i: int, k: int)
    requires
        0 <= i <= s.len(),
        0 <= k,
    ensures
        scan(s, pats, fixed(reps), i + k) == scan(s.skip(i), pats, fixed(reps), k),
    decreases s.len() - i - k,
{
    if i + k < s.len() {
        lemma_first_rule_suffix(s, pats, i, k, 0);
        let j = first_rule(s, pats, i + k, 0);
        if 0 <= j < pats.len() && 0 < pats[j].len() && i + k + pats[j].len() <= s.len() {
            lemma_scan_suffix(s, pats, reps, i, k + pats[j].len());
        } else {
            lemma_scan_suffix(s, pats, reps, i, k + 1);
        }
    }
}

/// Where rule `j` is the one applied at the start, a generation is its
/// replacement followed by a generation of what follows the matched pattern:
/// the consumed symbols are never examined again.
pub proof fn law_pattern_consumes_prefix<T>(s: Seq<T>, pats: Seq<Seq<T>>, reps: Seq<Seq<T>>)
    requires
        0 < s.len(),
        first_rule(s, pats, 0, 0) < pats.len(),
    ensures
        ({
            let j = first_rule(s, pats, 0, 0);
            pattern_pass(s, pats, reps) == reps[j] + pattern_pass(s.skip(pats[j].len() as int), pats, reps)
        }),
{
    crate::scan::lemma_first_rule_matches(s, pats, 0, 0);
    let j = first_rule(s, pats, 0, 0);
    lemma_scan_suffix(s, pats, reps, pats[j].len() as int, 0);
}

/// Where rules `p < q` both match at the start and no rule before `p` does,
/// rule `p` is applied, whether its pattern is shorter or longer than `q`'s.
pub proof fn law_rule_order_breaks_ties<T>(s: Seq<T>, pats: Seq<Seq<T>>, reps: Seq<Seq<T>>, p: int, q: int)
    requires
        0 <= p < q < pats.len(),
        pattern_matches(s, 0, pats[p]),
        pattern_matches(s, 0, pats[q]),
        forall|b: int| 0 <= b < p ==> !pattern_matches(s, 0, #[trigger] pats[b]),
    ensures
        pattern_pass(s, pats, reps) == reps[p] + pattern_pass(s.skip(pats[p].len() as int), pats, reps),
{
    lemma_first_rule_is(s, pats, p, 0);
    law_pattern_consumes_prefix(s, pats, reps);
}

proof fn lemma_first_rule_is<T>(s: Seq<T>, pats: Seq<Seq<T>>, p: int, j: int)
    requires
        0 <= j <= p < pats.len(),
        pattern_matches(s, 0, pats[p]),
        forall|b: int| 0 <= b < p ==> !pattern_matches(s, 0, #[trigger] pats[b]),
    ensures
        first_rule(s, pats, 0, j) == p,
    decreases p - j,
{
    if j < p {
        lemma_first_rule_is(s, pats, p, j + 1);
    }
}

/// Of two rules whose patterns both match at a cursor, the later one is never
/// the one applied: the rule applied is the earlier one or one before it.
pub proof fn law_earlier_rule_wins<T>(s: Seq<T>, pats: Seq<Seq<T>>, i: int, j1: int, j2: int)
    requires
        0 <= j1 < j2 < pats.len(),
        pattern_matches(s, i, pats[j1]),
        pattern_matches(s, i, pats[j2]),
    ensures
        first_rule(s, pats, i, 0) <= j1,
        first_rule(s, pats, i, 0) != j2,
{
    lemma_first_rule_bounded(s, pats, i, 0, j1);
}

proof fn lemma_first_rule_bounded<T>(s: Seq<T>, pats: Seq<Seq<T>>, i: int, j: int, m: int)
    requires
        0 <= j <= m < pats.len(),
        pattern_matches(s, i, pats[m]),
    ensures
        first_rule(s, pats, i, j) <= m,
    decreases m - j,
{
    if j < m {
        lemma_first_rule_bounded(s, pats, i, j + 1, m);
    }
}

/// Where every rule's chance is certain, the probabilistic engine gives what
/// the pattern engine gives with the same patterns and replacements.
pub proof fn law_certain_chances<T>(
    s: Seq<T>,
    rules: Seq<(Vec<T>, Vec<T>, i64)>,
    n: nat,
    runs: Seq<Seq<u32>>,
    r: Seq<T>,
)
    requires
        forall|b: int| 0 <= b < rules.len() ==> #[trigger] rules[b].2 >= CHANCE_SCALE,
        random_outcome(s, rules, n, runs, r),
    ensures
        r == pattern_rewrite(s, chance_patterns_of(rules), chance_replacements_of(rules), n),
{
    lemma_certain_runs(s, rules, runs);
}

proof fn lemma_certain_runs<T>(s: Seq<T>, rules: Seq<(Vec<T>, Vec<T>, i64)>, runs: Seq<Seq<u32>>)
    requires
        forall|b: int| 0 <= b < rules.len() ==> #[trigger] rules[b].2 >= CHANCE_SCALE,
        forall|k: int| 0 <= k < runs.len() ==> draws_in_range(#[trigger] runs[k]),
    ensures
        draws_rewrite(s, rules, runs) is Some ==> draws_rewrite(s, rules, runs) == Some(
            pattern_rewrite(s, chance_patterns_of(rules), chance_replacements_of(rules), runs.len()),
        ),
    decreases runs.len(),
{
    if runs.len() > 0 {
        let rest = runs.drop_last();
        assert forall|k: int| 0 <= k < rest.len() implies draws_in_range(#[trigger] rest[k]) by {
            assert(rest[k] == runs[k]);
        }
        lemma_certain_runs(s, rules, rest);
        assert(draws_in_range(runs[runs.len() - 1]));
        if let Some(p) = draws_rewrite(s, rules, rest) {
            lemma_certain_scan(
                p,
                rules,
                runs.last(),
                0,
            );
        }
    }
}

proof fn lemma_certain_cursor<T>(s: Seq<T>, rules: Seq<(Vec<T>, Vec<T>, i64)>, draws: Seq<u32>, i: int, j: int)
    requires
        0 <= j,
        forall|b: int| 0 <= b < rules.len() ==> #[trigger] rules[b].2 >= CHANCE_SCALE,
        draws_in_range(draws),
    ensures
        cursor_step(s, chance_patterns_of(rules), chances_of(rules), draws, i, j) matches Some((k, u)) ==> k
            == first_rule(s, chance_patterns_of(rules), i, j),
    decreases rules.len() - j,
{
    if j < rules.len() {
        lemma_certain_cursor(s, rules, draws, i, j + 1);
        assert(chances_of(rules)[j] == rules[j].2);
        if draws.len() > 0 {
            assert(draws[0] <= CHANCE_SCALE);
        }
    }
}

proof fn lemma_certain_scan<T>(s: Seq<T>, rules: Seq<(Vec<T>, Vec<T>, i64)>, draws: Seq<u32>, i: int)
    requires
        forall|b: int| 0 <= b < rules.len() ==> #[trigger] rules[b].2 >= CHANCE_SCALE,
        draws_in_range(draws),
    ensures
        draw_scan(s, chance_patterns_of(rules), chance_replacements_of(rules), chances_of(rules), draws, i) matches Some(
            (r, u),
        ) ==> r == scan(s, chance_patterns_of(rules), fixed(chance_replacements_of(rules)), i),
    decreases s.len() - i,
{
    let pats = chance_patterns_of(rules);
    if 0 <= i < s.len() {
        lemma_certain_cursor(s, rules, draws, i, 0);
        crate::random_engine::lemma_cursor_bound(s, pats, chances_of(rules), draws, i, 0);
        if let Some((k, u)) = cursor_step(s, pats, chances_of(rules), draws, i, 0) {
            assert(draws_in_range(draws.skip(u as int)));
            if 0 <= k < pats.len() && 0 < pats[k].len() && i + pats[k].len() <= s.len() {
                lemma_certain_scan(s, rules, draws.skip(u as int), i + pats[k].len());
            } else {
                lemma_certain_scan(s, rules, draws.skip(u as int), i + 1);
            }
        }
    }
}

/// Where every draw of a generation exceeds every rule's chance, no rule
/// applies: the generation gives back its input.
pub proof fn law_rejecting_draws<T>(s: Seq<T>, rules: Seq<(Vec<T>, Vec<T>, i64)>, draws: Seq<u32>, r: Seq<T>, u: nat)
    requires
        forall|m: int, b: int| 0 <= m < draws.len() && 0 <= b < rules.len() ==> #[trigger] draws[m] as int > #[trigger] rules[b].2 as int,
        rules_draw_scan(s, rules, draws) == Some((r, u)),
    ensures
        r == s,
{
    lemma_rejecting_scan(s, rules, draws, 0);
    assert(s.subrange(0, s.len() as int) =~= s);
}

/// A rule whose chance is negative never applies: where every chance is
/// negative, every number of generations gives back the start.
pub proof fn law_negative_chances<T>(
    s: Seq<T>,
    rules: Seq<(Vec<T>, Vec<T>, i64)>,
    n: nat,
    runs: Seq<Seq<u32>>,
    r: Seq<T>,
)
    requires
        forall|b: int| 0 <= b < rules.len() ==> #[trigger] rules[b].2 < 0,
        random_outcome(s, rules, n, runs, r),
    ensures
        r == s,
{
    lemma_negative_runs(s, rules, runs);
}

proof fn lemma_negative_runs<T>(s: Seq<T>, rules: Seq<(Vec<T>, Vec<T>, i64)>, runs: Seq<Seq<u32>>)
    requires
        forall|b: int| 0 <= b < rules.len() ==> #[trigger] rules[b].2 < 0,
    ensures
        draws_rewrite(s, rules, runs) is Some ==> draws_rewrite(s, rules, runs) == Some(s),
    decreases runs.len(),
{
    if runs.len() > 0 {
        lemma_negative_runs(s, rules, runs.drop_last());
        lemma_rejecting_scan(s, rules, runs.last(), 0);
        assert(s.subrange(0, s.len() as int) =~= s);
    }
}

proof fn lemma_rejecting_cursor<T>(s: Seq<T>, rules: Seq<(Vec<T>, Vec<T>, i64)>, draws: Seq<u32>, i: int, j: int)
    requires
        0 <= j,
        forall|m: int, b: int| 0 <= m < draws.len() && 0 <= b < rules.len() ==> #[trigger] draws[m] as int > #[trigger] rules[b].2 as int,
    ensures
        cursor_step(s, chance_patterns_of(rules), chances_of(rules), draws, i, j) matches Some((k, u)) ==> k
            == rules.len(),
    decreases rules.len() - j,
{
    if j < rules.len() {
        lemma_rejecting_cursor(s, rules, draws, i, j + 1);
        assert(chances_of(rules)[j] == rules[j].2);
        if draws.len() > 0 {
            let rest = draws.drop_first();
            assert forall|m: int, b: int| 0 <= m < rest.len() && 0 <= b < rules.len() implies #[trigger] rest[m] as int > #[trigger] rules[b].2 as int by {
                assert(rest[m] == draws[m + 1]);
            }
            assert(draws[0] as int > rules[j].2 as int);
            lemma_rejecting_cursor(s, rules, rest, i, j + 1);
        }
    }
}

proof fn lemma_rejecting_scan<T>(s: Seq<T>, rules: Seq<(Vec<T>, Vec<T>, i64)>, draws: Seq<u32>, i: int)
    requires
        0 <= i <= s.len(),
        forall|m: int, b: int| 0 <= m < draws.len() && 0 <= b < rules.len() ==> #[trigger] draws[m] as int > #[trigger] rules[b].2 as int,
    ensures
        draw_scan(s, chance_patterns_of(rules), chance_replacements_of(rules), chances_of(rules), draws, i) matches Some(
            (r, u),
        ) ==> r == s.subrange(i, s.len() as int),
    decreases s.len() - i,
{
    let pats = chance_patterns_of(rules);
    if i < s.len() {
        lemma_rejecting_cursor(s, rules, draws, i, 0);
        crate::random_engine::lemma_cursor_bound(s, pats, chances_of(rules), draws, i, 0);
        if let Some((k, u)) = cursor_step(s, pats, chances_of(rules), draws, i, 0) {
            let rest = draws.skip(u as int);
            assert forall|m: int, b: int| 0 <= m < rest.len() && 0 <= b < rules.len() implies #[trigger] rest[m] as int > #[trigger] rules[b].2 as int by {
                assert(rest[m] == draws[m + u]);
            }
            lemma_rejecting_scan(s, rules, rest, i + 1);
            assert(seq![s[i]] + s.subrange(i + 1, s.len() as int) =~= s.subrange(i, s.len() as int));
        }
    } else {
        assert(s.subrange(i, s.len() as int) =~= Seq::<T>::empty());
    }
}

/// Where each rule's function returns only empty sequences, the function
/// engine deletes every match: it gives what the pattern engine gives with
/// every replacement empty.
pub proof fn law_function_deletes<T, F: Fn(Vec<T>) -> Vec<T>>(
    s: Seq<T>,
    rules: Seq<(Vec<T>, F)>,
    n: nat,
    prods: Seq<Production<T>>,
    r: Seq<T>,
)
    requires
        forall|b: int, x: Vec<T>, v: Vec<T>|
            0 <= b < rules.len() && #[trigger] rules[b].1.ensures((x,), v) ==> v@.len() == 0,
        function_outcome(s, rules, n, prods, r),
    ensures
        r == pattern_rewrite(
            s,
            patterns_of(rules),
            patterns_of(rules).map_values(|p: Seq<T>| Seq::<T>::empty()),
            n,
        ),
{
    let pats = patterns_of(rules);
    let reps = pats.map_values(|p: Seq<T>| Seq::<T>::empty());
    assert forall|b: int, o: Seq<T>|
        0 <= b < rules.len() && #[trigger] may_produce(rules[b].1, rules[b].0@, o) implies o == reps[b] by {
        let (x, v) = choose|x: Vec<T>, v: Vec<T>|
            x@ == rules[b].0@ && v@ == o && #[trigger] rules[b].1.ensures((x,), v);
        assert(o =~= reps[b]);
    }
    lemma_valid_runs(s, rules, reps, prods);
}

/// Where each rule's function returns its argument unchanged, the function
/// engine gives what the pattern engine gives with every pattern mapped to
/// itself.
pub proof fn law_function_identity<T, F: Fn(Vec<T>) -> Vec<T>>(
    s: Seq<T>,
    rules: Seq<(Vec<T>, F)>,
    n: nat,
    prods: Seq<Production<T>>,
    r: Seq<T>,
)
    requires
        forall|b: int, x: Vec<T>, v: Vec<T>|
            0 <= b < rules.len() && #[trigger] rules[b].1.ensures((x,), v) ==> v@ == x@,
        function_outcome(s, rules, n, prods, r),
    ensures
        r == pattern_rewrite(s, patterns_of(rules), patterns_of(rules), n),
{
    let pats = patterns_of(rules);
    assert forall|b: int, o: Seq<T>|
        0 <= b < rules.len() && #[trigger] may_produce(rules[b].1, rules[b].0@, o) implies o == pats[b] by {
        let (x, v) = choose|x: Vec<T>, v: Vec<T>|
            x@ == rules[b].0@ && v@ == o && #[trigger] rules[b].1.ensures((x,), v);
    }
    lemma_valid_runs(s, rules, pats, prods);
}

/// An empty start stays empty under every engine, whatever the rules and the
/// number of generations.
pub proof fn law_empty_start<T, F: Fn(Vec<T>) -> Vec<T>>(
    n: nat,
    symbol_rules: Seq<(T, Seq<T>)>,
    pats: Seq<Seq<T>>,
    reps: Seq<Seq<T>>,
    chance_rules: Seq<(Vec<T>, Vec<T>, i64)>,
    runs: Seq<Seq<u32>>,
    function_rules: Seq<(Vec<T>, F)>,
    prods: Seq<Production<T>>,
    random_result: Seq<T>,
    function_result: Seq<T>,
)
    requires
        random_outcome(Seq::empty(), chance_rules, n, runs, random_result),
        function_outcome(Seq::empty(), function_rules, n, prods, function_result),
    ensures
        symbol_rewrite(Seq::<T>::empty(), symbol_rules, n) == Seq::<T>::empty(),
        pattern_rewrite(Seq::<T>::empty(), pats, reps, n) == Seq::<T>::empty(),
        random_result == Seq::<T>::empty(),
        function_result == Seq::<T>::empty(),
{
    lemma_symbol_empty_start(symbol_rules, n);
    lemma_pattern_empty_start(pats, reps, n);
    lemma_random_empty_start(chance_rules, runs);
    lemma_function_empty_start(patterns_of(function_rules), prods);
}

proof fn lemma_pattern_empty_start<T>(pats: Seq<Seq<T>>, reps: Seq<Seq<T>>, n: nat)
    ensures
        pattern_rewrite(Seq::<T>::empty(), pats, reps, n) == Seq::<T>::empty(),
    decreases n,
{
    if n > 0 {
        lemma_pattern_empty_start(pats, reps, (n - 1) as nat);
    }
}

proof fn lemma_random_empty_start<T>(rules: Seq<(Vec<T>, Vec<T>, i64)>, runs: Seq<Seq<u32>>)
    ensures
        draws_rewrite(Seq::<T>::empty(), rules, runs) == Some(Seq::<T>::empty()),
    decreases runs.len(),
{
    if runs.len() > 0 {
        lemma_random_empty_start(rules, runs.drop_last());
    }
}

proof fn lemma_function_empty_start<T>(pats: Seq<Seq<T>>, prods: Seq<Production<T>>)
    ensures
        function_rewrite(Seq::<T>::empty(), pats, prods) == Seq::<T>::empty(),
    decreases prods.len(),
{
    if prods.len() > 0 {
        lemma_function_empty_start(pats, prods.drop_last());
    }
}

} // verus!
