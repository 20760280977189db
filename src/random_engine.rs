use crate::scan::{matches_at, pattern_matches};
use crate::symbols::{copy_symbol, copy_symbols, faithful};
use rand::rngs::StdRng;
use vstd::prelude::*;

verus! {

#[verifier::external_type_specification]
#[verifier::external_body]
pub struct ExStdRng(StdRng);

/// The draw that stands for certainty. A chance is a whole number of
/// millionths, and may lie outside `0..=CHANCE_SCALE`; a draw is uniform over
/// `0..=CHANCE_SCALE`, and a rule whose pattern matches is accepted when the
/// draw is at most its chance. A negative chance is never accepted, and one of
/// at least `CHANCE_SCALE` always is.
pub const CHANCE_SCALE: u32 = 1000000;

/// Relies on rand's `Rng::gen_range` over the inclusive range `0..=CHANCE_SCALE`:
/// the value it returns lies in that range.
#[verifier::external_body]
fn draw_chance(rng: &mut StdRng) -> (r: u32)
    ensures
        r <= CHANCE_SCALE,
{
    rand::Rng::gen_range(rng, 0..=CHANCE_SCALE)
}

/// Whether a draw accepts a rule of the given chance: the bound is closed, so
/// a draw equal to the chance accepts.
pub fn accepts(draw: u32, chance: i64) -> (r: bool)
    ensures
        r == (draw as int <= chance as int),
{
    (draw as i64) <= chance
}

/// The patterns of a list of (pattern, replacement, chance) rules.
pub open spec fn chance_patterns_of<T>(rules: Seq<(Vec<T>, Vec<T>, i64)>) -> Seq<Seq<T>> {
    rules.map_values(|r: (Vec<T>, Vec<T>, i64)| r.0@)
}

/// The replacements of a list of (pattern, replacement, chance) rules.
pub open spec fn chance_replacements_of<T>(rules: Seq<(Vec<T>, Vec<T>, i64)>) -> Seq<Seq<T>> {
    rules.map_values(|r: (Vec<T>, Vec<T>, i64)| r.1@)
}

/// The chances of a list of (pattern, replacement, chance) rules.
pub open spec fn chances_of<T>(rules: Seq<(Vec<T>, Vec<T>, i64)>) -> Seq<i64> {
    rules.map_values(|r: (Vec<T>, Vec<T>, i64)| r.2)
}

/// Every draw lies in `0..=CHANCE_SCALE`.
pub open spec fn draws_in_range(draws: Seq<u32>) -> bool {
    forall|m: int| 0 <= m < draws.len() ==> #[trigger] draws[m] <= CHANCE_SCALE
}

/// `o` with `n` more draws counted as used.
pub open spec fn shift(o: Option<(int, nat)>, n: nat) -> Option<(int, nat)> {
    match o {
        Some((k, u)) => Some((k, u + n)),
        None => None,
    }
}

/// `o` with `head` emitted before its output and `n` more draws counted.
pub open spec fn prepend<T>(head: Seq<T>, n: nat, o: Option<(Seq<T>, nat)>) -> Option<(Seq<T>, nat)> {
    match o {
        Some((r, u)) => Some((head + r, u + n)),
        None => None,
    }
}

/// The rule chosen at cursor `i`, trying rules from index `j` on, and how many
/// of `draws` that took. Each rule whose pattern matches takes the next draw
/// and is accepted when the draw is at most its chance; a rule that does not
/// match takes none. The index is `pats.len()` where no rule is accepted, and
/// the result is `None` where the draws run out.
pub open spec fn cursor_step<T>(
    s: Seq<T>,
    pats: Seq<Seq<T>>,
    chances: Seq<i64>,
    draws: Seq<u32>,
    i: int,
    j: int,
) -> Option<(int, nat)>
    decreases pats.len() - j,
{
    if j >= pats.len() {
        Some((pats.len() as int, 0nat))
    } else if !pattern_matches(s, i, pats[j]) {
        cursor_step(s, pats, chances, draws, i, j + 1)
    } else if draws.len() == 0 {
        None
    } else if draws[0] as int <= chances[j] as int {
        Some((j, 1nat))
    } else {
        shift(cursor_step(s, pats, chances, draws.drop_first(), i, j + 1), 1)
    }
}

/// One generation of the probabilistic engine from cursor `i`, with the given
/// draws taken in order: the output and the number of draws used, or `None`
/// where the draws run out.
pub open spec fn draw_scan<T>(
    s: Seq<T>,
    pats: Seq<Seq<T>>,
    reps: Seq<Seq<T>>,
    chances: Seq<i64>,
    draws: Seq<u32>,
    i: int,
) -> Option<(Seq<T>, nat)>
    decreases s.len() - i,
{
    if i < 0 || i >= s.len() {
        Some((Seq::empty(), 0nat))
    } else {
        match cursor_step(s, pats, chances, draws, i, 0) {
            None => None,
            Some((k, u)) => if 0 <= k < pats.len() && 0 < pats[k].len() && i + pats[k].len() <= s.len() {
                prepend(reps[k], u, draw_scan(s, pats, reps, chances, draws.skip(u as int), i + pats[k].len()))
            } else {
                prepend(seq![s[i]], u, draw_scan(s, pats, reps, chances, draws.skip(u as int), i + 1))
            },
        }
    }
}

/// One generation of `rules` on `s` with the given draws.
pub open spec fn rules_draw_scan<T>(s: Seq<T>, rules: Seq<(Vec<T>, Vec<T>, i64)>, draws: Seq<u32>) -> Option<
    (Seq<T>, nat),
> {
    draw_scan(s, chance_patterns_of(rules), chance_replacements_of(rules), chances_of(rules), draws, 0)
}

/// The generations from `s`, one for each run of draws in `runs`; `None` where
/// a run is too short.
pub open spec fn draws_rewrite<T>(s: Seq<T>, rules: Seq<(Vec<T>, Vec<T>, i64)>, runs: Seq<Seq<u32>>) -> Option<
    Seq<T>,
>
    decreases runs.len(),
{
    if runs.len() == 0 {
        Some(s)
    } else {
        match draws_rewrite(s, rules, runs.drop_last()) {
            Some(p) => pass_output(rules_draw_scan(p, rules, runs.last())),
            None => None,
        }
    }
}

/// `r` is what `n` generations from `s` give with the runs of draws `runs`,
/// one per generation, each drawn from `0..=CHANCE_SCALE`.
pub open spec fn random_outcome<T>(
    s: Seq<T>,
    rules: Seq<(Vec<T>, Vec<T>, i64)>,
    n: nat,
    runs: Seq<Seq<u32>>,
    r: Seq<T>,
) -> bool {
    &&& runs.len() == n
    &&& forall|k: int| 0 <= k < runs.len() ==> draws_in_range(#[trigger] runs[k])
    &&& draws_rewrite(s, rules, runs) == Some(r)
}

/// The output of a generation, without its draw count.
pub open spec fn pass_output<T>(o: Option<(Seq<T>, nat)>) -> Option<Seq<T>> {
    match o {
        Some((r, u)) => Some(r),
        None => None,
    }
}

/// The output and draw count of a generation as sequences.
pub open spec fn pass_view<T>(r: Option<(Vec<T>, usize)>) -> Option<(Seq<T>, nat)> {
    match r {
        Some((v, u)) => Some((v@, u as nat)),
        None => None,
    }
}

/// Where the draws run out, fewer remain than there are rules still to try.
pub(crate) proof fn lemma_cursor_bound<T>(s: Seq<T>, pats: Seq<Seq<T>>, chances: Seq<i64>, draws: Seq<u32>, i: int, j: int)
    requires
        0 <= j <= pats.len(),
    ensures
        cursor_step(s, pats, chances, draws, i, j) is None ==> draws.len() < pats.len() - j,
        cursor_step(s, pats, chances, draws, i, j) matches Some((k, u)) ==> u <= pats.len() - j && u <= draws.len(),
    decreases pats.len() - j,
{
    if j < pats.len() {
        lemma_cursor_bound(s, pats, chances, draws, i, j + 1);
        if draws.len() > 0 {
            lemma_cursor_bound(s, pats, chances, draws.drop_first(), i, j + 1);
        }
    }
}

/// Where the draws run out, fewer remain than the positions left times the rules.
proof fn lemma_scan_bound<T>(
    s: Seq<T>,
    pats: Seq<Seq<T>>,
    reps: Seq<Seq<T>>,
    chances: Seq<i64>,
    draws: Seq<u32>,
    i: int,
)
    requires
        0 <= i,
    ensures
        draw_scan(s, pats, reps, chances, draws, i) is None ==> draws.len() < (s.len() - i) * pats.len(),
    decreases s.len() - i,
{
    if i < s.len() {
        lemma_cursor_bound(s, pats, chances, draws, i, 0);
        let p = pats.len() as int;
        let m = s.len() - i;
        match cursor_step(s, pats, chances, draws, i, 0) {
            None => {
                assert(p <= m * p) by (nonlinear_arith)
                    requires
                        m >= 1,
                        p >= 0,
                ;
            },
            Some((k, u)) => {
                let next = if 0 <= k < pats.len() && 0 < pats[k].len() && i + pats[k].len() <= s.len() {
                    i + pats[k].len()
                } else {
                    i + 1
                };
                lemma_scan_bound(s, pats, reps, chances, draws.skip(u as int), next);
                assert((s.len() - next) * p <= (m - 1) * p) by (nonlinear_arith)
                    requires
                        s.len() - next <= m - 1,
                        p >= 0,
                ;
                assert((m - 1) * p + p == m * p) by (nonlinear_arith);
            },
        }
    }
}

/// With no rules, a generation needs no draw.
proof fn lemma_no_rules_no_draws<T>(
    s: Seq<T>,
    pats: Seq<Seq<T>>,
    reps: Seq<Seq<T>>,
    chances: Seq<i64>,
    draws: Seq<u32>,
    i: int,
)
    requires
        pats.len() == 0,
    ensures
        draw_scan(s, pats, reps, chances, draws, i) is Some,
    decreases s.len() - i,
{
    if 0 <= i < s.len() {
        lemma_no_rules_no_draws(s, pats, reps, chances, draws, i + 1);
        assert(draws.skip(0) =~= draws);
    }
}

/// The rule chosen at cursor `i` with the draws from index `start` on, and the
/// index of the first draw left unused.
fn cursor_choice<T: PartialEq + Clone>(
    s: &Vec<T>,
    rules: &Vec<(Vec<T>, Vec<T>, i64)>,
    i: usize,
    draws: &Vec<u32>,
    start: usize,
) -> (r: Option<(usize, usize)>)
    requires
        faithful::<T>(),
        i < s.len(),
        start <= draws.len(),
    ensures
        match r {
            Some((k, e)) => start <= e <= draws.len() && k <= rules.len() && cursor_step(
                s@,
                chance_patterns_of(rules@),
                chances_of(rules@),
                draws@.skip(start as int),
                i as int,
                0,
            ) == Some((k as int, (e - start) as nat)),
            None => cursor_step(
                s@,
                chance_patterns_of(rules@),
                chances_of(rules@),
                draws@.skip(start as int),
                i as int,
                0,
            ) is None,
        },
{
    let ghost pats = chance_patterns_of(rules@);
    let ghost chances = chances_of(rules@);
    let mut j: usize = 0;
    let mut d: usize = start;
    while j < rules.len()
        invariant
            faithful::<T>(),
            i < s.len(),
            start <= d <= draws.len(),
            j <= rules.len(),
            pats == chance_patterns_of(rules@),
            chances == chances_of(rules@),
            cursor_step(s@, pats, chances, draws@.skip(start as int), i as int, 0) == shift(
                cursor_step(s@, pats, chances, draws@.skip(d as int), i as int, j as int),
                (d - start) as nat,
            ),
        decreases rules.len() - j,
    {
        if matches_at(s, i, &rules[j].0) {
            if d == draws.len() {
                return None;
            }
            if accepts(draws[d], rules[j].2) {
                return Some((j, d + 1));
            }
            assert(draws@.skip(d as int).drop_first() =~= draws@.skip(d + 1));
            d = d + 1;
        }
        j = j + 1;
    }
    Some((j, d))
}

/// One generation of the probabilistic engine with the draws given: each rule
/// whose pattern matches at the cursor, tried in order, takes the next draw
/// and applies when the draw is at most its chance. Returns the output and the
/// number of draws used, or `None` where the draws run out.
pub fn random_pass_with_draws<T: PartialEq + Clone>(
    s: &Vec<T>,
    rules: &Vec<(Vec<T>, Vec<T>, i64)>,
    draws: &Vec<u32>,
) -> (r: Option<(Vec<T>, usize)>)
    requires
        faithful::<T>(),
    ensures
        pass_view(r) == rules_draw_scan(s@, rules@, draws@),
{
    let ghost pats = chance_patterns_of(rules@);
    let ghost reps = chance_replacements_of(rules@);
    let ghost chances = chances_of(rules@);
    let mut out: Vec<T> = Vec::new();
    let mut i: usize = 0;
    let mut d: usize = 0;
    proof {
        assert(draws@.skip(0) =~= draws@);
        match draw_scan(s@, pats, reps, chances, draws@, 0) {
            Some((r, u)) => {
                assert(Seq::<T>::empty() + r =~= r);
            },
            None => {},
        }
    }
    while i < s.len()
        invariant
            faithful::<T>(),
            i <= s.len(),
            d <= draws.len(),
            pats == chance_patterns_of(rules@),
            reps == chance_replacements_of(rules@),
            chances == chances_of(rules@),
            draw_scan(s@, pats, reps, chances, draws@, 0) == prepend(
                out@,
                d as nat,
                draw_scan(s@, pats, reps, chances, draws@.skip(d as int), i as int),
            ),
        decreases s.len() - i,
    {
        let c = cursor_choice(s, rules, i, draws, d);
        match c {
            None => {
                return None;
            },
            Some((k, e)) => {
                let ghost old_out = out@;
                let ghost at = i as int;
                let ghost emitted;
                if k < rules.len() && 0 < rules[k].0.len() && rules[k].0.len() <= s.len() - i {
                    let mut rep = copy_symbols(&rules[k].1);
                    proof {
                        emitted = rep@;
                    }
                    out.append(&mut rep);
                    i = i + rules[k].0.len();
                } else {
                    proof {
                        emitted = seq![s@[at]];
                    }
                    out.push(copy_symbol(&s[i]));
                    i = i + 1;
                }
                proof {
                    assert(draws@.skip(d as int).skip((e - d) as int) =~= draws@.skip(e as int));
                    match draw_scan(s@, pats, reps, chances, draws@.skip(e as int), i as int) {
                        Some((r, u)) => {
                            assert(old_out + (emitted + r) =~= out@ + r);
                        },
                        None => {},
                    }
                }
                d = e;
            },
        }
    }
    proof {
        assert(out@ + Seq::<T>::empty() =~= out@);
    }
    Some((out, d))
}

/// Rewrites `start` for `iterations` generations with (pattern, replacement,
/// chance) rules, drawing from `rng`. In each generation the scan is that of
/// the pattern engine, but each rule whose pattern matches at the cursor takes
/// one draw and applies only where the draw is at most its chance; otherwise
/// the next rule is tried. Nothing is drawn where no rule matches.
pub fn random_lsystem<T: PartialEq + Clone>(
    start: Vec<T>,
    rules: &Vec<(Vec<T>, Vec<T>, i64)>,
    iterations: u32,
    rng: &mut StdRng,
) -> (r: Vec<T>)
    requires
        faithful::<T>(),
    ensures
        exists|runs: Seq<Seq<u32>>| #[trigger] random_outcome(start@, rules@, iterations as nat, runs, r@),
        iterations == 0 || start@.len() == 0 || rules@.len() == 0 ==> *final(rng) == *old(rng),
{
    let ghost mut runs: Seq<Seq<u32>> = Seq::empty();
    let mut cur = start;
    let mut k: u32 = 0;
    while k < iterations
        invariant
            faithful::<T>(),
            k <= iterations,
            random_outcome(start@, rules@, k as nat, runs, cur@),
            start@.len() == 0 ==> cur@.len() == 0,
            k == 0 || start@.len() == 0 || rules@.len() == 0 ==> *rng == *old(rng),
        decreases iterations - k,
    {
        proof {
            if rules@.len() == 0 {
                lemma_no_rules_no_draws(cur@, chance_patterns_of(rules@), chance_replacements_of(rules@), chances_of(rules@), Seq::empty(), 0);
            }
        }
        let next = random_generation(&cur, rules, rng);
        proof {
            let ds = choose|ds: Seq<u32>| draws_in_range(ds) && pass_output(#[trigger] rules_draw_scan(cur@, rules@, ds)) == Some(next@);
            let more = runs.push(ds);
            assert(more.drop_last() =~= runs);
            runs = more;
        }
        cur = next;
        k = k + 1;
    }
    cur
}

/// One generation of the probabilistic engine: draws one at a time until the
/// draws suffice for `random_pass_with_draws`.
fn random_generation<T: PartialEq + Clone>(
    s: &Vec<T>,
    rules: &Vec<(Vec<T>, Vec<T>, i64)>,
    rng: &mut StdRng,
) -> (r: Vec<T>)
    requires
        faithful::<T>(),
    ensures
        exists|ds: Seq<u32>| draws_in_range(ds) && pass_output(#[trigger] rules_draw_scan(s@, rules@, ds)) == Some(r@),
        rules_draw_scan(s@, rules@, Seq::empty()) is Some ==> *final(rng) == *old(rng),
{
    let ghost bound = s@.len() * rules@.len();
    let mut draws: Vec<u32> = Vec::new();
    loop
        invariant
            faithful::<T>(),
            bound == s@.len() * rules@.len(),
            draws_in_range(draws@),
            draws@.len() <= bound,
            draws@.len() > 0 ==> rules_draw_scan(s@, rules@, Seq::empty()) is None,
            draws@.len() == 0 ==> *rng == *old(rng),
        decreases bound - draws@.len(),
    {
        match random_pass_with_draws(s, rules, &draws) {
            Some((out, used)) => {
                assert(draws@.len() == 0 ==> draws@ =~= Seq::<u32>::empty());
                return out;
            },
            None => {
                proof {
                    lemma_scan_bound(
                        s@,
                        chance_patterns_of(rules@),
                        chance_replacements_of(rules@),
                        chances_of(rules@),
                        draws@,
                        0,
                    );
                    assert(draws@.len() == 0 ==> draws@ =~= Seq::<u32>::empty());
                }
                let x = draw_chance(rng);
                draws.push(x);
            },
        }
    }
}

} // verus!
