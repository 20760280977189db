use lsystem::{
    accepts, arbitrary_lsystem, complex_lsystem, lsystem, random_lsystem, random_pass_with_draws, CHANCE_SCALE,
};
use rand::rngs::StdRng;
use rand::SeedableRng;

fn chars(s: &str) -> Vec<char> {
    s.chars().collect()
}

fn algae_rules() -> Vec<(char, Vec<char>)> {
    vec![('A', chars("AB")), ('B', chars("A"))]
}

fn algae_patterns() -> Vec<(Vec<char>, Vec<char>)> {
    vec![(chars("A"), chars("AB")), (chars("B"), chars("A"))]
}

#[test]
fn symbol_engine_algae_three_generations() {
    assert_eq!(lsystem(chars("A"), &algae_rules(), 3), chars("ABAAB"));
}

#[test]
fn symbol_engine_algae_each_generation() {
    assert_eq!(lsystem(chars("A"), &algae_rules(), 1), chars("AB"));
    assert_eq!(lsystem(chars("A"), &algae_rules(), 2), chars("ABA"));
    assert_eq!(lsystem(chars("A"), &algae_rules(), 5), chars("ABAABABAABAAB"));
}

#[test]
fn symbol_engine_first_rule_wins() {
    let rules = vec![('A', chars("X")), ('A', chars("Y"))];
    assert_eq!(lsystem(chars("AZA"), &rules, 1), chars("XZX"));
}

#[test]
fn symbol_engine_deletes_with_empty_replacement() {
    let rules = vec![('B', Vec::new())];
    assert_eq!(lsystem(chars("ABBA"), &rules, 1), chars("AA"));
}

#[test]
fn symbol_engine_is_deterministic() {
    let a = lsystem(chars("AB"), &algae_rules(), 6);
    let b = lsystem(chars("AB"), &algae_rules(), 6);
    assert_eq!(a, b);
}

#[test]
fn pattern_engine_algae_two_generations() {
    assert_eq!(complex_lsystem(chars("A"), &algae_patterns(), 2), chars("ABA"));
}

#[test]
fn pattern_engine_earlier_short_rule_wins() {
    let rules = vec![(chars("A"), chars("X")), (chars("AB"), chars("Y"))];
    assert_eq!(complex_lsystem(chars("AB"), &rules, 1), chars("XB"));
    let swapped = vec![(chars("AB"), chars("Y")), (chars("A"), chars("X"))];
    assert_eq!(complex_lsystem(chars("AB"), &swapped, 1), chars("Y"));
}

#[test]
fn pattern_engine_consumes_without_overlap() {
    let rules = vec![(chars("AA"), chars("B"))];
    assert_eq!(complex_lsystem(chars("AAA"), &rules, 1), chars("BA"));
    assert_eq!(complex_lsystem(chars("AAAA"), &rules, 1), chars("BB"));
}

#[test]
fn pattern_engine_context_rule() {
    let rules = vec![(chars("AB"), chars("BA"))];
    assert_eq!(complex_lsystem(chars("AAB"), &rules, 1), chars("ABA"));
    assert_eq!(complex_lsystem(chars("AAB"), &rules, 2), chars("BAA"));
}

#[test]
fn pattern_engine_pattern_longer_than_rest() {
    let rules = vec![(chars("ABC"), chars("X"))];
    assert_eq!(complex_lsystem(chars("AB"), &rules, 1), chars("AB"));
}

#[test]
fn pattern_engine_ignores_empty_pattern() {
    let rules = vec![(Vec::new(), chars("X")), (chars("A"), chars("B"))];
    assert_eq!(complex_lsystem(chars("AC"), &rules, 1), chars("BC"));
}

#[test]
fn zero_generations_is_identity() {
    let start = chars("ABBA");
    assert_eq!(lsystem(start.clone(), &algae_rules(), 0), start);
    assert_eq!(complex_lsystem(start.clone(), &algae_patterns(), 0), start);
    let chance_rules = vec![(chars("A"), chars("B"), CHANCE_SCALE as i64)];
    let mut rng = StdRng::seed_from_u64(1);
    assert_eq!(random_lsystem(start.clone(), &chance_rules, 0, &mut rng), start);
    let fn_rules = vec![(chars("A"), |_v: Vec<char>| chars("Q"))];
    assert_eq!(arbitrary_lsystem(start.clone(), &fn_rules, 0), start);
}

#[test]
fn no_rules_is_identity() {
    let start = chars("ABC");
    let symbol_rules: Vec<(char, Vec<char>)> = Vec::new();
    let pattern_rules: Vec<(Vec<char>, Vec<char>)> = Vec::new();
    let chance_rules: Vec<(Vec<char>, Vec<char>, i64)> = Vec::new();
    let fn_rules: Vec<(Vec<char>, fn(Vec<char>) -> Vec<char>)> = Vec::new();
    let mut rng = StdRng::seed_from_u64(2);
    for n in 0..5u32 {
        assert_eq!(lsystem(start.clone(), &symbol_rules, n), start);
        assert_eq!(complex_lsystem(start.clone(), &pattern_rules, n), start);
        assert_eq!(random_lsystem(start.clone(), &chance_rules, n, &mut rng), start);
        assert_eq!(arbitrary_lsystem(start.clone(), &fn_rules, n), start);
    }
}

#[test]
fn empty_start_stays_empty() {
    let empty: Vec<char> = Vec::new();
    let mut rng = StdRng::seed_from_u64(3);
    let chance_rules = vec![(chars("A"), chars("AB"), CHANCE_SCALE as i64 / 2)];
    let fn_rules = vec![(chars("A"), |v: Vec<char>| v)];
    for n in 0..4u32 {
        assert_eq!(lsystem(empty.clone(), &algae_rules(), n), empty);
        assert_eq!(complex_lsystem(empty.clone(), &algae_patterns(), n), empty);
        assert_eq!(random_lsystem(empty.clone(), &chance_rules, n, &mut rng), empty);
        assert_eq!(arbitrary_lsystem(empty.clone(), &fn_rules, n), empty);
    }
}

#[test]
fn acceptance_bound_is_closed() {
    assert!(accepts(0, 0));
    assert!(!accepts(1, 0));
    assert!(accepts(CHANCE_SCALE, CHANCE_SCALE as i64));
    assert!(accepts(500_000, 500_000));
    assert!(!accepts(500_001, 500_000));
}

#[test]
fn random_engine_certain_rules_match_pattern_engine() {
    let chance_rules = vec![
        (chars("A"), chars("AB"), CHANCE_SCALE as i64),
        (chars("B"), chars("A"), CHANCE_SCALE as i64),
    ];
    let mut rng = StdRng::seed_from_u64(4);
    for n in 0..6u32 {
        assert_eq!(
            random_lsystem(chars("A"), &chance_rules, n, &mut rng),
            complex_lsystem(chars("A"), &algae_patterns(), n)
        );
    }
}

#[test]
fn random_engine_each_symbol_one_of_two_outcomes() {
    let start: Vec<char> = vec!['A'; 400];
    let chance_rules = vec![(chars("A"), chars("B"), CHANCE_SCALE as i64 / 2)];
    let mut rng = StdRng::seed_from_u64(5);
    let r = random_lsystem(start, &chance_rules, 1, &mut rng);
    assert_eq!(r.len(), 400);
    let bs = r.iter().filter(|c| **c == 'B').count();
    assert!(r.iter().all(|c| *c == 'A' || *c == 'B'));
    assert!(bs > 0 && bs < 400);
}

#[test]
fn random_engine_falls_through_to_next_rule() {
    let start: Vec<char> = vec!['A'; 200];
    let chance_rules = vec![
        (chars("A"), chars("B"), CHANCE_SCALE as i64 / 2),
        (chars("A"), chars("C"), CHANCE_SCALE as i64),
    ];
    let mut rng = StdRng::seed_from_u64(6);
    let r = random_lsystem(start, &chance_rules, 1, &mut rng);
    assert_eq!(r.len(), 200);
    assert!(r.iter().all(|c| *c == 'B' || *c == 'C'));
    assert!(r.contains(&'B') && r.contains(&'C'));
}

#[test]
fn function_engine_empty_result_deletes_matches() {
    let fn_rules = vec![(chars("B"), |_v: Vec<char>| Vec::new())];
    assert_eq!(arbitrary_lsystem(chars("ABCBB"), &fn_rules, 1), chars("AC"));
}

#[test]
fn function_engine_identity_matches_pattern_engine() {
    let fn_rules = vec![(chars("AB"), |v: Vec<char>| v)];
    let pattern_rules = vec![(chars("AB"), chars("AB"))];
    for n in 0..4u32 {
        assert_eq!(
            arbitrary_lsystem(chars("ABABA"), &fn_rules, n),
            complex_lsystem(chars("ABABA"), &pattern_rules, n)
        );
    }
}

#[test]
fn function_engine_receives_the_pattern() {
    let fn_rules = vec![(chars("AB"), |v: Vec<char>| {
        let mut out = v.clone();
        out.extend(v);
        out
    })];
    assert_eq!(arbitrary_lsystem(chars("CABC"), &fn_rules, 1), chars("CABABC"));
    assert_eq!(arbitrary_lsystem(chars("AB"), &fn_rules, 2), chars("ABABABAB"));
}

#[test]
fn draws_second_rule_after_first_rejected() {
    let rules = vec![(chars("A"), chars("B"), 500_000i64), (chars("A"), chars("C"), 1_000_000i64)];
    assert_eq!(random_pass_with_draws(&chars("A"), &rules, &vec![700_000, 300_000]), Some((chars("C"), 2)));
    assert_eq!(random_pass_with_draws(&chars("A"), &rules, &vec![200_000]), Some((chars("B"), 1)));
    assert_eq!(random_pass_with_draws(&chars("A"), &rules, &vec![200_000, 5]), Some((chars("B"), 1)));
}

#[test]
fn draws_zero_chance_edges() {
    let rules = vec![(chars("A"), chars("B"), 0i64)];
    assert_eq!(random_pass_with_draws(&chars("A"), &rules, &vec![0]), Some((chars("B"), 1)));
    assert_eq!(random_pass_with_draws(&chars("A"), &rules, &vec![1]), Some((chars("A"), 1)));
    assert_eq!(random_pass_with_draws(&chars("AA"), &rules, &vec![3, 9]), Some((chars("AA"), 2)));
}

#[test]
fn draws_negative_chance_never_applies() {
    let rules = vec![(chars("A"), chars("B"), -1i64)];
    assert_eq!(random_pass_with_draws(&chars("A"), &rules, &vec![0]), Some((chars("A"), 1)));
}

#[test]
fn draws_only_for_matching_rules() {
    let rules = vec![(chars("A"), chars("B"), 500_000i64)];
    assert_eq!(random_pass_with_draws(&chars("CC"), &rules, &Vec::new()), Some((chars("CC"), 0)));
    assert_eq!(random_pass_with_draws(&chars("CA"), &rules, &Vec::new()), None);
    assert_eq!(random_pass_with_draws(&chars("AC"), &rules, &vec![600_000]), Some((chars("AC"), 1)));
}

#[test]
fn draws_pattern_consumed_whole() {
    let rules = vec![(chars("AB"), chars("X"), CHANCE_SCALE as i64), (chars("B"), chars("Y"), CHANCE_SCALE as i64)];
    assert_eq!(random_pass_with_draws(&chars("ABB"), &rules, &vec![0, 0]), Some((chars("XY"), 2)));
}

#[test]
fn random_engine_leaves_generator_when_nothing_drawn() {
    let chance_rules = vec![(chars("A"), chars("B"), CHANCE_SCALE as i64 / 2)];
    let mut rng = StdRng::seed_from_u64(9);
    let before = rng.clone();
    random_lsystem(chars("AAA"), &chance_rules, 0, &mut rng);
    random_lsystem(Vec::new(), &chance_rules, 3, &mut rng);
    assert_eq!(rng, before);
}
