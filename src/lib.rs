//! Rewriting engines for Lindenmayer systems.
//!
//! Each engine takes a starting sequence, an ordered list of rules and a number
//! of generations, and rewrites the sequence once per generation: a single
//! left-to-right scan in which the first rule that applies at the cursor wins,
//! and consumed symbols are never looked at again in that generation.
//!
//! - `lsystem` rewrites one symbol at a time.
//! - `complex_lsystem` rewrites patterns of any non-empty length.
//! - `random_lsystem` lets each matching rule apply with a given chance.
//! - `arbitrary_lsystem` computes each replacement with a function.
mod function_engine;
mod laws;
mod pattern_engine;
mod random_engine;
mod scan;
mod symbol_engine;
mod symbols;

pub use function_engine::{
    arbitrary_lsystem, function_outcome, function_rewrite, may_produce, productions_valid, runs_valid,
    Production,
};
pub use laws::{
    law_certain_chances, law_earlier_rule_wins, law_empty_start, law_function_deletes,
    law_function_identity, law_negative_chances, law_no_rules_identity, law_pattern_advance, law_pattern_consumes_prefix, law_rejecting_draws, law_rule_order_breaks_ties,
    law_zero_generations,
};
pub use pattern_engine::{complex_lsystem, pattern_pass, pattern_rewrite, replacements_of};
pub use random_engine::{
    accepts, chance_patterns_of, chance_replacements_of, chances_of, cursor_step, draw_scan, draws_in_range,
    draws_rewrite, pass_output, pass_view, prepend, random_lsystem, random_outcome, random_pass_with_draws, rules_draw_scan,
    shift, CHANCE_SCALE,
};
pub use scan::{first_rule, fixed, pattern_matches, patterns_of, same_before, scan, set_at};
pub use symbol_engine::{lsystem, symbol_image, symbol_pass, symbol_rewrite, symbol_rules_view};
pub use symbols::{faithful, lemma_u32_faithful, lemma_u64_faithful, lemma_u8_faithful, lemma_usize_faithful};
