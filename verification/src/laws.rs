//! The scheduler's general laws, stated once over the specification
//! functions the contracts use, and proved for every input.

use vstd::prelude::*;

use crate::allocator::spec_segment_targets;
use crate::card::spec_priority;
use crate::completion::{
    spec_fail_interval_secs, spec_fail_stability, spec_pass_interval_secs, spec_pass_stability,
};
use crate::engine::applied_card;
use crate::units::spec_clamp_unit;
use crate::workout::WorkoutResultKind;

verus! {

/// Target conservation: a pool of twenty or more cards gets the nominal
/// (5, 10, 5) split; a smaller pool of at least three cards fills every
/// phase with at least one card and uses the whole pool; any non-empty
/// pool below twenty is used in full.
pub proof fn lemma_target_conservation(n: int)
    ensures
        n >= 20 ==> spec_segment_targets(n) == (5int, 10int, 5int),
        3 <= n < 20 ==> ({
            let t = spec_segment_targets(n);
            &&& t.0 + t.1 + t.2 == n
            &&& t.0 >= 1
            &&& t.1 >= 1
            &&& t.2 >= 1
        }),
        0 < n < 20 ==> ({
            let t = spec_segment_targets(n);
            t.0 + t.1 + t.2 == n
        }),
{
}

/// A pass strictly improves the schedule: the new stability never falls
/// below the previous one (up to the `0.99` cap), and the next review is
/// always at least six hours away.
pub proof fn lemma_pass_improves_interval(stability: int, relevance: int)
    ensures
        spec_pass_stability(stability) >= spec_clamp_unit(stability) || spec_pass_stability(
            stability,
        ) == 990,
        spec_pass_stability(stability) >= 150,
        spec_pass_interval_secs(spec_pass_stability(stability), relevance) >= 21_600,
{
    let s1 = spec_pass_stability(stability);
    let f = crate::completion::spec_interval_factor(relevance, 300);
    assert(500 <= f <= 1000);
    assert(86400 * (1000 + s1) * f >= 49_680_000_000) by (nonlinear_arith)
        requires
            s1 >= 150,
            f >= 500,
    ;
    vstd::arithmetic::div_mod::lemma_div_is_ordered(
        49_680_000_000,
        86400 * (1000 + s1) * f,
        1_000_000,
    );
}

/// A fail strictly shortens the schedule: the new stability never rises
/// above the previous one (down to the `0.05` floor), and the next
/// review comes within six hours — well under a day.
pub proof fn lemma_fail_shortens_interval(stability: int, relevance: int)
    ensures
        spec_fail_stability(stability) <= spec_clamp_unit(stability) || spec_fail_stability(
            stability,
        ) == 50,
        spec_fail_interval_secs(relevance) <= 21_600,
        spec_fail_interval_secs(relevance) < 86_400,
{
    let f = crate::completion::spec_interval_factor(relevance, 250);
    assert(500 <= f <= 1000);
    vstd::arithmetic::div_mod::lemma_div_is_ordered(21600 * f, 21_600_000, 1000);
}

/// The priority invariant: every card the completion engine writes has
/// its priority derived from its new stability and its unchanged
/// relevance and novelty by the fixed blend.
pub proof fn lemma_priority_invariant(c: crate::card::MemoryCard, result: WorkoutResultKind, now: int)
    ensures
        applied_card(c, result, now).priority == spec_priority(
            applied_card(c, result, now).stability as int,
            applied_card(c, result, now).relevance as int,
            applied_card(c, result, now).novelty as int,
        ),
{
    let s1 = if result is Pass {
        spec_pass_stability(c.stability as int)
    } else {
        spec_fail_stability(c.stability as int)
    };
    assert(0 <= s1 <= 1000);
    assert(0 <= spec_priority(s1, c.relevance as int, c.novelty as int) <= 1000);
}

} // verus!
