//! Plan assembly: give every selected card a fresh item identity and
//! package the segments into an ordered daily plan with totals.

use vstd::prelude::*;

use crate::allocator::SegmentAllocation;
use crate::workout::{
    SegmentPlanView, TodayWorkoutPlan, WorkoutItemPlan, WorkoutPhase, WorkoutSegmentPlan,
    WorkoutTotals,
};

verus! {

/// Relies on `uuid::Uuid::new_v4` (and `Uuid::as_u128`): a fresh random
/// version-4 identifier. Its version and variant bits are always set, so
/// the value is never zero; nothing else is promised of it.
#[verifier::external_body]
fn fresh_id() -> (r: u128)
    ensures
        r != 0,
{
    uuid::Uuid::new_v4().as_u128()
}

/// The allocations that actually hold cards, in order.
pub open spec fn keep_nonempty(segs: Seq<SegmentAllocation>) -> Seq<SegmentAllocation>
    decreases segs.len(),
{
    if segs.len() == 0 {
        Seq::empty()
    } else {
        keep_nonempty(segs.drop_last()) + if segs.last().cards@.len() > 0 {
            seq![segs.last()]
        } else {
            Seq::empty()
        }
    }
}

/// How many cards the plan's segments of one phase hold, over the first
/// `n` segments.
pub open spec fn phase_total(segs: Seq<SegmentPlanView>, phase: WorkoutPhase, n: int) -> int
    decreases n,
{
    if n <= 0 {
        0
    } else {
        phase_total(segs, phase, n - 1) + if segs[n - 1].phase == phase {
            segs[n - 1].items.len() as int
        } else {
            0int
        }
    }
}

/// A phase total depends only on the first `n` segments.
pub proof fn lemma_phase_total_prefix_pub(
    s1: Seq<SegmentPlanView>,
    s2: Seq<SegmentPlanView>,
    phase: WorkoutPhase,
    n: int,
)
    requires
        forall|i: int| 0 <= i < n ==> s1[i] == s2[i],
    ensures
        phase_total(s1, phase, n) == phase_total(s2, phase, n),
    decreases n,
{
    if n > 0 {
        lemma_phase_total_prefix_pub(s1, s2, phase, n - 1);
    }
}

/// A phase total depends only on the first `n` segments.
proof fn lemma_phase_total_prefix(
    s1: Seq<SegmentPlanView>,
    s2: Seq<SegmentPlanView>,
    phase: WorkoutPhase,
    n: int,
)
    requires
        forall|i: int| 0 <= i < n ==> s1[i] == s2[i],
    ensures
        phase_total(s1, phase, n) == phase_total(s2, phase, n),
    decreases n,
{
    if n > 0 {
        lemma_phase_total_prefix(s1, s2, phase, n - 1);
    }
}

/// Whether one plan segment packages one allocation: same phase and
/// focus, and one item per card in order, sequenced from zero.
pub open spec fn packages(seg: SegmentPlanView, alloc: SegmentAllocation) -> bool {
    &&& seg.phase == alloc.phase
    &&& seg.focus_details == (match alloc.focus_details {
        Some(f) => Some(f@),
        None => None,
    })
    &&& seg.items.len() == alloc.cards@.len()
    &&& (forall|k: int|
        0 <= k < seg.items.len() ==> (#[trigger] seg.items[k]).card == alloc.cards@[k]
            && seg.items[k].sequence == k)
}

/// Package the selected segments into a plan for the day `now`: empty
/// segments are dropped, every card gets a fresh item identity and its
/// position as sequence number, and the totals count each phase.
#[verifier::rlimit(100)]
#[verifier::spinoff_prover]
pub fn build_plan(now: i64, segments: Vec<SegmentAllocation>) -> (p: TodayWorkoutPlan)
    requires
        segments@.len() <= 8,
        forall|s: int| 0 <= s < segments@.len() ==> (#[trigger] segments@[s]).cards@.len() <= 1_000_000,
    ensures
        p.workout_id != 0,
        p.scheduled_for == now,
        p.generated_at == now,
        p@.segments.len() == keep_nonempty(segments@).len(),
        forall|s: int|
            0 <= s < p@.segments.len() ==> packages(
                #[trigger] p@.segments[s],
                keep_nonempty(segments@)[s],
            ),
        p.totals.quiz == phase_total(p@.segments, WorkoutPhase::Quiz, p@.segments.len() as int),
        p.totals.apply == phase_total(p@.segments, WorkoutPhase::Apply, p@.segments.len() as int),
        p.totals.review == phase_total(p@.segments, WorkoutPhase::Review, p@.segments.len() as int),
        p.totals.total_cards == p.totals.quiz + p.totals.apply + p.totals.review,
{
    let workout_id = fresh_id();
    let mut totals = WorkoutTotals { total_cards: 0, quiz: 0, apply: 0, review: 0 };
    let mut out: Vec<WorkoutSegmentPlan> = Vec::new();

    let mut s: usize = 0;
    while s < segments.len()
        invariant
            s <= segments.len(),
            segments@.len() <= 8,
            forall|t: int|
                0 <= t < segments@.len() ==> (#[trigger] segments@[t]).cards@.len() <= 1_000_000,
            out@.len() == keep_nonempty(segments@.take(s as int)).len(),
            forall|t: int|
                0 <= t < out@.len() ==> packages(
                    (#[trigger] out@[t])@,
                    keep_nonempty(segments@.take(s as int))[t],
                ),
            totals.quiz == phase_total(
                out@.map_values(|sp: WorkoutSegmentPlan| sp@),
                WorkoutPhase::Quiz,
                out@.len() as int,
            ),
            totals.apply == phase_total(
                out@.map_values(|sp: WorkoutSegmentPlan| sp@),
                WorkoutPhase::Apply,
                out@.len() as int,
            ),
            totals.review == phase_total(
                out@.map_values(|sp: WorkoutSegmentPlan| sp@),
                WorkoutPhase::Review,
                out@.len() as int,
            ),
            out@.len() <= s,
            totals.quiz <= 1_000_000 * out@.len(),
            totals.apply <= 1_000_000 * out@.len(),
            totals.review <= 1_000_000 * out@.len(),
        decreases segments.len() - s,
    {
        let ghost prefix_before = segments@.take(s as int);
        let alloc = &segments[s];
        if alloc.cards.len() > 0 {
            let mut items: Vec<WorkoutItemPlan> = Vec::new();
            let mut k: usize = 0;
            while k < alloc.cards.len()
                invariant
                    k <= alloc.cards.len(),
                    alloc.cards@.len() <= 1_000_000,
                    items@.len() == k,
                    forall|m: int|
                        0 <= m < k ==> (#[trigger] items@[m]).card == alloc.cards@[m]
                            && items@[m].sequence == m,
                decreases alloc.cards.len() - k,
            {
                items.push(
                    WorkoutItemPlan {
                        item_id: fresh_id(),
                        card: alloc.cards[k].clone(),
                        sequence: k as u32,
                    },
                );
                k = k + 1;
            }
            let focus_details = match &alloc.focus_details {
                Some(f) => Some(f.clone()),
                None => None,
            };
            match alloc.phase {
                WorkoutPhase::Quiz => {
                    totals.quiz = totals.quiz + items.len();
                },
                WorkoutPhase::Apply => {
                    totals.apply = totals.apply + items.len();
                },
                WorkoutPhase::Review => {
                    totals.review = totals.review + items.len();
                },
            }
            let seg = WorkoutSegmentPlan { phase: alloc.phase, focus_details, items };
            let ghost out_before = out@;
            proof {
                assert(packages(seg@, segments@[s as int]));
            }
            out.push(seg);
            proof {
                let old_map = out_before.map_values(|sp: WorkoutSegmentPlan| sp@);
                let new_map = out@.map_values(|sp: WorkoutSegmentPlan| sp@);
                lemma_phase_total_prefix(new_map, old_map, WorkoutPhase::Quiz, out_before.len() as int);
                lemma_phase_total_prefix(new_map, old_map, WorkoutPhase::Apply, out_before.len() as int);
                lemma_phase_total_prefix(
                    new_map,
                    old_map,
                    WorkoutPhase::Review,
                    out_before.len() as int,
                );
                assert(new_map[new_map.len() - 1] == seg@);
            }
        }
        s = s + 1;
        proof {
            assert(segments@.take(s as int).drop_last() =~= prefix_before);
            assert(segments@.take(s as int).last() == segments@[s - 1]);
            assert(out@.len() == keep_nonempty(segments@.take(s as int)).len());
            assert forall|t: int| 0 <= t < out@.len() implies packages(
                (#[trigger] out@[t])@,
                keep_nonempty(segments@.take(s as int))[t],
            ) by {
                if t < keep_nonempty(prefix_before).len() {
                    assert(keep_nonempty(segments@.take(s as int))[t] == keep_nonempty(
                        prefix_before,
                    )[t]);
                }
            }
            assert(phase_total(
                out@.map_values(|sp: WorkoutSegmentPlan| sp@),
                WorkoutPhase::Quiz,
                out@.len() as int,
            ) == totals.quiz);
            assert(phase_total(
                out@.map_values(|sp: WorkoutSegmentPlan| sp@),
                WorkoutPhase::Apply,
                out@.len() as int,
            ) == totals.apply);
            assert(phase_total(
                out@.map_values(|sp: WorkoutSegmentPlan| sp@),
                WorkoutPhase::Review,
                out@.len() as int,
            ) == totals.review);
        }
    }
    totals.total_cards = totals.quiz + totals.apply + totals.review;
    proof {
        assert(segments@.take(segments@.len() as int) =~= segments@);
    }
    let p = TodayWorkoutPlan {
        workout_id,
        scheduled_for: now,
        generated_at: now,
        segments: out,
        totals,
    };
    proof {
        assert(p@.segments =~= p.segments@.map_values(|sp: WorkoutSegmentPlan| sp@));
    }
    p
}

} // verus!
