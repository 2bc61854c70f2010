//! The scheduler façade: get-or-create today's plan (idempotent per
//! calendar day) and complete a workout (a pending workout completes
//! exactly once, atomically).
//!
//! The façade owns an in-memory image of the store: the card pool, the
//! direction and skill descriptors, the workout records, and the history
//! of completed reviews. A persistence layer loads this state, drives the
//! façade, and writes the state back.

use vstd::prelude::*;

use crate::allocator::{from_pool, schedule_segments, SegmentAllocation};
use crate::card::{cards_times_ok, unique_card_ids, MemoryCard};
use crate::direction::Direction;
use crate::plan::{build_plan, keep_nonempty, packages, phase_total};
use crate::skill::SkillPoint;
use crate::completion::{
    apply_result, best_failed_card, best_passed_card, build_insights, direction_summary_breakdown,
    outcomes_acc, rate_milli, skill_summary_breakdown, spec_fail_interval_secs,
    spec_fail_stability, spec_insights, spec_pass_interval_secs, spec_pass_stability,
    spec_rate_milli, spec_udr, udr_micro, ItemOutcome, OutcomeGroup,
};
use crate::card::spec_priority;
use crate::error::AppError;
use crate::stats::{events_times_ok, review_stats_from_history, ReviewEvent};
use crate::units::{clamp_unit, spec_clamp_unit, time_ok};
use crate::vecs::repeat_bool;
use crate::units::{clamp_range, spec_clamp};
use crate::workout::{
    PlanView, RecommendedFocus, SegmentPlanView, TodayWorkoutPlan, WorkoutCardProgress,
    WorkoutCompletionSummary, WorkoutItemResultInput, WorkoutResultKind, WorkoutStatus,
    WorkoutSummaryMetrics,
};

verus! {

/// How many candidate cards one scheduling pass considers (three times
/// the workout cap).
pub const TODAY_POOL_LIMIT: usize = 60;

/// One stored workout: its plan, its lifecycle status, and when it was
/// completed.
#[derive(Debug)]
pub struct WorkoutRecord {
    pub plan: TodayWorkoutPlan,
    pub status: WorkoutStatus,
    /// Seconds.
    pub completed_at: Option<i64>,
}

/// The mathematical contents of a [`WorkoutRecord`].
#[verifier::ext_equal]
pub ghost struct WorkoutRecordView {
    pub plan: PlanView,
    pub status: WorkoutStatus,
    pub completed_at: Option<i64>,
}

impl View for WorkoutRecord {
    type V = WorkoutRecordView;

    open spec fn view(&self) -> WorkoutRecordView {
        WorkoutRecordView { plan: self.plan@, status: self.status, completed_at: self.completed_at }
    }
}

/// The scheduler's full state: the card pool, group descriptors, stored
/// workouts, and the completed-review history (oldest first).
#[derive(Debug)]
pub struct TodayScheduler {
    pub cards: Vec<MemoryCard>,
    pub directions: Vec<Direction>,
    pub skills: Vec<SkillPoint>,
    pub workouts: Vec<WorkoutRecord>,
    pub history: Vec<ReviewEvent>,
}

/// The mathematical contents of a [`TodayScheduler`].
#[verifier::ext_equal]
pub ghost struct SchedulerView {
    pub cards: Seq<MemoryCard>,
    pub directions: Seq<Direction>,
    pub skills: Seq<SkillPoint>,
    pub workouts: Seq<WorkoutRecordView>,
    pub history: Seq<ReviewEvent>,
}

impl View for TodayScheduler {
    type V = SchedulerView;

    open spec fn view(&self) -> SchedulerView {
        SchedulerView {
            cards: self.cards@,
            directions: self.directions@,
            skills: self.skills@,
            workouts: self.workouts@.map_values(|w: WorkoutRecord| w@),
            history: self.history@,
        }
    }
}

impl TodayScheduler {
    /// The state the scheduler's operations keep: card identifiers are
    /// unique, all timestamps are in range, workout identifiers are
    /// unique, and the collections stay within the sizes the arithmetic
    /// supports.
    pub open spec fn wf(&self) -> bool {
        &&& unique_card_ids(self@.cards)
        &&& cards_times_ok(self@.cards)
        &&& self@.cards.len() <= 100_000
        &&& events_times_ok(self@.history)
        &&& self@.history.len() <= 1_000_000_000
        &&& (forall|i: int|
            0 <= i < self@.workouts.len() ==> time_ok(
                (#[trigger] self@.workouts[i]).plan.scheduled_for,
            ))
    }
}

/// The calendar day (in the scheduler's fixed-offset reckoning) a
/// timestamp falls on.
pub open spec fn spec_day(t: int) -> int {
    t / 86400
}

/// The calendar day a timestamp falls on.
pub fn day_index(t: i64) -> (d: i64)
    requires
        time_ok(t as int),
    ensures
        d == spec_day(t as int),
{
    if t >= 0 {
        t / 86400
    } else {
        -((-t + 86399) / 86400)
    }
}

/// The latest still-pending plan scheduled for `day`, if any.
pub open spec fn pending_for_day(ws: Seq<WorkoutRecordView>, day: int) -> Option<PlanView>
    decreases ws.len(),
{
    if ws.len() == 0 {
        None
    } else if ws.last().status is Pending && spec_day(ws.last().plan.scheduled_for) == day {
        Some(ws.last().plan)
    } else {
        pending_for_day(ws.drop_last(), day)
    }
}

/// Find the latest still-pending workout scheduled for `day`.
fn find_pending_for_day(workouts: &Vec<WorkoutRecord>, day: i64) -> (r: Option<usize>)
    requires
        forall|i: int|
            0 <= i < workouts@.len() ==> time_ok(
                (#[trigger] workouts@[i]).plan.scheduled_for as int,
            ),
    ensures
        r matches Some(i) ==> (i as int) < workouts@.len() && pending_for_day(
            workouts@.map_values(|w: WorkoutRecord| w@),
            day as int,
        ) == Some(workouts@[i as int]@.plan),
        r is None ==> pending_for_day(workouts@.map_values(|w: WorkoutRecord| w@), day as int)
            is None,
{
    let ghost full = workouts@.map_values(|w: WorkoutRecord| w@);
    proof {
        assert(full.take(workouts@.len() as int) =~= full);
    }
    let mut i: usize = workouts.len();
    while i > 0
        invariant
            i <= workouts.len(),
            full == workouts@.map_values(|w: WorkoutRecord| w@),
            forall|j: int|
                0 <= j < workouts@.len() ==> time_ok(
                    (#[trigger] workouts@[j]).plan.scheduled_for as int,
                ),
            pending_for_day(full, day as int) == pending_for_day(full.take(i as int), day as int),
        decreases i,
    {
        proof {
            assert(full.take(i as int).last() == full[i - 1]);
            assert(full.take(i as int).drop_last() =~= full.take(i - 1));
        }
        let w = &workouts[i - 1];
        if matches!(w.status, WorkoutStatus::Pending) && day_index(w.plan.scheduled_for) == day {
            return Some(i - 1);
        }
        i = i - 1;
    }
    proof {
        assert(full.take(0).len() == 0);
    }
    None
}

/// A card's rank for today's pool: due-or-overdue cards first, then the
/// earlier-due (unscheduled cards count as earliest), then the higher
/// priority.
pub open spec fn spec_today_rank(card: MemoryCard, now: int) -> int {
    let due_key: int = match card.next_due {
        Some(d) => d as int,
        None => -4_000_000_000_001,
    };
    let urgent: int = match card.next_due {
        Some(d) => if d <= now {
            1
        } else {
            0
        },
        None => 1,
    };
    urgent * 0x40_0000_0000_0000 + (4_000_000_000_001 - due_key) * 2048 + spec_clamp_unit(
        card.priority as int,
    )
}

/// A card's rank for today's pool.
fn today_rank(card: &MemoryCard, now: i64) -> (r: i64)
    requires
        time_ok(now as int),
        card.times_ok(),
    ensures
        r == spec_today_rank(*card, now as int),
{
    let due_key: i64 = match card.next_due {
        Some(d) => d,
        None => -4_000_000_000_001,
    };
    let urgent: i64 = match card.next_due {
        Some(d) => if d <= now {
            1
        } else {
            0
        },
        None => 1,
    };
    urgent * 0x40_0000_0000_0000 + (4_000_000_000_001 - due_key) * 2048 + clamp_unit(card.priority)
}

/// Today's candidate pool: up to `limit` cards, due-or-overdue first,
/// then by due time, then by priority descending.
#[verifier::rlimit(100)]
#[verifier::spinoff_prover]
pub fn list_for_today(cards: &Vec<MemoryCard>, now: i64, limit: usize) -> (pool: Vec<MemoryCard>)
    requires
        time_ok(now as int),
        cards_times_ok(cards@),
        unique_card_ids(cards@),
        cards@.len() <= 100_000,
    ensures
        pool@.len() == if cards@.len() < limit {
            cards@.len() as int
        } else {
            limit as int
        },
        cards_times_ok(pool@),
        unique_card_ids(pool@),
        forall|k: int| 0 <= k < pool@.len() ==> from_pool(cards@, #[trigger] pool@[k]),
        forall|k: int, m: int|
            0 <= k < m < pool@.len() ==> spec_today_rank(pool@[k], now as int) >= spec_today_rank(
                pool@[m],
                now as int,
            ),
{
    let n = cards.len();
    let mut ranks: Vec<i64> = Vec::new();
    let mut i: usize = 0;
    while i < n
        invariant
            i <= n,
            n == cards@.len(),
            time_ok(now as int),
            cards_times_ok(cards@),
            ranks@.len() == i,
            forall|j: int| 0 <= j < i ==> #[trigger] ranks@[j] == spec_today_rank(
                cards@[j],
                now as int,
            ),
        decreases n - i,
    {
        ranks.push(today_rank(&cards[i], now));
        i = i + 1;
    }
    let all_true = repeat_bool(n, true);
    let mut flags = repeat_bool(n, false);
    proof {
        assert(crate::allocator::sel_inv(n as int, flags@, Seq::<int>::empty()));
    }
    let ghost sel0 = flags@;
    let picks = crate::allocator::select_top(&ranks, &all_true, &mut flags, limit);
    let ghost picks_int = picks@.map_values(|u: usize| u as int);
    proof {
        assert(flags@.len() == flags.len());
        crate::allocator::lemma_extend_inv(n as int, sel0, flags@, picks@, Seq::<int>::empty());
        assert(picks_int.len() <= n) by {
            picks_int.unique_seq_to_set();
            vstd::set_lib::lemma_int_range(0, n as int);
            assert(picks_int.to_set().subset_of(vstd::set_lib::set_int_range(0, n as int))) by {
                assert forall|x: int|
                    picks_int.to_set().contains(x) implies vstd::set_lib::set_int_range(
                    0,
                    n as int,
                ).contains(x) by {
                    assert(picks_int.contains(x));
                    let k2 = choose|k2: int| 0 <= k2 < picks_int.len() && picks_int[k2] == x;
                    assert(picks_int[k2] == picks@[k2] as int);
                }
            }
            vstd::set_lib::lemma_len_subset(
                picks_int.to_set(),
                vstd::set_lib::set_int_range(0, n as int),
            );
        }
        if picks@.len() < limit && picks@.len() < n {
            assert forall|j: int| 0 <= j < n implies flags@[j] by {
                assert(all_true@[j]);
            }
            crate::allocator::lemma_full_selection(
                n as int,
                flags@,
                Seq::<int>::empty() + picks_int,
            );
            assert(false);
        }
        assert(picks@.len() == if cards@.len() < limit {
            cards@.len() as int
        } else {
            limit as int
        });
    }
    let mut pool: Vec<MemoryCard> = Vec::new();
    let mut k: usize = 0;
    while k < picks.len()
        invariant
            k <= picks.len(),
            n == cards@.len(),
            time_ok(now as int),
            cards_times_ok(cards@),
            unique_card_ids(cards@),
            forall|m: int| 0 <= m < picks@.len() ==> (#[trigger] picks@[m] as int) < n,
            forall|m1: int, m2: int| 0 <= m1 < m2 < picks@.len() ==> picks@[m1] != picks@[m2],
            forall|m: int| 0 <= m < picks@.len() ==> ranks@[#[trigger] picks@[m] as int]
                == spec_today_rank(cards@[picks@[m] as int], now as int),
            forall|m1: int, m2: int|
                0 <= m1 < m2 < picks@.len() ==> ranks@[picks@[m1] as int] >= ranks@[picks@[m2] as int],
            ranks@.len() == n,
            forall|j: int| 0 <= j < n ==> #[trigger] ranks@[j] == spec_today_rank(
                cards@[j],
                now as int,
            ),
            pool@.len() == k,
            forall|m: int| 0 <= m < k ==> #[trigger] pool@[m] == cards@[picks@[m] as int],
        decreases picks.len() - k,
    {
        pool.push(cards[picks[k]].clone());
        k = k + 1;
    }
    proof {
        assert forall|k2: int| 0 <= k2 < pool@.len() implies from_pool(
            cards@,
            #[trigger] pool@[k2],
        ) by {
            assert(cards@[picks@[k2] as int] == pool@[k2]);
        }
        assert forall|k2: int, m: int| 0 <= k2 < m < pool@.len() implies pool@[k2].id
            != pool@[m].id by {
            assert(pool@[k2] == cards@[picks@[k2] as int]);
            assert(pool@[m] == cards@[picks@[m] as int]);
            assert(picks@[k2] != picks@[m]);
        }
        assert forall|k2: int| 0 <= k2 < pool@.len() implies (#[trigger] pool@[k2]).times_ok() by {
            assert(pool@[k2] == cards@[picks@[k2] as int]);
        }
        assert forall|k2: int, m: int|
            0 <= k2 < m < pool@.len() implies spec_today_rank(pool@[k2], now as int)
            >= spec_today_rank(pool@[m], now as int) by {
            assert(ranks@[picks@[k2] as int] >= ranks@[picks@[m] as int]);
        }
    }
    pool
}

/// The card identifiers of one plan segment, in order.
pub open spec fn segment_item_ids(seg: SegmentPlanView) -> Seq<u128> {
    seg.items.map_values(|it: crate::workout::WorkoutItemPlan| it.card.id)
}

/// The card identifiers of a run of plan segments, in order.
pub open spec fn segments_card_ids(segs: Seq<SegmentPlanView>) -> Seq<u128>
    decreases segs.len(),
{
    if segs.len() == 0 {
        Seq::empty()
    } else {
        segments_card_ids(segs.drop_last()) + segment_item_ids(segs.last())
    }
}

/// The card identifiers a plan selects, across its segments in order.
pub open spec fn plan_card_ids(p: PlanView) -> Seq<u128> {
    segments_card_ids(p.segments)
}

/// How many cards the allocations of one phase hold.
pub open spec fn allocs_phase_total(
    segs: Seq<SegmentAllocation>,
    phase: crate::workout::WorkoutPhase,
) -> int
    decreases segs.len(),
{
    if segs.len() == 0 {
        0
    } else {
        allocs_phase_total(segs.drop_last(), phase) + if segs.last().phase == phase {
            segs.last().cards@.len() as int
        } else {
            0int
        }
    }
}

/// Packaged plan segments carry exactly the allocations' card identifiers
/// and phase totals.
proof fn lemma_plan_packaging(psegs: Seq<SegmentPlanView>, segs: Seq<SegmentAllocation>)
    requires
        psegs.len() == keep_nonempty(segs).len(),
        forall|s: int|
            0 <= s < psegs.len() ==> packages(#[trigger] psegs[s], keep_nonempty(segs)[s]),
    ensures
        segments_card_ids(psegs) =~= crate::allocator::chosen_ids(segs),
        forall|phase: crate::workout::WorkoutPhase|
            phase_total(psegs, phase, psegs.len() as int) == allocs_phase_total(segs, phase),
    decreases segs.len(),
{
    if segs.len() == 0 {
        assert(keep_nonempty(segs).len() == 0);
        assert(segments_card_ids(psegs) =~= Seq::<u128>::empty());
        assert(crate::allocator::chosen_ids(segs) =~= Seq::<u128>::empty());
    } else {
        let rest = segs.drop_last();
        let last = segs.last();
        if last.cards@.len() == 0 {
            assert(keep_nonempty(segs) =~= keep_nonempty(rest));
            assert forall|s: int|
                0 <= s < psegs.len() implies packages(
                #[trigger] psegs[s],
                keep_nonempty(rest)[s],
            ) by {
                assert(keep_nonempty(rest)[s] == keep_nonempty(segs)[s]);
            }
            lemma_plan_packaging(psegs, rest);
            assert(crate::allocator::segment_ids(last).len() == 0);
            assert(crate::allocator::chosen_ids(segs) =~= crate::allocator::chosen_ids(rest));
            assert forall|phase: crate::workout::WorkoutPhase|
                phase_total(psegs, phase, psegs.len() as int) == allocs_phase_total(
                segs,
                phase,
            ) by {
                assert(phase_total(psegs, phase, psegs.len() as int) == allocs_phase_total(
                    rest,
                    phase,
                ));
                assert(allocs_phase_total(segs, phase) == allocs_phase_total(rest, phase));
            }
        } else {
            let kept = keep_nonempty(segs);
            assert(kept =~= keep_nonempty(rest) + seq![last]);
            assert(psegs.len() >= 1);
            let prest = psegs.drop_last();
            let plast = psegs.last();
            assert(prest.len() == keep_nonempty(rest).len());
            assert forall|s: int|
                0 <= s < prest.len() implies packages(
                #[trigger] prest[s],
                keep_nonempty(rest)[s],
            ) by {
                assert(prest[s] == psegs[s]);
                assert(keep_nonempty(rest)[s] == kept[s]);
            }
            lemma_plan_packaging(prest, rest);
            assert(packages(plast, kept[psegs.len() - 1]));
            assert(kept[psegs.len() - 1] == last);
            assert(segment_item_ids(plast) =~= crate::allocator::segment_ids(last)) by {
                assert forall|k: int| 0 <= k < plast.items.len() implies segment_item_ids(
                    plast,
                )[k] == crate::allocator::segment_ids(last)[k] by {
                    assert(plast.items[k].card == last.cards@[k]);
                }
            }
            assert(segments_card_ids(psegs) =~= crate::allocator::chosen_ids(segs));
            assert forall|phase: crate::workout::WorkoutPhase|
                phase_total(psegs, phase, psegs.len() as int) == allocs_phase_total(
                segs,
                phase,
            ) by {
                assert(phase_total(psegs, phase, psegs.len() as int) == phase_total(
                    psegs,
                    phase,
                    psegs.len() - 1,
                ) + if psegs[psegs.len() - 1].phase == phase {
                    psegs[psegs.len() - 1].items.len() as int
                } else {
                    0int
                });
                crate::plan::lemma_phase_total_prefix_pub(psegs, prest, phase, prest.len() as int);
                assert(phase_total(prest, phase, prest.len() as int) == allocs_phase_total(
                    rest,
                    phase,
                ));
                assert(allocs_phase_total(segs, phase) == allocs_phase_total(rest, phase) + if last.phase
                    == phase {
                    last.cards@.len() as int
                } else {
                    0int
                });
                assert(plast.phase == last.phase);
                assert(plast.items.len() == last.cards@.len());
            }
        }
    }
}

/// The card a segment's item stands for, if the item is in the segment.
pub open spec fn item_card_in_segment(seg: SegmentPlanView, item_id: u128) -> Option<u128>
    decreases seg.items.len(),
{
    if seg.items.len() == 0 {
        None
    } else if seg.items[0].item_id == item_id {
        Some(seg.items[0].card.id)
    } else {
        item_card_in_segment(
            SegmentPlanView {
                items: seg.items.drop_first(),
                ..seg
            },
            item_id,
        )
    }
}

/// The card a plan's item stands for, searching the segments in order.
pub open spec fn item_card_in_plan_upto(p: PlanView, item_id: u128, n: int) -> Option<u128>
    decreases n,
{
    if n <= 0 {
        None
    } else {
        match item_card_in_plan_upto(p, item_id, n - 1) {
            Some(c) => Some(c),
            None => item_card_in_segment(p.segments[n - 1], item_id),
        }
    }
}

/// The card a plan's item stands for, if the item belongs to the plan.
pub open spec fn item_card_in_plan(p: PlanView, item_id: u128) -> Option<u128> {
    item_card_in_plan_upto(p, item_id, p.segments.len() as int)
}

/// Resolve one item identity to its card within a plan.
fn resolve_item(plan: &TodayWorkoutPlan, item_id: u128) -> (r: Option<u128>)
    ensures
        r == item_card_in_plan(plan@, item_id),
{
    let mut s: usize = 0;
    while s < plan.segments.len()
        invariant
            s <= plan.segments.len(),
            item_card_in_plan_upto(plan@, item_id, s as int) is None,
        decreases plan.segments.len() - s,
    {
        let seg = &plan.segments[s];
        proof {
            assert((SegmentPlanView {
                items: plan@.segments[s as int].items.skip(0),
                ..plan@.segments[s as int]
            }) =~= plan@.segments[s as int]);
        }
        let mut k: usize = 0;
        while k < seg.items.len()
            invariant
                k <= seg.items.len(),
                seg == &plan.segments[s as int],
                s < plan.segments.len(),
                item_card_in_plan_upto(plan@, item_id, s as int) is None,
                item_card_in_segment(plan@.segments[s as int], item_id) == item_card_in_segment(
                    (SegmentPlanView {
                        items: plan@.segments[s as int].items.skip(k as int),
                        ..plan@.segments[s as int]
                    }),
                    item_id,
                ),
            decreases seg.items.len() - k,
        {
            proof {
                let cur = SegmentPlanView {
                    items: plan@.segments[s as int].items.skip(k as int),
                    ..plan@.segments[s as int]
                };
                assert(cur.items[0] == plan@.segments[s as int].items[k as int]);
                assert(cur.items.drop_first() =~= plan@.segments[s as int].items.skip(k + 1));
            }
            if seg.items[k].item_id == item_id {
                let cid = seg.items[k].card.id;
                proof {
                    assert(item_card_in_segment(plan@.segments[s as int], item_id) == Some(cid));
                    assert(item_card_in_plan_upto(plan@, item_id, s + 1) == Some(cid));
                    lemma_item_plan_upto_some(plan@, item_id, s + 1, plan@.segments.len() as int);
                }
                return Some(cid);
            }
            k = k + 1;
        }
        proof {
            let cur = SegmentPlanView {
                items: plan@.segments[s as int].items.skip(seg.items@.len() as int),
                ..plan@.segments[s as int]
            };
            assert(cur.items.len() == 0);
            assert(item_card_in_segment(plan@.segments[s as int], item_id) is None);
        }
        s = s + 1;
    }
    None
}

/// Once a prefix of the segments resolves an item, the whole plan does,
/// to the same card.
proof fn lemma_item_plan_upto_some(p: PlanView, item_id: u128, n: int, m: int)
    requires
        0 <= n <= m,
        item_card_in_plan_upto(p, item_id, n) is Some,
    ensures
        item_card_in_plan_upto(p, item_id, m) == item_card_in_plan_upto(p, item_id, n),
    decreases m - n,
{
    if n < m {
        lemma_item_plan_upto_some(p, item_id, n + 1, m);
    }
}

/// The first stored workout with the given identifier.
pub open spec fn workout_index_upto(ws: Seq<WorkoutRecordView>, id: u128, n: int) -> Option<int>
    decreases n,
{
    if n <= 0 {
        None
    } else {
        match workout_index_upto(ws, id, n - 1) {
            Some(i) => Some(i),
            None => if ws[n - 1].plan.workout_id == id {
                Some(n - 1)
            } else {
                None
            },
        }
    }
}

/// The first stored workout with the given identifier.
pub open spec fn workout_index(ws: Seq<WorkoutRecordView>, id: u128) -> Option<int> {
    workout_index_upto(ws, id, ws.len() as int)
}

/// Find the first stored workout with the given identifier.
fn find_workout(workouts: &Vec<WorkoutRecord>, id: u128) -> (r: Option<usize>)
    ensures
        ({
            let ws = workouts@.map_values(|w: WorkoutRecord| w@);
            match r {
                Some(i) => workout_index(ws, id) == Some(i as int) && (i as int) < ws.len(),
                None => workout_index(ws, id) is None,
            }
        }),
{
    let ghost ws = workouts@.map_values(|w: WorkoutRecord| w@);
    let mut i: usize = 0;
    while i < workouts.len()
        invariant
            i <= workouts.len(),
            ws == workouts@.map_values(|w: WorkoutRecord| w@),
            workout_index_upto(ws, id, i as int) is None,
        decreases workouts.len() - i,
    {
        if workouts[i].plan.workout_id == id {
            proof {
                assert(workout_index_upto(ws, id, i + 1) == Some(i as int));
                lemma_workout_index_some(ws, id, i + 1, ws.len() as int);
            }
            return Some(i);
        }
        i = i + 1;
    }
    None
}

/// Once a prefix finds the workout, the whole list does.
proof fn lemma_workout_index_some(ws: Seq<WorkoutRecordView>, id: u128, n: int, m: int)
    requires
        0 <= n <= m,
        workout_index_upto(ws, id, n) is Some,
    ensures
        workout_index_upto(ws, id, m) == workout_index_upto(ws, id, n),
    decreases m - n,
{
    if n < m {
        lemma_workout_index_some(ws, id, n + 1, m);
    }
}

/// The first card with the given identifier.
pub open spec fn card_index_upto(cards: Seq<MemoryCard>, id: u128, n: int) -> Option<int>
    decreases n,
{
    if n <= 0 {
        None
    } else {
        match card_index_upto(cards, id, n - 1) {
            Some(i) => Some(i),
            None => if cards[n - 1].id == id {
                Some(n - 1)
            } else {
                None
            },
        }
    }
}

/// The first card with the given identifier.
pub open spec fn card_index_of(cards: Seq<MemoryCard>, id: u128) -> Option<int> {
    card_index_upto(cards, id, cards.len() as int)
}

/// Find the first card with the given identifier.
fn find_card(cards: &Vec<MemoryCard>, id: u128) -> (r: Option<usize>)
    ensures
        match r {
            Some(i) => card_index_of(cards@, id) == Some(i as int) && (i as int) < cards@.len()
                && cards@[i as int].id == id,
            None => card_index_of(cards@, id) is None,
        },
{
    let mut i: usize = 0;
    while i < cards.len()
        invariant
            i <= cards.len(),
            card_index_upto(cards@, id, i as int) is None,
        decreases cards.len() - i,
    {
        if cards[i].id == id {
            proof {
                assert(card_index_upto(cards@, id, i + 1) == Some(i as int));
                lemma_card_index_some(cards@, id, i + 1, cards@.len() as int);
            }
            return Some(i);
        }
        i = i + 1;
    }
    None
}

/// Once a prefix finds the card, the whole pool does.
proof fn lemma_card_index_some(cards: Seq<MemoryCard>, id: u128, n: int, m: int)
    requires
        0 <= n <= m,
        card_index_upto(cards, id, n) is Some,
    ensures
        card_index_upto(cards, id, m) == card_index_upto(cards, id, n),
    decreases m - n,
{
    if n < m {
        lemma_card_index_some(cards, id, n + 1, m);
    }
}

/// The phase totals of the standard three-allocation layout.
proof fn lemma_three_alloc_totals(segs: Seq<SegmentAllocation>)
    requires
        segs.len() == 3,
        segs[0].phase is Quiz,
        segs[1].phase is Apply,
        segs[2].phase is Review,
    ensures
        allocs_phase_total(segs, crate::workout::WorkoutPhase::Quiz) == segs[0].cards@.len(),
        allocs_phase_total(segs, crate::workout::WorkoutPhase::Apply) == segs[1].cards@.len(),
        allocs_phase_total(segs, crate::workout::WorkoutPhase::Review) == segs[2].cards@.len(),
{
    reveal_with_fuel(allocs_phase_total, 5);
    assert(segs.drop_last() =~= segs.take(2));
    assert(segs.take(2).drop_last() =~= segs.take(1));
    assert(segs.take(1).drop_last() =~= segs.take(0));
    assert(segs.take(0).len() == 0);
    assert(segs.last() == segs[2]);
    assert(segs.take(2).last() == segs[1]);
    assert(segs.take(1).last() == segs[0]);
}

impl TodayScheduler {
    /// Wrap an already-loaded store image.
    pub fn new(
        cards: Vec<MemoryCard>,
        directions: Vec<Direction>,
        skills: Vec<SkillPoint>,
        workouts: Vec<WorkoutRecord>,
        history: Vec<ReviewEvent>,
    ) -> (s: TodayScheduler)
        ensures
            s.cards == cards,
            s.directions == directions,
            s.skills == skills,
            s.workouts == workouts,
            s.history == history,
    {
        TodayScheduler { cards, directions, skills, workouts, history }
    }

    /// Return today's plan: the one already scheduled for `now`'s day if
    /// a pending one exists (the state is left untouched), otherwise a
    /// freshly computed plan, stored pending. `None` only when there are
    /// no cards at all.
    #[verifier::rlimit(100)]
    #[verifier::spinoff_prover]
    pub fn get_or_schedule(&mut self, now: i64) -> (r: Option<TodayWorkoutPlan>)
        requires
            old(self).wf(),
            time_ok(now as int),
        ensures
            final(self).wf(),
            final(self)@.cards == old(self)@.cards,
            final(self)@.directions == old(self)@.directions,
            final(self)@.skills == old(self)@.skills,
            final(self)@.history == old(self)@.history,
            pending_for_day(old(self)@.workouts, spec_day(now as int)) matches Some(pv) ==> (
            final(self)@ == old(self)@ && (r matches Some(p) && p@ == pv)),
            (pending_for_day(old(self)@.workouts, spec_day(now as int)) is None && old(
                self,
            )@.cards.len() == 0) ==> (r is None && final(self)@ == old(self)@),
            (pending_for_day(old(self)@.workouts, spec_day(now as int)) is None && old(
                self,
            )@.cards.len() > 0) ==> (r matches Some(p) && ({
                let m: int = if old(self)@.cards.len() < 60 {
                    old(self)@.cards.len() as int
                } else {
                    60
                };
                let pool: int = if m < 20 {
                    m
                } else {
                    20
                };
                let t = crate::allocator::spec_segment_targets(pool);
                &&& p.scheduled_for == now
                &&& p.generated_at == now
                &&& final(self)@.workouts =~= old(self)@.workouts.push(
                    WorkoutRecordView {
                        plan: p@,
                        status: WorkoutStatus::Pending,
                        completed_at: None,
                    },
                )
                &&& plan_card_ids(p@).no_duplicates()
                &&& p.totals.quiz == t.0
                &&& p.totals.apply == t.1
                &&& p.totals.review == t.2
                &&& p.totals.total_cards == t.0 + t.1 + t.2
            })),
            r matches Some(p) ==> pending_for_day(final(self)@.workouts, spec_day(now as int))
                == Some(p@),
            (r is None) <==> (pending_for_day(old(self)@.workouts, spec_day(now as int)) is None
                && old(self)@.cards.len() == 0),
    {
        let day = day_index(now);
        proof {
            assert forall|i: int| 0 <= i < self.workouts@.len() implies time_ok(
                (#[trigger] self.workouts@[i]).plan.scheduled_for as int,
            ) by {
                assert(self@.workouts[i] == self.workouts@[i]@);
                assert(time_ok(self@.workouts[i].plan.scheduled_for));
            }
        }
        if let Some(i) = find_pending_for_day(&self.workouts, day) {
            let p = self.workouts[i].plan.clone();
            return Some(p);
        }
        if self.cards.len() == 0 {
            return None;
        }
        let pool = list_for_today(&self.cards, now, TODAY_POOL_LIMIT);
        let stats_list = review_stats_from_history(&self.history);
        let segs = schedule_segments(&pool, &stats_list, now, &self.directions, &self.skills);
        let ghost segs_view = segs@;
        let plan = build_plan(now, segs);
        proof {
            assert(pool@.len() > 0);
            lemma_plan_packaging(plan@.segments, segs_view);
            lemma_three_alloc_totals(segs_view);
        }
        let record = WorkoutRecord { plan: plan.clone(), status: WorkoutStatus::Pending, completed_at: None };
        let ghost old_ws = self.workouts@.map_values(|w: WorkoutRecord| w@);
        self.workouts.push(record);
        proof {
            let new_ws = self.workouts@.map_values(|w: WorkoutRecord| w@);
            assert(new_ws =~= old_ws.push(
                WorkoutRecordView {
                    plan: plan@,
                    status: WorkoutStatus::Pending,
                    completed_at: None,
                },
            ));
            assert(new_ws.last().status is Pending);
            assert(spec_day(new_ws.last().plan.scheduled_for) == spec_day(now as int));
            assert(pending_for_day(new_ws, spec_day(now as int)) == Some(plan@));
        }
        Some(plan)
    }
}

/// A card after one outcome is applied: the pure counterpart of
/// [`apply_result`].
pub open spec fn applied_card(c: MemoryCard, result: WorkoutResultKind, now: int) -> MemoryCard {
    let s1 = if result is Pass {
        spec_pass_stability(c.stability as int)
    } else {
        spec_fail_stability(c.stability as int)
    };
    let interval = if result is Pass {
        spec_pass_interval_secs(s1, c.relevance as int)
    } else {
        spec_fail_interval_secs(c.relevance as int)
    };
    MemoryCard {
        stability: s1 as i64,
        priority: spec_priority(s1, c.relevance as int, c.novelty as int) as i64,
        next_due: Some((now + interval) as i64),
        updated_at: now as i64,
        ..c
    }
}

/// The card pool after the first `k` resolved outcomes were applied in
/// order.
pub open spec fn replay_cards(
    cards: Seq<MemoryCard>,
    rs: Seq<(u128, WorkoutResultKind)>,
    now: int,
    k: int,
) -> Seq<MemoryCard>
    decreases k,
{
    if k <= 0 {
        cards
    } else {
        let prev = replay_cards(cards, rs, now, k - 1);
        match card_index_of(prev, rs[k - 1].0) {
            Some(i) => prev.update(i, applied_card(prev[i], rs[k - 1].1, now)),
            None => prev,
        }
    }
}

/// What the `i`-th resolved outcome reports, given the pool state it
/// found.
pub open spec fn spec_outcome(
    cards: Seq<MemoryCard>,
    rs: Seq<(u128, WorkoutResultKind)>,
    now: int,
    i: int,
) -> ItemOutcome {
    let prev = replay_cards(cards, rs, now, i);
    match card_index_of(prev, rs[i].0) {
        Some(ci) => {
            let c = prev[ci];
            let s1 = if rs[i].1 is Pass {
                spec_pass_stability(c.stability as int)
            } else {
                spec_fail_stability(c.stability as int)
            };
            ItemOutcome {
                card_id: c.id,
                direction_id: c.direction_id,
                skill_point_id: c.skill_point_id,
                title: c.title,
                result: rs[i].1,
                new_priority: spec_priority(s1, c.relevance as int, c.novelty as int) as i64,
                novelty: crate::units::spec_clamp_unit(c.novelty as int) as i64,
                previous_stability: crate::units::spec_clamp_unit(c.stability as int) as i64,
                stability_delta: (s1 - crate::units::spec_clamp_unit(c.stability as int)) as i64,
            }
        },
        None => arbitrary(),
    }
}

/// The per-card progress the `i`-th resolved outcome reports.
pub open spec fn spec_progress(
    cards: Seq<MemoryCard>,
    rs: Seq<(u128, WorkoutResultKind)>,
    now: int,
    i: int,
) -> WorkoutCardProgress {
    let prev = replay_cards(cards, rs, now, i);
    match card_index_of(prev, rs[i].0) {
        Some(ci) => {
            let c = prev[ci];
            let s1 = if rs[i].1 is Pass {
                spec_pass_stability(c.stability as int)
            } else {
                spec_fail_stability(c.stability as int)
            };
            let interval = if rs[i].1 is Pass {
                spec_pass_interval_secs(s1, c.relevance as int)
            } else {
                spec_fail_interval_secs(c.relevance as int)
            };
            WorkoutCardProgress {
                card_id: c.id,
                result: rs[i].1,
                stability: s1 as i64,
                priority: spec_priority(s1, c.relevance as int, c.novelty as int) as i64,
                next_due: Some((now + interval) as i64),
            }
        },
        None => arbitrary(),
    }
}

/// All outcome reports of a completed session, in submission order.
pub open spec fn spec_outcome_seq(
    cards: Seq<MemoryCard>,
    rs: Seq<(u128, WorkoutResultKind)>,
    now: int,
) -> Seq<ItemOutcome> {
    Seq::new(rs.len(), |i: int| spec_outcome(cards, rs, now, i))
}

/// The submitted outcomes with each item identity resolved to its card.
pub open spec fn resolved_pairs(p: PlanView, inputs: Seq<WorkoutItemResultInput>) -> Seq<
    (u128, WorkoutResultKind),
> {
    Seq::new(
        inputs.len(),
        |i: int|
            (
                match item_card_in_plan(p, inputs[i].item_id) {
                    Some(c) => c,
                    None => 0u128,
                },
                inputs[i].result,
            ),
    )
}

/// Whether every submitted item identity belongs to the plan.
pub open spec fn all_items_resolve(p: PlanView, inputs: Seq<WorkoutItemResultInput>) -> bool {
    forall|i: int|
        0 <= i < inputs.len() ==> item_card_in_plan(p, (#[trigger] inputs[i]).item_id) is Some
}

/// Whether every resolved card is in the pool.
pub open spec fn all_cards_found(cards: Seq<MemoryCard>, rs: Seq<(u128, WorkoutResultKind)>) -> bool {
    forall|i: int| 0 <= i < rs.len() ==> card_index_of(cards, (#[trigger] rs[i]).0) is Some
}

/// The history entries a completed session appends.
pub open spec fn events_of(rs: Seq<(u128, WorkoutResultKind)>, now: int) -> Seq<ReviewEvent> {
    Seq::new(
        rs.len(),
        |i: int| ReviewEvent { card_id: rs[i].0, result: rs[i].1, occurred_at: now as i64 },
    )
}

/// Pools with pointwise-equal identifiers index cards identically.
proof fn lemma_card_index_same_ids(c1: Seq<MemoryCard>, c2: Seq<MemoryCard>, id: u128, n: int)
    requires
        c1.len() == c2.len(),
        0 <= n <= c1.len(),
        forall|j: int| 0 <= j < c1.len() ==> (#[trigger] c1[j]).id == c2[j].id,
    ensures
        card_index_upto(c1, id, n) == card_index_upto(c2, id, n),
    decreases n,
{
    if n > 0 {
        lemma_card_index_same_ids(c1, c2, id, n - 1);
    }
}

impl TodayScheduler {
    /// Complete a pending workout: validate the submission in full, then
    /// apply every outcome to its card, append the review history, flip
    /// the workout to completed, and report the session's analytics. A
    /// failed call leaves the state untouched; a completed workout is
    /// terminal and refuses a second completion.
    #[verifier::rlimit(100)]
    #[verifier::spinoff_prover]
    pub fn complete_workout(
        &mut self,
        workout_id: u128,
        inputs: &Vec<WorkoutItemResultInput>,
        now: i64,
    ) -> (r: Result<WorkoutCompletionSummary, AppError>)
        requires
            old(self).wf(),
            time_ok(now as int),
            now as int + 180_000 <= 4_000_000_000_000,
            inputs@.len() <= 1_000_000,
            old(self)@.history.len() + inputs@.len() <= 1_000_000_000,
        ensures
            final(self).wf(),
            final(self)@.directions == old(self)@.directions,
            final(self)@.skills == old(self)@.skills,
            inputs@.len() == 0 ==> (r matches Err(e) && e is Validation) && final(self)@ == old(
                self,
            )@,
            (inputs@.len() > 0 && workout_index(old(self)@.workouts, workout_id) is None) ==> (
            r matches Err(e) && e is NotFound) && final(self)@ == old(self)@,
            (inputs@.len() > 0 && (workout_index(old(self)@.workouts, workout_id) matches Some(w)
                && !(old(self)@.workouts[w].status is Pending))) ==> (r matches Err(e)
                && e is Validation) && final(self)@ == old(self)@,
            (inputs@.len() > 0 && (workout_index(old(self)@.workouts, workout_id) matches Some(w)
                && old(self)@.workouts[w].status is Pending && !all_items_resolve(
                old(self)@.workouts[w].plan,
                inputs@,
            ))) ==> (r matches Err(e) && e is Validation) && final(self)@ == old(self)@,
            (inputs@.len() > 0 && (workout_index(old(self)@.workouts, workout_id) matches Some(w)
                && old(self)@.workouts[w].status is Pending && all_items_resolve(
                old(self)@.workouts[w].plan,
                inputs@,
            ) && !all_cards_found(
                old(self)@.cards,
                resolved_pairs(old(self)@.workouts[w].plan, inputs@),
            ))) ==> (r matches Err(e) && e is NotFound) && final(self)@ == old(self)@,
            (r is Ok) <==> (inputs@.len() > 0 && (workout_index(old(self)@.workouts, workout_id)
                matches Some(w) && old(self)@.workouts[w].status is Pending && all_items_resolve(
                old(self)@.workouts[w].plan,
                inputs@,
            ) && all_cards_found(
                old(self)@.cards,
                resolved_pairs(old(self)@.workouts[w].plan, inputs@),
            ))),
            r matches Ok(s) ==> (workout_index(old(self)@.workouts, workout_id) matches Some(w)
                && ({
                let plan = old(self)@.workouts[w].plan;
                let rs = resolved_pairs(plan, inputs@);
                let outs = spec_outcome_seq(old(self)@.cards, rs, now as int);
                let acc = outcomes_acc(outs, OutcomeGroup::All, rs.len() as int);
                &&& final(self)@.cards =~= replay_cards(
                    old(self)@.cards,
                    rs,
                    now as int,
                    rs.len() as int,
                )
                &&& final(self)@.history =~= old(self)@.history + events_of(rs, now as int)
                &&& final(self)@.workouts =~= old(self)@.workouts.update(
                    w,
                    WorkoutRecordView {
                        plan,
                        status: WorkoutStatus::Completed,
                        completed_at: Some(now),
                    },
                )
                &&& s.workout_id == workout_id
                &&& s.completed_at == now
                &&& s.updates@.len() == rs.len()
                &&& (forall|i: int|
                    0 <= i < rs.len() ==> #[trigger] s.updates@[i] == spec_progress(
                        old(self)@.cards,
                        rs,
                        now as int,
                        i,
                    ))
                &&& s.metrics.total_items == acc.total
                &&& s.metrics.pass_count == acc.pass
                &&& s.metrics.fail_count == acc.fail
                &&& s.metrics.pass_rate == spec_rate_milli(acc.pass, acc.total)
                &&& s.metrics.kv_delta == spec_clamp(acc.kv, -1_500_000, 1_500_000)
                &&& s.metrics.udr == spec_udr(
                    acc.uncertainty_before,
                    acc.uncertainty_delta,
                    acc.total,
                )
                &&& s.insights@ == spec_insights(
                    acc.pass,
                    acc.fail,
                    acc.total,
                    s.metrics.kv_delta as int,
                    s.metrics.udr as int,
                )
                &&& (forall|j: int|
                    0 <= j < s.metrics.direction_breakdown@.len()
                        ==> crate::completion::direction_entry_ok(
                        #[trigger] s.metrics.direction_breakdown@[j],
                        outs,
                        old(self)@.directions,
                        s.metrics.direction_breakdown@[j].direction_id,
                        rs.len() as int,
                    ))
                &&& (forall|j: int, k: int|
                    0 <= j < k < s.metrics.direction_breakdown@.len()
                        ==> s.metrics.direction_breakdown@[j].direction_id
                        != s.metrics.direction_breakdown@[k].direction_id)
                &&& (forall|e: int|
                    0 <= e < rs.len() ==> crate::completion::direction_entry_listed(
                        s.metrics.direction_breakdown@,
                        (#[trigger] outs[e]).direction_id,
                    ))
                &&& (forall|j: int|
                    0 <= j < s.metrics.skill_breakdown@.len()
                        ==> crate::completion::skill_entry_ok(
                        #[trigger] s.metrics.skill_breakdown@[j],
                        outs,
                        old(self)@.skills,
                        s.metrics.skill_breakdown@[j].skill_point_id,
                        rs.len() as int,
                    ))
                &&& (forall|j: int, k: int|
                    0 <= j < k < s.metrics.skill_breakdown@.len()
                        ==> s.metrics.skill_breakdown@[j].skill_point_id
                        != s.metrics.skill_breakdown@[k].skill_point_id)
                &&& ((exists|ii: int| 0 <= ii < rs.len() && (#[trigger] outs[ii]).result is Fail)
                    ==> (
                s.metrics.recommended_focus matches Some(f) && (
                f matches RecommendedFocus::RetryCard { card_id, title, priority } && (exists|
                    ii: int,
                |
                    0 <= ii < rs.len() && (#[trigger] outs[ii]).result is Fail && outs[ii].card_id
                        == card_id && outs[ii].new_priority == priority) && (forall|jj: int|
                    0 <= jj < rs.len() && (#[trigger] outs[jj]).result is Fail
                        ==> outs[jj].new_priority <= priority))))
                &&& ((forall|ii: int| 0 <= ii < rs.len() ==> !((#[trigger] outs[ii]).result
                    is Fail)) ==> (
                s.metrics.recommended_focus matches Some(f) && (
                f matches RecommendedFocus::ApplyCard { card_id, title, novelty } && (exists|
                    ii: int,
                |
                    0 <= ii < rs.len() && (#[trigger] outs[ii]).result is Pass && outs[ii].card_id
                        == card_id && outs[ii].novelty == novelty) && (forall|jj: int|
                    0 <= jj < rs.len() && (#[trigger] outs[jj]).result is Pass ==> outs[jj].novelty
                        <= novelty))))
            })),
    {
        if inputs.len() == 0 {
            return Err(AppError::Validation(String::from_str("results cannot be empty")));
        }
        let widx = match find_workout(&self.workouts, workout_id) {
            Some(w) => w,
            None => {
                return Err(AppError::NotFound);
            },
        };
        if !matches!(self.workouts[widx].status, WorkoutStatus::Pending) {
            return Err(AppError::Validation(String::from_str("workout already completed")));
        }
        let ghost ws0 = old(self)@.workouts;
        let ghost plan_v = ws0[widx as int].plan;
        let ghost rs = resolved_pairs(plan_v, inputs@);

        let mut resolved: Vec<(u128, WorkoutResultKind)> = Vec::new();
        let mut i: usize = 0;
        while i < inputs.len()
            invariant
                i <= inputs.len(),
                old(self).wf(),
                inputs@.len() > 0,
                self@ == old(self)@,
                (widx as int) < old(self)@.workouts.len(),
                workout_index(old(self)@.workouts, workout_id) == Some(widx as int),
                old(self)@.workouts[widx as int].status is Pending,
                ws0 == old(self)@.workouts,
                plan_v == ws0[widx as int].plan,
                rs == resolved_pairs(plan_v, inputs@),
                resolved@.len() == i,
                forall|j: int|
                    0 <= j < i ==> item_card_in_plan(
                        plan_v,
                        (#[trigger] inputs@[j]).item_id,
                    ) is Some,
                forall|j: int| 0 <= j < i ==> #[trigger] resolved@[j] == rs[j],
            decreases inputs.len() - i,
        {
            proof {
                assert(old(self)@.workouts[widx as int].plan == self.workouts@[widx as int]@.plan);
            }
            match resolve_item(&self.workouts[widx].plan, inputs[i].item_id) {
                Some(cid) => {
                    resolved.push((cid, inputs[i].result));
                },
                None => {
                    proof {
                        assert(!all_items_resolve(plan_v, inputs@)) by {
                            assert(item_card_in_plan(plan_v, inputs@[i as int].item_id) is None);
                        }
                    }
                    return Err(AppError::Validation(String::from_str("unknown workout item")));
                },
            }
            i = i + 1;
        }
        proof {
            assert(resolved@ =~= rs);
            assert(all_items_resolve(plan_v, inputs@));
        }

        let mut i: usize = 0;
        while i < resolved.len()
            invariant
                i <= resolved.len(),
                old(self).wf(),
                self@ == old(self)@,
                (widx as int) < old(self)@.workouts.len(),
                workout_index(old(self)@.workouts, workout_id) == Some(widx as int),
                old(self)@.workouts[widx as int].status is Pending,
                plan_v == old(self)@.workouts[widx as int].plan,
                rs == resolved_pairs(plan_v, inputs@),
                all_items_resolve(plan_v, inputs@),
                inputs@.len() > 0,
                resolved@ == rs,
                forall|j: int|
                    0 <= j < i ==> card_index_of(old(self)@.cards, (#[trigger] rs[j]).0) is Some,
            decreases resolved.len() - i,
        {
            if find_card(&self.cards, resolved[i].0).is_none() {
                proof {
                    assert(!all_cards_found(old(self)@.cards, rs)) by {
                        assert(card_index_of(old(self)@.cards, rs[i as int].0) is None);
                    }
                }
                return Err(AppError::NotFound);
            }
            i = i + 1;
        }
        proof {
            assert(all_cards_found(old(self)@.cards, rs));
        }

        let ghost cards0 = old(self)@.cards;
        let mut items: Vec<ItemOutcome> = Vec::new();
        let mut updates: Vec<WorkoutCardProgress> = Vec::new();
        let mut k: usize = 0;
        while k < resolved.len()
            invariant
                k <= resolved.len(),
                resolved@ == rs,
                rs.len() <= 1_000_000,
                time_ok(now as int),
                now as int + 180_000 <= 4_000_000_000_000,
                (widx as int) < old(self)@.workouts.len(),
                workout_index(old(self)@.workouts, workout_id) == Some(widx as int),
                old(self)@.workouts[widx as int].status is Pending,
                plan_v == old(self)@.workouts[widx as int].plan,
                rs == resolved_pairs(plan_v, inputs@),
                all_items_resolve(plan_v, inputs@),
                inputs@.len() > 0,
                cards0 == old(self)@.cards,
                unique_card_ids(cards0),
                cards0.len() <= 100_000,
                all_cards_found(cards0, rs),
                self@.directions == old(self)@.directions,
                self@.skills == old(self)@.skills,
                self@.workouts == old(self)@.workouts,
                self@.history == old(self)@.history,
                self.cards@ == replay_cards(cards0, rs, now as int, k as int),
                self.cards@.len() == cards0.len(),
                forall|j: int| 0 <= j < cards0.len() ==> (#[trigger] self.cards@[j]).id
                    == cards0[j].id,
                cards_times_ok(self.cards@),
                items@.len() == k,
                forall|j: int|
                    0 <= j < k ==> #[trigger] items@[j] == spec_outcome(cards0, rs, now as int, j),
                crate::completion::outcomes_ok(items@),
                updates@.len() == k,
                forall|j: int|
                    0 <= j < k ==> #[trigger] updates@[j] == spec_progress(
                        cards0,
                        rs,
                        now as int,
                        j,
                    ),
            decreases resolved.len() - k,
        {
            let (cid, result) = resolved[k];
            proof {
                lemma_card_index_same_ids(self.cards@, cards0, cid, cards0.len() as int);
                assert(card_index_of(cards0, cid) is Some);
            }
            let ci = match find_card(&self.cards, cid) {
                Some(ci) => ci,
                None => {
                    proof {
                        assert(false);
                    }
                    return Err(AppError::NotFound);
                },
            };
            let mut c = self.cards[ci].clone();
            let ghost before = c;
            let o = apply_result(&mut c, result, now);
            let item = ItemOutcome {
                card_id: c.id,
                direction_id: c.direction_id,
                skill_point_id: c.skill_point_id,
                title: c.title.clone(),
                result,
                new_priority: o.progress.priority,
                novelty: o.novelty,
                previous_stability: o.previous_stability,
                stability_delta: o.stability_delta,
            };
            proof {
                assert(c == applied_card(before, result, now as int));
                assert(item == spec_outcome(cards0, rs, now as int, k as int));
                assert(o.progress == spec_progress(cards0, rs, now as int, k as int));
            }
            self.cards.set(ci, c);
            items.push(item);
            updates.push(o.progress);
            k = k + 1;
            proof {
                assert(self.cards@ =~= replay_cards(cards0, rs, now as int, k as int));
            }
        }
        proof {
            assert(items@ =~= spec_outcome_seq(cards0, rs, now as int));
            assert forall|j1: int, j2: int|
                0 <= j1 < j2 < self.cards@.len() implies self.cards@[j1].id != self.cards@[j2].id by {
                assert(self.cards@[j1].id == cards0[j1].id);
                assert(self.cards@[j2].id == cards0[j2].id);
            }
        }

        let summary = assemble_summary(
            &items,
            updates,
            &self.directions,
            &self.skills,
            workout_id,
            now,
            Ghost(cards0),
            Ghost(rs),
        );

        let ghost history0 = old(self)@.history;
        let mut k: usize = 0;
        while k < resolved.len()
            invariant
                k <= resolved.len(),
                old(self).wf(),
                resolved@ == rs,
                time_ok(now as int),
                (widx as int) < old(self)@.workouts.len(),
                workout_index(old(self)@.workouts, workout_id) == Some(widx as int),
                old(self)@.workouts[widx as int].status is Pending,
                plan_v == old(self)@.workouts[widx as int].plan,
                ws0 == old(self)@.workouts,
                rs == resolved_pairs(plan_v, inputs@),
                all_items_resolve(plan_v, inputs@),
                all_cards_found(cards0, rs),
                inputs@.len() > 0,
                cards0 == old(self)@.cards,
                unique_card_ids(cards0),
                self.cards@ == replay_cards(cards0, rs, now as int, rs.len() as int),
                self.cards@.len() == cards0.len(),
                forall|j: int| 0 <= j < cards0.len() ==> (#[trigger] self.cards@[j]).id
                    == cards0[j].id,
                cards_times_ok(self.cards@),
                self@.workouts == old(self)@.workouts,
                self@.directions == old(self)@.directions,
                self@.skills == old(self)@.skills,
                history0 == old(self)@.history,
                history0.len() + rs.len() <= 1_000_000_000,
                self.history@.len() == history0.len() + k,
                forall|j: int| 0 <= j < history0.len() ==> #[trigger] self.history@[j]
                    == history0[j],
                forall|j: int|
                    0 <= j < k ==> #[trigger] self.history@[history0.len() + j] == events_of(
                        rs,
                        now as int,
                    )[j],
            decreases resolved.len() - k,
        {
            let (cid, result) = resolved[k];
            self.history.push(ReviewEvent { card_id: cid, result, occurred_at: now });
            k = k + 1;
        }
        proof {
            assert forall|m: int|
                0 <= m < self.history@.len() implies self.history@[m] == (history0 + events_of(
                rs,
                now as int,
            ))[m] by {
                if m >= history0.len() {
                    assert(self.history@[history0.len() + (m - history0.len())] == events_of(
                        rs,
                        now as int,
                    )[m - history0.len()]);
                }
            }
            assert(self.history@ =~= history0 + events_of(rs, now as int));
        }

        let plan_clone = self.workouts[widx].plan.clone();
        let ghost old_ws_exec = self.workouts@;
        self.workouts.set(
            widx,
            WorkoutRecord { plan: plan_clone, status: WorkoutStatus::Completed, completed_at: Some(now) },
        );
        proof {
            assert(self.workouts@.map_values(|w: WorkoutRecord| w@) =~= ws0.update(
                widx as int,
                WorkoutRecordView {
                    plan: plan_v,
                    status: WorkoutStatus::Completed,
                    completed_at: Some(now),
                },
            ));
            assert forall|i: int| 0 <= i < self@.workouts.len() implies time_ok(
                (#[trigger] self@.workouts[i]).plan.scheduled_for,
            ) by {
                if i != widx as int {
                    assert(self@.workouts[i] == ws0[i]);
                } else {
                    assert(self@.workouts[i].plan == plan_v);
                }
            }
        }

        Ok(summary)
    }
}

/// Build the completion summary of a session from its outcome reports:
/// session metrics, per-group breakdowns, the recommended focus and the
/// insight list.
#[verifier::rlimit(100)]
#[verifier::spinoff_prover]
fn assemble_summary(
    items: &Vec<ItemOutcome>,
    updates: Vec<WorkoutCardProgress>,
    directions: &Vec<Direction>,
    skills: &Vec<SkillPoint>,
    workout_id: u128,
    now: i64,
    Ghost(cards0): Ghost<Seq<MemoryCard>>,
    Ghost(rs): Ghost<Seq<(u128, WorkoutResultKind)>>,
) -> (s: WorkoutCompletionSummary)
    requires
        items@ == spec_outcome_seq(cards0, rs, now as int),
        items@.len() == rs.len(),
        rs.len() > 0,
        rs.len() <= 1_000_000,
        crate::completion::outcomes_ok(items@),
    ensures
        ({
            let outs = spec_outcome_seq(cards0, rs, now as int);
            let acc = outcomes_acc(outs, OutcomeGroup::All, rs.len() as int);
            &&& s.workout_id == workout_id
            &&& s.completed_at == now
            &&& s.updates@ == updates@
            &&& s.metrics.total_items == acc.total
            &&& s.metrics.pass_count == acc.pass
            &&& s.metrics.fail_count == acc.fail
            &&& s.metrics.pass_rate == spec_rate_milli(acc.pass, acc.total)
            &&& s.metrics.kv_delta == spec_clamp(acc.kv, -1_500_000, 1_500_000)
            &&& s.metrics.udr == spec_udr(acc.uncertainty_before, acc.uncertainty_delta, acc.total)
            &&& s.insights@ == spec_insights(
                acc.pass,
                acc.fail,
                acc.total,
                s.metrics.kv_delta as int,
                s.metrics.udr as int,
            )
            &&& (forall|j: int|
                0 <= j < s.metrics.direction_breakdown@.len()
                    ==> crate::completion::direction_entry_ok(
                    #[trigger] s.metrics.direction_breakdown@[j],
                    outs,
                    directions@,
                    s.metrics.direction_breakdown@[j].direction_id,
                    rs.len() as int,
                ))
            &&& (forall|j: int, k: int|
                0 <= j < k < s.metrics.direction_breakdown@.len()
                    ==> s.metrics.direction_breakdown@[j].direction_id
                    != s.metrics.direction_breakdown@[k].direction_id)
            &&& (forall|e: int|
                0 <= e < rs.len() ==> crate::completion::direction_entry_listed(
                    s.metrics.direction_breakdown@,
                    (#[trigger] outs[e]).direction_id,
                ))
            &&& (forall|j: int|
                0 <= j < s.metrics.skill_breakdown@.len() ==> crate::completion::skill_entry_ok(
                    #[trigger] s.metrics.skill_breakdown@[j],
                    outs,
                    skills@,
                    s.metrics.skill_breakdown@[j].skill_point_id,
                    rs.len() as int,
                ))
            &&& (forall|j: int, k: int|
                0 <= j < k < s.metrics.skill_breakdown@.len()
                    ==> s.metrics.skill_breakdown@[j].skill_point_id
                    != s.metrics.skill_breakdown@[k].skill_point_id)
            &&& ((exists|ii: int| 0 <= ii < rs.len() && (#[trigger] outs[ii]).result is Fail) ==> (
            s.metrics.recommended_focus matches Some(f) && (
            f matches RecommendedFocus::RetryCard { card_id, title, priority } && (exists|ii: int|
                0 <= ii < rs.len() && (#[trigger] outs[ii]).result is Fail && outs[ii].card_id
                    == card_id && outs[ii].new_priority == priority) && (forall|jj: int|
                0 <= jj < rs.len() && (#[trigger] outs[jj]).result is Fail
                    ==> outs[jj].new_priority <= priority))))
            &&& ((forall|ii: int| 0 <= ii < rs.len() ==> !((#[trigger] outs[ii]).result is Fail))
                ==> (s.metrics.recommended_focus matches Some(f) && (
            f matches RecommendedFocus::ApplyCard { card_id, title, novelty } && (exists|ii: int|
                0 <= ii < rs.len() && (#[trigger] outs[ii]).result is Pass && outs[ii].card_id
                    == card_id && outs[ii].novelty == novelty) && (forall|jj: int|
                0 <= jj < rs.len() && (#[trigger] outs[jj]).result is Pass ==> outs[jj].novelty
                    <= novelty))))
        }),
{
    let acc = crate::completion::accumulate_outcomes(items, OutcomeGroup::All);
    let kv_delta = clamp_range(acc.kv, -1_500_000, 1_500_000);
    let udr = udr_micro(acc.uncertainty_before, acc.uncertainty_delta, acc.total);
    let pass_rate = rate_milli(acc.pass, acc.total);
    let insights = build_insights(acc.pass, acc.fail, acc.total, kv_delta, udr);
    let direction_breakdown = direction_summary_breakdown(items, directions);
    let skill_breakdown = skill_summary_breakdown(items, skills);

    let recommended_focus: Option<RecommendedFocus> = match best_failed_card(items) {
        Some(b) => Some(
            RecommendedFocus::RetryCard {
                card_id: items[b].card_id,
                title: items[b].title.clone(),
                priority: items[b].new_priority,
            },
        ),
        None => match best_passed_card(items) {
            Some(b) => Some(
                RecommendedFocus::ApplyCard {
                    card_id: items[b].card_id,
                    title: items[b].title.clone(),
                    novelty: items[b].novelty,
                },
            ),
            None => {
                proof {
                    assert(items@[0].result is Pass || items@[0].result is Fail);
                    assert(false);
                }
                None
            },
        },
    };

    let metrics = WorkoutSummaryMetrics {
        total_items: acc.total,
        pass_count: acc.pass,
        fail_count: acc.fail,
        pass_rate,
        kv_delta,
        udr,
        recommended_focus,
        direction_breakdown,
        skill_breakdown,
    };
    WorkoutCompletionSummary { workout_id, completed_at: now, updates, metrics, insights }
}

} // verus!
