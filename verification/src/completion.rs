//! The completion engine: apply pass/fail outcomes to each card's
//! stability, priority and due time, and aggregate the session into
//! metrics, per-group breakdowns, a recommended focus and insights.

use vstd::prelude::*;

use crate::allocator::{
    lemma_extend_inv, lemma_full_selection, lemma_perm_complete, sel_inv, select_top,
};
use crate::card::{calculate_priority, cards_times_ok, spec_priority, MemoryCard};
use crate::direction::{spec_stage_for, Direction};
use crate::signals::{
    analyze_direction_signals, analyze_skill_signals, skill_present, spec_direction_signal,
    spec_level_for, spec_skill_signal, MAX_POOL,
};
use crate::scoring::{spec_staleness, staleness};
use crate::skill::SkillPoint;
use crate::stats::{stats_list_ok, stats_view_for, CardReviewStats};
use crate::units::{
    clamp_range, clamp_unit, div_toward_zero, spec_clamp, spec_clamp_unit, spec_div_toward_zero,
    time_ok,
};
use crate::vecs::{contains_id, repeat_bool};
use crate::workout::{
    Insight, RecommendedFocus, WorkoutCardProgress, WorkoutResultKind,
    WorkoutSummaryDirectionBreakdown, WorkoutSummarySkillBreakdown,
};

verus! {

/// How much a pass raises stability, in thousandths.
pub const PASS_STABILITY_BOOST: i64 = 150;

/// The cap a pass cannot raise stability above, in thousandths.
pub const PASS_STABILITY_CAP: i64 = 990;

/// The floor a fail cannot lower stability below, in thousandths.
pub const FAIL_STABILITY_FLOOR: i64 = 50;

/// The base interval after a pass, in seconds (one day).
pub const PASS_BASE_INTERVAL_SECS: i64 = 86_400;

/// The base interval after a fail, in seconds (six hours).
pub const FAIL_BASE_INTERVAL_SECS: i64 = 21_600;

/// Stability after a pass: up by `0.15`, capped at `0.99`.
pub open spec fn spec_pass_stability(stability: int) -> int {
    let c = spec_clamp_unit(stability);
    if c + 150 > 990 {
        990
    } else {
        c + 150
    }
}

/// Stability after a fail: halved, floored at `0.05`.
pub open spec fn spec_fail_stability(stability: int) -> int {
    let c = spec_clamp_unit(stability);
    if c / 2 < 50 {
        50
    } else {
        c / 2
    }
}

/// The interval damping from relevance: `1 - 0.5 * relevance`, floored.
pub open spec fn spec_interval_factor(relevance: int, floor: int) -> int {
    let c = spec_clamp_unit(relevance);
    if 1000 - c / 2 < floor {
        floor
    } else {
        1000 - c / 2
    }
}

/// Seconds until the next review after a pass: one day, scaled up by the
/// new stability and damped by relevance (factor floored at `0.3`).
pub open spec fn spec_pass_interval_secs(new_stability: int, relevance: int) -> int {
    86400 * (1000 + new_stability) * spec_interval_factor(relevance, 300) / 1_000_000
}

/// Seconds until the next review after a fail: six hours damped by
/// relevance (factor floored at `0.25`).
pub open spec fn spec_fail_interval_secs(relevance: int) -> int {
    21600 * spec_interval_factor(relevance, 250) / 1000
}

/// What one applied outcome reports back about its card.
#[derive(Debug, Clone, Copy, PartialEq, Eq, Structural)]
pub struct CardUpdateOutcome {
    pub progress: WorkoutCardProgress,
    /// The new due time, seconds.
    pub next_due: i64,
    /// The card's (clamped) novelty, thousandths.
    pub novelty: i64,
    /// The card's stability before the update, clamped, thousandths.
    pub previous_stability: i64,
    /// New minus previous stability, thousandths; negative after a fail.
    pub stability_delta: i64,
}

/// Apply one pass/fail outcome to a card: move its stability, reschedule
/// it, and re-derive its priority. Everything else on the card is kept.
pub fn apply_result(card: &mut MemoryCard, result: WorkoutResultKind, now: i64) -> (o:
    CardUpdateOutcome)
    requires
        time_ok(now as int),
        now as int + 180_000 <= 4_000_000_000_000,
        old(card).times_ok(),
    ensures
        ({
            let prev = spec_clamp_unit(old(card).stability as int);
            let s1 = if result is Pass {
                spec_pass_stability(old(card).stability as int)
            } else {
                spec_fail_stability(old(card).stability as int)
            };
            let interval = if result is Pass {
                spec_pass_interval_secs(s1, old(card).relevance as int)
            } else {
                spec_fail_interval_secs(old(card).relevance as int)
            };
            let p1 = spec_priority(s1, old(card).relevance as int, old(card).novelty as int);
            &&& final(card).stability == s1
            &&& final(card).priority == p1
            &&& final(card).next_due == Some((now + interval) as i64)
            &&& final(card).updated_at == now
            &&& final(card).id == old(card).id
            &&& final(card).direction_id == old(card).direction_id
            &&& final(card).skill_point_id == old(card).skill_point_id
            &&& final(card).title == old(card).title
            &&& final(card).body == old(card).body
            &&& final(card).card_type == old(card).card_type
            &&& final(card).relevance == old(card).relevance
            &&& final(card).novelty == old(card).novelty
            &&& final(card).created_at == old(card).created_at
            &&& o.progress == (WorkoutCardProgress {
                card_id: old(card).id,
                result,
                stability: s1 as i64,
                priority: p1 as i64,
                next_due: Some((now + interval) as i64),
            })
            &&& o.next_due == now + interval
            &&& o.novelty == spec_clamp_unit(old(card).novelty as int)
            &&& o.previous_stability == prev
            &&& o.stability_delta == s1 - prev
            &&& 0 <= s1 <= 1000
            &&& 0 <= interval <= 172_000
            &&& final(card).times_ok()
        }),
{
    let previous_stability = clamp_unit(card.stability);
    let relevance = clamp_unit(card.relevance);
    let novelty = clamp_unit(card.novelty);

    let (stability, interval): (i64, i64) = match result {
        WorkoutResultKind::Pass => {
            let s: i64 = if previous_stability + 150 > 990 {
                990
            } else {
                previous_stability + 150
            };
            let half: i64 = relevance / 2;
            let factor: i64 = if 1000 - half < 300 {
                300
            } else {
                1000 - half
            };
            proof {
                assert(0 <= s <= 990);
                assert(300 <= factor <= 1000);
            }
            let base: i64 = 86400 * (1000 + s);
            proof {
                assert(0 <= base * factor <= 171_936_000_000) by (nonlinear_arith)
                    requires
                        0 <= base <= 171_936_000,
                        0 <= factor <= 1000,
                ;
            }
            let scaled: i64 = base * factor;
            (s, scaled / 1_000_000)
        },
        WorkoutResultKind::Fail => {
            let s: i64 = if previous_stability / 2 < 50 {
                50
            } else {
                previous_stability / 2
            };
            let half: i64 = relevance / 2;
            let factor: i64 = if 1000 - half < 250 {
                250
            } else {
                1000 - half
            };
            proof {
                assert(0 <= s <= 1000);
                assert(250 <= factor <= 1000);
            }
            (s, 21600 * factor / 1000)
        },
    };
    let next_due = now + interval;
    let priority = calculate_priority(stability, card.relevance, card.novelty);
    proof {
        assert(spec_priority(stability as int, card.relevance as int, card.novelty as int)
            == spec_priority(
            if result is Pass {
                spec_pass_stability(card.stability as int)
            } else {
                spec_fail_stability(card.stability as int)
            },
            card.relevance as int,
            card.novelty as int,
        ));
    }

    card.stability = stability;
    card.priority = priority;
    card.next_due = Some(next_due);
    card.updated_at = now;

    CardUpdateOutcome {
        progress: WorkoutCardProgress {
            card_id: card.id,
            result,
            stability,
            priority,
            next_due: Some(next_due),
        },
        next_due,
        novelty,
        previous_stability,
        stability_delta: stability - previous_stability,
    }
}

/// A ratio in thousandths, zero when the denominator is empty.
pub open spec fn spec_rate_milli(part: int, whole: int) -> int {
    if whole > 0 {
        part * 1000 / whole
    } else {
        0
    }
}

/// A ratio in thousandths, zero when the denominator is empty.
pub fn rate_milli(part: usize, whole: usize) -> (r: i64)
    requires
        part <= whole,
        whole <= 1_000_000,
    ensures
        r == spec_rate_milli(part as int, whole as int),
        0 <= r <= 1000,
{
    if whole > 0 {
        proof {
            assert(part * 1000 / (whole as int) <= 1000) by (nonlinear_arith)
                requires
                    0 < whole,
                    0 <= part <= whole,
            ;
        }
        ((part as i64) * 1000) / (whole as i64)
    } else {
        0
    }
}

/// One outcome's knowledge-velocity contribution, in millionths: a pass
/// earns in proportion to the card's new priority, a fail loses in
/// proportion to how settled the card seemed.
pub open spec fn spec_kv_contribution(result: WorkoutResultKind, new_priority: int) -> int {
    if result is Pass {
        80 * new_priority
    } else {
        -60 * (1000 - new_priority)
    }
}

/// The uncertainty-drop rate, in millionths: how much stability was
/// gained relative to the uncertainty that existed before the session
/// (or, when there was none, per item), clamped to `[-1, 1]`.
pub open spec fn spec_udr(uncertainty_before: int, uncertainty_delta: int, total: int) -> int {
    if uncertainty_before >= 1 {
        spec_clamp(
            spec_div_toward_zero(uncertainty_delta * 1_000_000, uncertainty_before),
            -1_000_000,
            1_000_000,
        )
    } else if total > 0 {
        spec_clamp(
            spec_div_toward_zero(uncertainty_delta * 1000, total),
            -1_000_000,
            1_000_000,
        )
    } else {
        0
    }
}

/// Compute the uncertainty-drop rate, in millionths.
pub fn udr_micro(uncertainty_before: i64, uncertainty_delta: i64, total: usize) -> (r: i64)
    requires
        0 <= uncertainty_before <= 1_000_000_000,
        -1_000_000_000 <= uncertainty_delta <= 1_000_000_000,
        total <= 1_000_000,
    ensures
        r == spec_udr(uncertainty_before as int, uncertainty_delta as int, total as int),
        -1_000_000 <= r <= 1_000_000,
{
    if uncertainty_before >= 1 {
        clamp_range(
            div_toward_zero(uncertainty_delta * 1_000_000, uncertainty_before),
            -1_000_000,
            1_000_000,
        )
    } else if total > 0 {
        clamp_range(div_toward_zero(uncertainty_delta * 1000, total as i64), -1_000_000, 1_000_000)
    } else {
        0
    }
}

/// The insight list a session's metrics trigger: failures to rework, a
/// notably high or low pass rate (at least 85%, at most 60%, by the exact
/// ratio), a clear velocity move, a notable uncertainty move, and a
/// fallback note when nothing stands out. Order is fixed.
pub open spec fn spec_insights(
    pass_count: int,
    fail_count: int,
    total: int,
    kv_delta: int,
    udr: int,
) -> Seq<Insight> {
    let l1: Seq<Insight> = if fail_count > 0 {
        seq![Insight::FailedCards { count: fail_count as usize }]
    } else {
        Seq::empty()
    };
    let l2: Seq<Insight> = if total > 0 && 20 * pass_count >= 17 * total {
        l1 + seq![Insight::PassRateHigh]
    } else if 5 * pass_count <= 3 * total {
        l1 + seq![Insight::PassRateLow]
    } else {
        l1
    };
    let l3: Seq<Insight> = if kv_delta > 200_000 {
        l2 + seq![Insight::VelocityGain { kv_delta: kv_delta as i64 }]
    } else if kv_delta < -200_000 {
        l2 + seq![Insight::VelocityLoss { kv_delta: kv_delta as i64 }]
    } else {
        l2
    };
    let l4: Seq<Insight> = if udr > 250_000 {
        l3 + seq![Insight::UncertaintyDrop { udr: udr as i64 }]
    } else if udr < -100_000 {
        l3 + seq![Insight::UncertaintyRise { udr: udr as i64 }]
    } else {
        l3
    };
    if l4.len() == 0 {
        seq![Insight::SteadyPace]
    } else {
        l4
    }
}

/// Derive the session's insight list from its metrics.
pub fn build_insights(
    pass_count: usize,
    fail_count: usize,
    total: usize,
    kv_delta: i64,
    udr: i64,
) -> (r: Vec<Insight>)
    requires
        pass_count + fail_count == total,
        total <= 1_000_000,
        -1_500_000 <= kv_delta <= 1_500_000,
        -1_000_000 <= udr <= 1_000_000,
    ensures
        r@ == spec_insights(
            pass_count as int,
            fail_count as int,
            total as int,
            kv_delta as int,
            udr as int,
        ),
{
    let mut r: Vec<Insight> = Vec::new();
    if fail_count > 0 {
        r.push(Insight::FailedCards { count: fail_count });
    }
    if total > 0 && 20 * (pass_count as i64) >= 17 * (total as i64) {
        r.push(Insight::PassRateHigh);
    } else if 5 * (pass_count as i64) <= 3 * (total as i64) {
        r.push(Insight::PassRateLow);
    }
    if kv_delta > 200_000 {
        r.push(Insight::VelocityGain { kv_delta });
    } else if kv_delta < -200_000 {
        r.push(Insight::VelocityLoss { kv_delta });
    }
    if udr > 250_000 {
        r.push(Insight::UncertaintyDrop { udr });
    } else if udr < -100_000 {
        r.push(Insight::UncertaintyRise { udr });
    }
    if r.len() == 0 {
        r.push(Insight::SteadyPace);
    }
    proof {
        assert(r@ =~= spec_insights(
            pass_count as int,
            fail_count as int,
            total as int,
            kv_delta as int,
            udr as int,
        ));
    }
    r
}

/// Everything the session aggregation needs about one applied outcome.
#[derive(Debug)]
pub struct ItemOutcome {
    pub card_id: u128,
    pub direction_id: u128,
    pub skill_point_id: Option<u128>,
    pub title: String,
    pub result: WorkoutResultKind,
    /// The card's priority after the update, thousandths.
    pub new_priority: i64,
    /// The card's (clamped) novelty, thousandths.
    pub novelty: i64,
    /// The card's (clamped) stability before the update, thousandths.
    pub previous_stability: i64,
    /// New minus previous stability, thousandths.
    pub stability_delta: i64,
}

/// Outcome scalars small enough for the aggregation arithmetic.
pub open spec fn outcomes_ok(items: Seq<ItemOutcome>) -> bool {
    forall|j: int|
        0 <= j < items.len() ==> {
            let it = #[trigger] items[j];
            &&& 0 <= it.new_priority <= 1000
            &&& 0 <= it.previous_stability <= 1000
            &&& -1000 <= it.stability_delta <= 1000
        }
}

/// A slice of the session an aggregation runs over: the whole session,
/// one direction's outcomes, or one skill's outcomes.
#[derive(Debug, Clone, Copy, PartialEq, Eq, Structural)]
pub enum OutcomeGroup {
    All,
    Direction { id: u128 },
    Skill { id: u128 },
}

/// Whether one outcome belongs to the group.
pub open spec fn group_matches(g: OutcomeGroup, it: ItemOutcome) -> bool {
    match g {
        OutcomeGroup::All => true,
        OutcomeGroup::Direction { id } => it.direction_id == id,
        OutcomeGroup::Skill { id } => it.skill_point_id == Some(id),
    }
}

/// Running sums over a group of outcomes; `kv` is in millionths, the
/// uncertainty sums in thousandths.
#[verifier::ext_equal]
pub ghost struct SummaryAcc {
    pub total: int,
    pub pass: int,
    pub fail: int,
    pub kv: int,
    pub uncertainty_before: int,
    pub uncertainty_delta: int,
    pub priority_sum: int,
}

/// The empty aggregation.
pub open spec fn empty_summary_acc() -> SummaryAcc {
    SummaryAcc {
        total: 0,
        pass: 0,
        fail: 0,
        kv: 0,
        uncertainty_before: 0,
        uncertainty_delta: 0,
        priority_sum: 0,
    }
}

/// The sums over the group's outcomes among the first `n` items.
pub open spec fn outcomes_acc(items: Seq<ItemOutcome>, g: OutcomeGroup, n: int) -> SummaryAcc
    decreases n,
{
    if n <= 0 {
        empty_summary_acc()
    } else {
        let prev = outcomes_acc(items, g, n - 1);
        let it = items[n - 1];
        if group_matches(g, it) {
            SummaryAcc {
                total: prev.total + 1,
                pass: prev.pass + if it.result is Pass {
                    1int
                } else {
                    0int
                },
                fail: prev.fail + if it.result is Fail {
                    1int
                } else {
                    0int
                },
                kv: prev.kv + spec_kv_contribution(it.result, it.new_priority as int),
                uncertainty_before: prev.uncertainty_before + (1000 - it.previous_stability),
                uncertainty_delta: prev.uncertainty_delta + it.stability_delta,
                priority_sum: prev.priority_sum + it.new_priority,
            }
        } else {
            prev
        }
    }
}

/// Exec-side running sums mirroring [`SummaryAcc`].
pub struct SummaryAccExec {
    pub total: usize,
    pub pass: usize,
    pub fail: usize,
    pub kv: i64,
    pub uncertainty_before: i64,
    pub uncertainty_delta: i64,
    pub priority_sum: i64,
}

impl SummaryAccExec {
    /// The aggregation this exec value stands for.
    pub open spec fn as_ghost(&self) -> SummaryAcc {
        SummaryAcc {
            total: self.total as int,
            pass: self.pass as int,
            fail: self.fail as int,
            kv: self.kv as int,
            uncertainty_before: self.uncertainty_before as int,
            uncertainty_delta: self.uncertainty_delta as int,
            priority_sum: self.priority_sum as int,
        }
    }

    /// All sums are bounded by `n` items' worth.
    pub open spec fn bounded(&self, n: int) -> bool {
        &&& 0 <= self.total <= n
        &&& 0 <= self.pass <= n
        &&& 0 <= self.fail <= n
        &&& self.pass + self.fail == self.total
        &&& -80_000 * n <= self.kv <= 80_000 * n
        &&& 0 <= self.uncertainty_before <= 1000 * n
        &&& -1000 * n <= self.uncertainty_delta <= 1000 * n
        &&& 0 <= self.priority_sum <= 1000 * n
    }
}

/// Sum a group's outcomes over the whole session.
pub fn accumulate_outcomes(items: &Vec<ItemOutcome>, g: OutcomeGroup) -> (a: SummaryAccExec)
    requires
        outcomes_ok(items@),
        items@.len() <= 1_000_000,
    ensures
        a.as_ghost() == outcomes_acc(items@, g, items@.len() as int),
        a.bounded(items@.len() as int),
{
    let mut a = SummaryAccExec {
        total: 0,
        pass: 0,
        fail: 0,
        kv: 0,
        uncertainty_before: 0,
        uncertainty_delta: 0,
        priority_sum: 0,
    };
    let mut i: usize = 0;
    while i < items.len()
        invariant
            i <= items.len(),
            outcomes_ok(items@),
            items@.len() <= 1_000_000,
            a.as_ghost() == outcomes_acc(items@, g, i as int),
            a.bounded(i as int),
        decreases items.len() - i,
    {
        let it = &items[i];
        let matches_group = match g {
            OutcomeGroup::All => true,
            OutcomeGroup::Direction { id } => it.direction_id == id,
            OutcomeGroup::Skill { id } => match it.skill_point_id {
                Some(sk) => sk == id,
                None => false,
            },
        };
        if matches_group {
            let kv = match it.result {
                WorkoutResultKind::Pass => {
                    a.pass = a.pass + 1;
                    80 * it.new_priority
                },
                WorkoutResultKind::Fail => {
                    a.fail = a.fail + 1;
                    -60 * (1000 - it.new_priority)
                },
            };
            a = SummaryAccExec {
                total: a.total + 1,
                pass: a.pass,
                fail: a.fail,
                kv: a.kv + kv,
                uncertainty_before: a.uncertainty_before + (1000 - it.previous_stability),
                uncertainty_delta: a.uncertainty_delta + it.stability_delta,
                priority_sum: a.priority_sum + it.new_priority,
            };
        }
        i = i + 1;
        proof {
            assert(a.as_ghost() =~= outcomes_acc(items@, g, i as int));
        }
    }
    a
}

/// Whether some outcome of the session belongs to direction `d`.
pub open spec fn outcome_direction_present(items: Seq<ItemOutcome>, d: u128) -> bool {
    exists|j: int| 0 <= j < items.len() && items[j].direction_id == d
}

/// Whether some outcome of the session carries skill `d`.
pub open spec fn outcome_skill_present(items: Seq<ItemOutcome>, d: u128) -> bool {
    exists|j: int| 0 <= j < items.len() && items[j].skill_point_id == Some(d)
}

/// The name recorded for direction `id`, empty when unknown.
pub open spec fn spec_direction_name_for(directions: Seq<Direction>, id: u128) -> Seq<char>
    decreases directions.len(),
{
    if directions.len() == 0 {
        Seq::empty()
    } else if directions[0].id == id {
        directions[0].name@
    } else {
        spec_direction_name_for(directions.drop_first(), id)
    }
}

/// Look up the name of direction `id`, empty when unknown.
pub fn direction_name_for(directions: &Vec<Direction>, id: u128) -> (r: String)
    ensures
        r@ == spec_direction_name_for(directions@, id),
{
    proof {
        assert(directions@.skip(0) =~= directions@);
    }
    let mut i: usize = 0;
    while i < directions.len()
        invariant
            i <= directions.len(),
            spec_direction_name_for(directions@, id) == spec_direction_name_for(
                directions@.skip(i as int),
                id,
            ),
        decreases directions.len() - i,
    {
        proof {
            assert(directions@.skip(i as int)[0] == directions@[i as int]);
            assert(directions@.skip(i as int).drop_first() =~= directions@.skip(i + 1));
        }
        if directions[i].id == id {
            return directions[i].name.clone();
        }
        i = i + 1;
    }
    proof {
        assert(directions@.skip(directions@.len() as int).len() == 0);
    }
    String::new()
}

/// The name recorded for skill `id`, empty when unknown.
pub open spec fn spec_skill_name_for(skills: Seq<SkillPoint>, id: u128) -> Seq<char>
    decreases skills.len(),
{
    if skills.len() == 0 {
        Seq::empty()
    } else if skills[0].id == id {
        skills[0].name@
    } else {
        spec_skill_name_for(skills.drop_first(), id)
    }
}

/// Look up the name of skill `id`, empty when unknown.
pub fn skill_name_for(skills: &Vec<SkillPoint>, id: u128) -> (r: String)
    ensures
        r@ == spec_skill_name_for(skills@, id),
{
    proof {
        assert(skills@.skip(0) =~= skills@);
    }
    let mut i: usize = 0;
    while i < skills.len()
        invariant
            i <= skills.len(),
            spec_skill_name_for(skills@, id) == spec_skill_name_for(skills@.skip(i as int), id),
        decreases skills.len() - i,
    {
        proof {
            assert(skills@.skip(i as int)[0] == skills@[i as int]);
            assert(skills@.skip(i as int).drop_first() =~= skills@.skip(i + 1));
        }
        if skills[i].id == id {
            return skills[i].name.clone();
        }
        i = i + 1;
    }
    proof {
        assert(skills@.skip(skills@.len() as int).len() == 0);
    }
    String::new()
}

/// What one direction's summary entry must say: its aggregation's counts
/// and rates, the direction's recorded name and stage, and its share of
/// the session.
pub open spec fn direction_entry_ok(
    e: WorkoutSummaryDirectionBreakdown,
    items: Seq<ItemOutcome>,
    directions: Seq<Direction>,
    d: u128,
    session_total: int,
) -> bool {
    let acc = outcomes_acc(items, OutcomeGroup::Direction { id: d }, items.len() as int);
    &&& e.direction_id == d
    &&& e.name@ == spec_direction_name_for(directions, d)
    &&& e.stage == spec_stage_for(directions, d)
    &&& e.total == acc.total
    &&& e.pass_count == acc.pass
    &&& e.fail_count == acc.fail
    &&& e.pass_rate == spec_rate_milli(acc.pass, acc.total)
    &&& e.kv_delta == acc.kv
    &&& e.udr == spec_udr(acc.uncertainty_before, acc.uncertainty_delta, acc.total)
    &&& e.avg_priority == (if acc.total > 0 {
        acc.priority_sum / acc.total
    } else {
        0int
    })
    &&& e.share == spec_rate_milli(acc.total, session_total)
}

/// What one skill's summary entry must say.
pub open spec fn skill_entry_ok(
    e: WorkoutSummarySkillBreakdown,
    items: Seq<ItemOutcome>,
    skills: Seq<SkillPoint>,
    d: u128,
    session_total: int,
) -> bool {
    let acc = outcomes_acc(items, OutcomeGroup::Skill { id: d }, items.len() as int);
    &&& e.skill_point_id == d
    &&& e.name@ == spec_skill_name_for(skills, d)
    &&& e.level == spec_level_for(skills, d)
    &&& e.total == acc.total
    &&& e.pass_count == acc.pass
    &&& e.fail_count == acc.fail
    &&& e.pass_rate == spec_rate_milli(acc.pass, acc.total)
    &&& e.kv_delta == acc.kv
    &&& e.udr == spec_udr(acc.uncertainty_before, acc.uncertainty_delta, acc.total)
    &&& e.avg_priority == (if acc.total > 0 {
        acc.priority_sum / acc.total
    } else {
        0int
    })
    &&& e.share == spec_rate_milli(acc.total, session_total)
}

/// Whether the direction breakdown lists direction `d`.
pub open spec fn direction_entry_listed(r: Seq<WorkoutSummaryDirectionBreakdown>, d: u128) -> bool {
    exists|j: int| 0 <= j < r.len() && r[j].direction_id == d
}

/// Whether the skill breakdown lists skill `d`.
pub open spec fn skill_entry_listed(r: Seq<WorkoutSummarySkillBreakdown>, d: u128) -> bool {
    exists|j: int| 0 <= j < r.len() && r[j].skill_point_id == d
}

/// Aggregate the session per direction: one entry per direction that
/// appears among the outcomes, sorted by session share (largest first).
#[verifier::rlimit(100)]
#[verifier::spinoff_prover]
pub fn direction_summary_breakdown(items: &Vec<ItemOutcome>, directions: &Vec<Direction>) -> (r: Vec<
    WorkoutSummaryDirectionBreakdown,
>)
    requires
        outcomes_ok(items@),
        items@.len() <= 1_000_000,
    ensures
        forall|j: int, k: int| 0 <= j < k < r@.len() ==> r@[j].direction_id != r@[k].direction_id,
        forall|j: int|
            0 <= j < r@.len() ==> direction_entry_ok(
                #[trigger] r@[j],
                items@,
                directions@,
                r@[j].direction_id,
                items@.len() as int,
            ),
        forall|j: int|
            0 <= j < r@.len() ==> outcome_direction_present(items@, #[trigger] r@[j].direction_id),
        forall|e: int|
            0 <= e < items@.len() ==> direction_entry_listed(
                r@,
                (#[trigger] items@[e]).direction_id,
            ),
        forall|j: int, k: int| 0 <= j < k < r@.len() ==> r@[j].total >= r@[k].total,
{
    let mut ids: Vec<u128> = Vec::new();
    let mut i: usize = 0;
    while i < items.len()
        invariant
            i <= items.len(),
            forall|j: int, k: int| 0 <= j < k < ids@.len() ==> ids@[j] != ids@[k],
            forall|j: int|
                0 <= j < ids@.len() ==> outcome_direction_present(items@, #[trigger] ids@[j]),
            forall|e: int| 0 <= e < i ==> ids@.contains((#[trigger] items@[e]).direction_id),
        decreases items.len() - i,
    {
        let id = items[i].direction_id;
        if !contains_id(&ids, id) {
            let ghost old_ids = ids@;
            ids.push(id);
            proof {
                assert(outcome_direction_present(items@, id)) by {
                    assert(items@[i as int].direction_id == id);
                }
                assert forall|e: int| 0 <= e < i + 1 implies ids@.contains(
                    (#[trigger] items@[e]).direction_id,
                ) by {
                    if e < i {
                        let j = choose|j: int|
                            0 <= j < old_ids.len() && old_ids[j] == items@[e].direction_id;
                        assert(ids@[j] == items@[e].direction_id);
                    } else {
                        assert(ids@[old_ids.len() as int] == id);
                    }
                }
                assert forall|j: int, k: int| 0 <= j < k < ids@.len() implies ids@[j] != ids@[k] by {
                    if k == ids@.len() - 1 {
                        if ids@[j] == id {
                            assert(old_ids.contains(id));
                        }
                    }
                }
            }
        } else {
            proof {
                assert(ids@.contains(items@[i as int].direction_id));
            }
        }
        i = i + 1;
    }

    let mut entries: Vec<WorkoutSummaryDirectionBreakdown> = Vec::new();
    let mut totals: Vec<i64> = Vec::new();
    let mut k: usize = 0;
    while k < ids.len()
        invariant
            k <= ids.len(),
            outcomes_ok(items@),
            items@.len() <= 1_000_000,
            entries@.len() == k,
            totals@.len() == k,
            forall|j: int, m: int| 0 <= j < m < ids@.len() ==> ids@[j] != ids@[m],
            forall|j: int|
                0 <= j < ids@.len() ==> outcome_direction_present(items@, #[trigger] ids@[j]),
            forall|j: int| 0 <= j < k ==> (#[trigger] entries@[j]).direction_id == ids@[j],
            forall|j: int|
                0 <= j < k ==> direction_entry_ok(
                    #[trigger] entries@[j],
                    items@,
                    directions@,
                    ids@[j],
                    items@.len() as int,
                ),
            forall|j: int| 0 <= j < k ==> #[trigger] totals@[j] == entries@[j].total,
        decreases ids.len() - k,
    {
        let id = ids[k];
        let acc = accumulate_outcomes(items, OutcomeGroup::Direction { id });
        let avg_priority: i64 = if acc.total > 0 {
            acc.priority_sum / (acc.total as i64)
        } else {
            0
        };
        let entry = WorkoutSummaryDirectionBreakdown {
            direction_id: id,
            name: direction_name_for(directions, id),
            stage: crate::direction::stage_for(directions, id),
            total: acc.total,
            pass_count: acc.pass,
            fail_count: acc.fail,
            pass_rate: rate_milli(acc.pass, acc.total),
            kv_delta: acc.kv,
            udr: udr_micro(acc.uncertainty_before, acc.uncertainty_delta, acc.total),
            avg_priority,
            share: rate_milli(acc.total, items.len()),
        };
        totals.push(acc.total as i64);
        entries.push(entry);
        k = k + 1;
    }

    let sorted = sort_direction_entries(entries, totals);
    proof {
        assert forall|j: int|
            0 <= j < sorted@.len() implies direction_entry_ok(
            #[trigger] sorted@[j],
            items@,
            directions@,
            sorted@[j].direction_id,
            items@.len() as int,
        ) && outcome_direction_present(items@, sorted@[j].direction_id) by {
            assert(is_direction_entry_of(entries@, sorted@[j]));
            let m = choose|m: int| 0 <= m < entries@.len() && entries@[m] == sorted@[j];
            assert(entries@[m].direction_id == ids@[m]);
            assert(direction_entry_ok(
                entries@[m],
                items@,
                directions@,
                ids@[m],
                items@.len() as int,
            ));
        }
        assert forall|e: int| 0 <= e < items@.len() implies direction_entry_listed(
            sorted@,
            (#[trigger] items@[e]).direction_id,
        ) by {
            assert(ids@.contains(items@[e].direction_id));
            let m = choose|m: int| 0 <= m < ids@.len() && ids@[m] == items@[e].direction_id;
            assert(entries@[m].direction_id == ids@[m]);
            assert(is_direction_entry_of(sorted@, entries@[m]));
            let jj = choose|jj: int| 0 <= jj < sorted@.len() && sorted@[jj] == entries@[m];
            assert(sorted@[jj].direction_id == items@[e].direction_id);
        }
    }
    sorted
}

/// Whether `e` is one of the listing's entries.
pub open spec fn is_direction_entry_of(
    entries: Seq<WorkoutSummaryDirectionBreakdown>,
    e: WorkoutSummaryDirectionBreakdown,
) -> bool {
    exists|m: int| 0 <= m < entries.len() && entries[m] == e
}

/// Order breakdown entries by their card count, largest first.
#[verifier::rlimit(100)]
#[verifier::spinoff_prover]
fn sort_direction_entries(
    entries: Vec<WorkoutSummaryDirectionBreakdown>,
    totals: Vec<i64>,
) -> (r: Vec<WorkoutSummaryDirectionBreakdown>)
    requires
        totals@.len() == entries@.len(),
        forall|j: int| 0 <= j < entries@.len() ==> #[trigger] totals@[j] == entries@[j].total,
    ensures
        r@.len() == entries@.len(),
        forall|j: int| 0 <= j < r@.len() ==> is_direction_entry_of(entries@, #[trigger] r@[j]),
        forall|m: int| 0 <= m < entries@.len() ==> is_direction_entry_of(r@, #[trigger] entries@[m]),
        (forall|j: int, k: int|
            0 <= j < k < entries@.len() ==> entries@[j].direction_id != entries@[k].direction_id)
            ==> (forall|j: int, k: int|
            0 <= j < k < r@.len() ==> r@[j].direction_id != r@[k].direction_id),
        forall|j: int, k: int| 0 <= j < k < r@.len() ==> r@[j].total >= r@[k].total,
{
    let n = entries.len();
    let all_true = repeat_bool(n, true);
    let mut flags = repeat_bool(n, false);
    proof {
        assert(sel_inv(n as int, flags@, Seq::<int>::empty()));
    }
    let ghost sel0 = flags@;
    let picks = select_top(&totals, &all_true, &mut flags, n);
    let ghost picks_int = picks@.map_values(|u: usize| u as int);
    proof {
        assert(flags@.len() == flags.len());
        lemma_extend_inv(n as int, sel0, flags@, picks@, Seq::<int>::empty());
        if picks@.len() < n {
            assert forall|j: int| 0 <= j < n implies flags@[j] by {
                assert(all_true@[j]);
            }
            lemma_full_selection(n as int, flags@, Seq::<int>::empty() + picks_int);
            assert(false);
        }
        assert(picks_int =~= Seq::<int>::empty() + picks_int);
        lemma_perm_complete(n as int, picks_int);
    }
    let mut r: Vec<WorkoutSummaryDirectionBreakdown> = Vec::new();
    let mut j: usize = 0;
    while j < picks.len()
        invariant
            j <= picks.len(),
            picks@.len() == n,
            n == entries@.len(),
            totals@.len() == n,
            forall|m: int| 0 <= m < n ==> #[trigger] totals@[m] == entries@[m].total,
            forall|m: int| 0 <= m < picks@.len() ==> (#[trigger] picks@[m] as int) < n,
            forall|m1: int, m2: int|
                0 <= m1 < m2 < picks@.len() ==> totals@[picks@[m1] as int] >= totals@[picks@[m2] as int],
            forall|m1: int, m2: int| 0 <= m1 < m2 < picks@.len() ==> picks@[m1] != picks@[m2],
            r@.len() == j,
            forall|m: int| 0 <= m < j ==> #[trigger] r@[m] == entries@[picks@[m] as int],
        decreases picks.len() - j,
    {
        r.push(entries[picks[j]].clone());
        j = j + 1;
    }
    proof {
        assert forall|jj: int| 0 <= jj < r@.len() implies is_direction_entry_of(
            entries@,
            #[trigger] r@[jj],
        ) by {
            assert(entries@[picks@[jj] as int] == r@[jj]);
        }
        assert forall|m: int| 0 <= m < entries@.len() implies is_direction_entry_of(
            r@,
            #[trigger] entries@[m],
        ) by {
            assert(picks_int.contains(m));
            let kk = choose|kk: int| 0 <= kk < picks_int.len() && picks_int[kk] == m;
            assert(picks_int[kk] == picks@[kk] as int);
            assert(r@[kk] == entries@[m]);
        }
        assert forall|jj: int, kk: int| 0 <= jj < kk < r@.len() implies r@[jj].total
            >= r@[kk].total by {
            assert(totals@[picks@[jj] as int] >= totals@[picks@[kk] as int]);
        }
        if forall|jj: int, kk: int|
            0 <= jj < kk < entries@.len() ==> entries@[jj].direction_id != entries@[kk].direction_id {
            assert forall|jj: int, kk: int| 0 <= jj < kk < r@.len() implies r@[jj].direction_id
                != r@[kk].direction_id by {
                assert(r@[jj] == entries@[picks@[jj] as int]);
                assert(r@[kk] == entries@[picks@[kk] as int]);
                assert(picks@[jj] != picks@[kk]);
            }
        }
    }
    r
}

/// Whether `e` is one of the skill listing's entries.
pub open spec fn is_skill_entry_of(
    entries: Seq<WorkoutSummarySkillBreakdown>,
    e: WorkoutSummarySkillBreakdown,
) -> bool {
    exists|m: int| 0 <= m < entries.len() && entries[m] == e
}

/// Aggregate the session per skill point: one entry per skill carried by
/// an outcome, sorted by session share (largest first).
#[verifier::rlimit(100)]
#[verifier::spinoff_prover]
pub fn skill_summary_breakdown(items: &Vec<ItemOutcome>, skills: &Vec<SkillPoint>) -> (r: Vec<
    WorkoutSummarySkillBreakdown,
>)
    requires
        outcomes_ok(items@),
        items@.len() <= 1_000_000,
    ensures
        forall|j: int, k: int|
            0 <= j < k < r@.len() ==> r@[j].skill_point_id != r@[k].skill_point_id,
        forall|j: int|
            0 <= j < r@.len() ==> skill_entry_ok(
                #[trigger] r@[j],
                items@,
                skills@,
                r@[j].skill_point_id,
                items@.len() as int,
            ),
        forall|j: int|
            0 <= j < r@.len() ==> outcome_skill_present(items@, #[trigger] r@[j].skill_point_id),
        forall|e: int|
            0 <= e < items@.len() ==> ((#[trigger] items@[e]).skill_point_id matches Some(d)
                ==> skill_entry_listed(r@, d)),
        forall|j: int, k: int| 0 <= j < k < r@.len() ==> r@[j].total >= r@[k].total,
{
    let mut ids: Vec<u128> = Vec::new();
    let mut i: usize = 0;
    while i < items.len()
        invariant
            i <= items.len(),
            forall|j: int, k: int| 0 <= j < k < ids@.len() ==> ids@[j] != ids@[k],
            forall|j: int|
                0 <= j < ids@.len() ==> outcome_skill_present(items@, #[trigger] ids@[j]),
            forall|e: int|
                0 <= e < i ==> ((#[trigger] items@[e]).skill_point_id matches Some(d)
                    ==> ids@.contains(d)),
        decreases items.len() - i,
    {
        if let Some(id) = items[i].skill_point_id {
            if !contains_id(&ids, id) {
                let ghost old_ids = ids@;
                ids.push(id);
                proof {
                    assert(outcome_skill_present(items@, id)) by {
                        assert(items@[i as int].skill_point_id == Some(id));
                    }
                    assert forall|e: int|
                        0 <= e < i + 1 implies ((#[trigger] items@[e]).skill_point_id matches Some(
                        d,
                    ) ==> ids@.contains(d)) by {
                        if e < i {
                            match items@[e].skill_point_id {
                                Some(sk) => {
                                    let j = choose|j: int|
                                        0 <= j < old_ids.len() && old_ids[j] == sk;
                                    assert(ids@[j] == sk);
                                },
                                None => {},
                            }
                        } else {
                            assert(ids@[old_ids.len() as int] == id);
                        }
                    }
                    assert forall|j: int, k: int|
                        0 <= j < k < ids@.len() implies ids@[j] != ids@[k] by {
                        if k == ids@.len() - 1 {
                            if ids@[j] == id {
                                assert(old_ids.contains(id));
                            }
                        }
                    }
                }
            } else {
                proof {
                    assert(ids@.contains(id));
                }
            }
        }
        i = i + 1;
    }

    let mut entries: Vec<WorkoutSummarySkillBreakdown> = Vec::new();
    let mut totals: Vec<i64> = Vec::new();
    let mut k: usize = 0;
    while k < ids.len()
        invariant
            k <= ids.len(),
            outcomes_ok(items@),
            items@.len() <= 1_000_000,
            entries@.len() == k,
            totals@.len() == k,
            forall|j: int, m: int| 0 <= j < m < ids@.len() ==> ids@[j] != ids@[m],
            forall|j: int|
                0 <= j < ids@.len() ==> outcome_skill_present(items@, #[trigger] ids@[j]),
            forall|j: int| 0 <= j < k ==> (#[trigger] entries@[j]).skill_point_id == ids@[j],
            forall|j: int|
                0 <= j < k ==> skill_entry_ok(
                    #[trigger] entries@[j],
                    items@,
                    skills@,
                    ids@[j],
                    items@.len() as int,
                ),
            forall|j: int| 0 <= j < k ==> #[trigger] totals@[j] == entries@[j].total,
        decreases ids.len() - k,
    {
        let id = ids[k];
        let acc = accumulate_outcomes(items, OutcomeGroup::Skill { id });
        let avg_priority: i64 = if acc.total > 0 {
            acc.priority_sum / (acc.total as i64)
        } else {
            0
        };
        let entry = WorkoutSummarySkillBreakdown {
            skill_point_id: id,
            name: skill_name_for(skills, id),
            level: crate::signals::level_for(skills, id),
            total: acc.total,
            pass_count: acc.pass,
            fail_count: acc.fail,
            pass_rate: rate_milli(acc.pass, acc.total),
            kv_delta: acc.kv,
            udr: udr_micro(acc.uncertainty_before, acc.uncertainty_delta, acc.total),
            avg_priority,
            share: rate_milli(acc.total, items.len()),
        };
        totals.push(acc.total as i64);
        entries.push(entry);
        k = k + 1;
    }

    let sorted = sort_skill_entries(entries, totals);
    proof {
        assert forall|j: int|
            0 <= j < sorted@.len() implies skill_entry_ok(
            #[trigger] sorted@[j],
            items@,
            skills@,
            sorted@[j].skill_point_id,
            items@.len() as int,
        ) && outcome_skill_present(items@, sorted@[j].skill_point_id) by {
            assert(is_skill_entry_of(entries@, sorted@[j]));
            let m = choose|m: int| 0 <= m < entries@.len() && entries@[m] == sorted@[j];
            assert(entries@[m].skill_point_id == ids@[m]);
            assert(skill_entry_ok(entries@[m], items@, skills@, ids@[m], items@.len() as int));
        }
        assert forall|e: int|
            0 <= e < items@.len() implies ((#[trigger] items@[e]).skill_point_id matches Some(d)
            ==> skill_entry_listed(sorted@, d)) by {
            match items@[e].skill_point_id {
                Some(d) => {
                    assert(ids@.contains(d));
                    let m = choose|m: int| 0 <= m < ids@.len() && ids@[m] == d;
                    assert(entries@[m].skill_point_id == ids@[m]);
                    assert(is_skill_entry_of(sorted@, entries@[m]));
                    let jj = choose|jj: int| 0 <= jj < sorted@.len() && sorted@[jj] == entries@[m];
                    assert(sorted@[jj].skill_point_id == d);
                },
                None => {},
            }
        }
    }
    sorted
}

/// Order skill breakdown entries by their card count, largest first.
#[verifier::rlimit(100)]
#[verifier::spinoff_prover]
fn sort_skill_entries(entries: Vec<WorkoutSummarySkillBreakdown>, totals: Vec<i64>) -> (r: Vec<
    WorkoutSummarySkillBreakdown,
>)
    requires
        totals@.len() == entries@.len(),
        forall|j: int| 0 <= j < entries@.len() ==> #[trigger] totals@[j] == entries@[j].total,
    ensures
        r@.len() == entries@.len(),
        forall|j: int| 0 <= j < r@.len() ==> is_skill_entry_of(entries@, #[trigger] r@[j]),
        forall|m: int| 0 <= m < entries@.len() ==> is_skill_entry_of(r@, #[trigger] entries@[m]),
        (forall|j: int, k: int|
            0 <= j < k < entries@.len() ==> entries@[j].skill_point_id
                != entries@[k].skill_point_id) ==> (forall|j: int, k: int|
            0 <= j < k < r@.len() ==> r@[j].skill_point_id != r@[k].skill_point_id),
        forall|j: int, k: int| 0 <= j < k < r@.len() ==> r@[j].total >= r@[k].total,
{
    let n = entries.len();
    let all_true = repeat_bool(n, true);
    let mut flags = repeat_bool(n, false);
    proof {
        assert(sel_inv(n as int, flags@, Seq::<int>::empty()));
    }
    let ghost sel0 = flags@;
    let picks = select_top(&totals, &all_true, &mut flags, n);
    let ghost picks_int = picks@.map_values(|u: usize| u as int);
    proof {
        assert(flags@.len() == flags.len());
        lemma_extend_inv(n as int, sel0, flags@, picks@, Seq::<int>::empty());
        if picks@.len() < n {
            assert forall|j: int| 0 <= j < n implies flags@[j] by {
                assert(all_true@[j]);
            }
            lemma_full_selection(n as int, flags@, Seq::<int>::empty() + picks_int);
            assert(false);
        }
        assert(picks_int =~= Seq::<int>::empty() + picks_int);
        lemma_perm_complete(n as int, picks_int);
    }
    let mut r: Vec<WorkoutSummarySkillBreakdown> = Vec::new();
    let mut j: usize = 0;
    while j < picks.len()
        invariant
            j <= picks.len(),
            picks@.len() == n,
            n == entries@.len(),
            totals@.len() == n,
            forall|m: int| 0 <= m < n ==> #[trigger] totals@[m] == entries@[m].total,
            forall|m: int| 0 <= m < picks@.len() ==> (#[trigger] picks@[m] as int) < n,
            forall|m1: int, m2: int|
                0 <= m1 < m2 < picks@.len() ==> totals@[picks@[m1] as int] >= totals@[picks@[m2] as int],
            forall|m1: int, m2: int| 0 <= m1 < m2 < picks@.len() ==> picks@[m1] != picks@[m2],
            r@.len() == j,
            forall|m: int| 0 <= m < j ==> #[trigger] r@[m] == entries@[picks@[m] as int],
        decreases picks.len() - j,
    {
        r.push(entries[picks[j]].clone());
        j = j + 1;
    }
    proof {
        assert forall|jj: int| 0 <= jj < r@.len() implies is_skill_entry_of(
            entries@,
            #[trigger] r@[jj],
        ) by {
            assert(entries@[picks@[jj] as int] == r@[jj]);
        }
        assert forall|m: int| 0 <= m < entries@.len() implies is_skill_entry_of(
            r@,
            #[trigger] entries@[m],
        ) by {
            assert(picks_int.contains(m));
            let kk = choose|kk: int| 0 <= kk < picks_int.len() && picks_int[kk] == m;
            assert(picks_int[kk] == picks@[kk] as int);
            assert(r@[kk] == entries@[m]);
        }
        assert forall|jj: int, kk: int| 0 <= jj < kk < r@.len() implies r@[jj].total
            >= r@[kk].total by {
            assert(totals@[picks@[jj] as int] >= totals@[picks@[kk] as int]);
        }
        if forall|jj: int, kk: int|
            0 <= jj < kk < entries@.len() ==> entries@[jj].skill_point_id
                != entries@[kk].skill_point_id {
            assert forall|jj: int, kk: int| 0 <= jj < kk < r@.len() implies r@[jj].skill_point_id
                != r@[kk].skill_point_id by {
                assert(r@[jj] == entries@[picks@[jj] as int]);
                assert(r@[kk] == entries@[picks@[kk] as int]);
                assert(picks@[jj] != picks@[kk]);
            }
        }
    }
    r
}

/// The failed outcome with the highest new priority, if any failed;
/// the later of equals wins.
pub fn best_failed_card(items: &Vec<ItemOutcome>) -> (r: Option<usize>)
    ensures
        r matches Some(i) ==> (i as int) < items@.len() && items@[i as int].result is Fail && (
        forall|j: int|
            0 <= j < items@.len() && (#[trigger] items@[j]).result is Fail
                ==> items@[j].new_priority <= items@[i as int].new_priority),
        r is None ==> forall|j: int|
            0 <= j < items@.len() ==> !((#[trigger] items@[j]).result is Fail),
{
    let mut best: Option<usize> = None;
    let mut i: usize = 0;
    while i < items.len()
        invariant
            i <= items.len(),
            best matches Some(b) ==> (b as int) < i && items@[b as int].result is Fail && (
            forall|j: int|
                0 <= j < i && (#[trigger] items@[j]).result is Fail ==> items@[j].new_priority
                    <= items@[b as int].new_priority),
            best is None ==> forall|j: int| 0 <= j < i ==> !((#[trigger] items@[j]).result is Fail),
        decreases items.len() - i,
    {
        if matches!(items[i].result, WorkoutResultKind::Fail) {
            best = match best {
                Some(b) => if items[i].new_priority >= items[b].new_priority {
                    Some(i)
                } else {
                    Some(b)
                },
                None => Some(i),
            };
        }
        i = i + 1;
    }
    best
}

/// The passed outcome with the highest novelty, if any passed; the later
/// of equals wins.
pub fn best_passed_card(items: &Vec<ItemOutcome>) -> (r: Option<usize>)
    ensures
        r matches Some(i) ==> (i as int) < items@.len() && items@[i as int].result is Pass && (
        forall|j: int|
            0 <= j < items@.len() && (#[trigger] items@[j]).result is Pass ==> items@[j].novelty
                <= items@[i as int].novelty),
        r is None ==> forall|j: int|
            0 <= j < items@.len() ==> !((#[trigger] items@[j]).result is Pass),
{
    let mut best: Option<usize> = None;
    let mut i: usize = 0;
    while i < items.len()
        invariant
            i <= items.len(),
            best matches Some(b) ==> (b as int) < i && items@[b as int].result is Pass && (
            forall|j: int|
                0 <= j < i && (#[trigger] items@[j]).result is Pass ==> items@[j].novelty
                    <= items@[b as int].novelty),
            best is None ==> forall|j: int| 0 <= j < i ==> !((#[trigger] items@[j]).result is Pass),
        decreases items.len() - i,
    {
        if matches!(items[i].result, WorkoutResultKind::Pass) {
            best = match best {
                Some(b) => if items[i].novelty >= items[b].novelty {
                    Some(i)
                } else {
                    Some(b)
                },
                None => Some(i),
            };
        }
        i = i + 1;
    }
    best
}

/// How many pool cards carry any skill point.
pub open spec fn count_with_skill(cards: Seq<MemoryCard>, n: int) -> int
    decreases n,
{
    if n <= 0 {
        0
    } else {
        count_with_skill(cards, n - 1) + if cards[n - 1].skill_point_id is Some {
            1int
        } else {
            0int
        }
    }
}

/// Recommend closing the skill gap under the most growth pressure, if
/// any analysed skill's pressure reaches the threshold (`0.45`).
#[verifier::rlimit(100)]
#[verifier::spinoff_prover]
pub fn recommend_skill_gap(
    cards: &Vec<MemoryCard>,
    stats: &Vec<(u128, CardReviewStats)>,
    now: i64,
    skills: &Vec<SkillPoint>,
) -> (r: Option<RecommendedFocus>)
    requires
        time_ok(now as int),
        cards_times_ok(cards@),
        stats_list_ok(stats@),
        cards@.len() <= MAX_POOL,
    ensures
        r is None <==> (forall|d: u128|
            skill_present(cards@, d) ==> spec_skill_signal(
                cards@,
                stats@,
                now as int,
                skills@,
                d,
            ).spec_growth_pressure() < 450),
        r matches Some(f) ==> ({
            &&& f matches RecommendedFocus::SkillGap {
                skill_point_id,
                name,
                level,
                growth,
                count,
                share,
            }
            &&& skill_present(cards@, skill_point_id)
            &&& ({
                let sig = spec_skill_signal(cards@, stats@, now as int, skills@, skill_point_id);
                &&& growth == sig.spec_growth_pressure()
                &&& growth >= 450
                &&& (forall|d: u128|
                    skill_present(cards@, d) ==> spec_skill_signal(
                        cards@,
                        stats@,
                        now as int,
                        skills@,
                        d,
                    ).spec_growth_pressure() <= growth)
                &&& name@ == spec_skill_name_for(skills@, skill_point_id)
                &&& level == spec_level_for(skills@, skill_point_id)
                &&& count == sig.count
                &&& share == sig.spec_share(count_with_skill(cards@, cards@.len() as int))
            })
        }),
{
    let ssigs = analyze_skill_signals(cards, stats, now, skills);
    let mut best: Option<usize> = None;
    let mut i: usize = 0;
    while i < ssigs.len()
        invariant
            i <= ssigs.len(),
            forall|j: int|
                0 <= j < ssigs@.len() ==> #[trigger] ssigs@[j].1 == spec_skill_signal(
                    cards@,
                    stats@,
                    now as int,
                    skills@,
                    ssigs@[j].0,
                ),
            crate::signals::skill_signals_wf(ssigs@),
            forall|j: int| 0 <= j < ssigs@.len() ==> skill_present(cards@, #[trigger] ssigs@[j].0),
            best matches Some(b) ==> (b as int) < i && (forall|j: int|
                0 <= j < i ==> (#[trigger] ssigs@[j].1).spec_growth_pressure()
                    <= ssigs@[b as int].1.spec_growth_pressure()),
            best is None ==> i == 0,
        decreases ssigs.len() - i,
    {
        let g = ssigs[i].1.growth_pressure();
        best = match best {
            Some(b) => {
                let gb = ssigs[b].1.growth_pressure();
                if g >= gb {
                    Some(i)
                } else {
                    Some(b)
                }
            },
            None => Some(i),
        };
        i = i + 1;
    }
    let b = match best {
        Some(b) => b,
        None => {
            proof {
                assert forall|d: u128| skill_present(cards@, d) implies spec_skill_signal(
                    cards@,
                    stats@,
                    now as int,
                    skills@,
                    d,
                ).spec_growth_pressure() < 450 by {
                    assert(crate::signals::skill_signal_listed(ssigs@, d));
                }
            }
            return None;
        },
    };
    let sig = ssigs[b].1;
    let growth = sig.growth_pressure();
    if growth < 450 {
        proof {
            assert forall|d: u128| skill_present(cards@, d) implies spec_skill_signal(
                cards@,
                stats@,
                now as int,
                skills@,
                d,
            ).spec_growth_pressure() < 450 by {
                assert(crate::signals::skill_signal_listed(ssigs@, d));
                let j = choose|j: int| 0 <= j < ssigs@.len() && ssigs@[j].0 == d;
                assert(ssigs@[j].1.spec_growth_pressure()
                    <= ssigs@[b as int].1.spec_growth_pressure());
            }
        }
        return None;
    }
    let skill_id = ssigs[b].0;
    let with_skill = count_skill_cards(cards);
    proof {
        assert forall|d: u128| skill_present(cards@, d) implies spec_skill_signal(
            cards@,
            stats@,
            now as int,
            skills@,
            d,
        ).spec_growth_pressure() <= sig.spec_growth_pressure() by {
            assert(crate::signals::skill_signal_listed(ssigs@, d));
            let j = choose|j: int| 0 <= j < ssigs@.len() && ssigs@[j].0 == d;
            assert(ssigs@[j].1.spec_growth_pressure() <= ssigs@[b as int].1.spec_growth_pressure());
        }
    }
    Some(
        RecommendedFocus::SkillGap {
            skill_point_id: skill_id,
            name: skill_name_for(skills, skill_id),
            level: crate::signals::level_for(skills, skill_id),
            growth,
            count: sig.count,
            share: sig.share(with_skill),
        },
    )
}

/// Count the pool cards that carry a skill point.
pub fn count_skill_cards(cards: &Vec<MemoryCard>) -> (r: usize)
    requires
        cards@.len() <= MAX_POOL,
    ensures
        r == count_with_skill(cards@, cards@.len() as int),
        r <= cards@.len(),
{
    let mut r: usize = 0;
    let mut i: usize = 0;
    while i < cards.len()
        invariant
            i <= cards.len(),
            r <= i,
            r == count_with_skill(cards@, i as int),
        decreases cards.len() - i,
    {
        if cards[i].skill_point_id.is_some() {
            r = r + 1;
        }
        i = i + 1;
    }
    r
}

/// How many of the first `n` pool cards of direction `d` have gone
/// unpracticed long enough to count as stale (staleness at least `0.7`).
pub open spec fn stale_count(
    cards: Seq<MemoryCard>,
    stats: Seq<(u128, CardReviewStats)>,
    now: int,
    d: u128,
    n: int,
) -> int
    decreases n,
{
    if n <= 0 {
        0
    } else {
        let prev = stale_count(cards, stats, now, d, n - 1);
        let card = cards[n - 1];
        let stale = match stats_view_for(stats, card.id) {
            Some(v) => spec_staleness(v.last_seen, now),
            None => 1000,
        };
        prev + if card.direction_id == d && stale >= 700 {
            1int
        } else {
            0int
        }
    }
}

/// Recommend waking the most neglected direction, if any analysed
/// direction's neglect pressure reaches the threshold (`0.45`).
#[verifier::rlimit(100)]
#[verifier::spinoff_prover]
pub fn recommend_neglected_direction(
    cards: &Vec<MemoryCard>,
    stats: &Vec<(u128, CardReviewStats)>,
    now: i64,
    directions: &Vec<Direction>,
) -> (r: Option<RecommendedFocus>)
    requires
        time_ok(now as int),
        cards_times_ok(cards@),
        stats_list_ok(stats@),
        cards@.len() <= MAX_POOL,
    ensures
        r is None <==> (forall|d: u128|
            crate::signals::direction_present(cards@, d) ==> spec_direction_signal(
                cards@,
                stats@,
                now as int,
                d,
            ).neglect_pressure < 450),
        r matches Some(f) ==> ({
            &&& f matches RecommendedFocus::NeglectedDirection {
                direction_id,
                name,
                neglect,
                stale_cards,
            }
            &&& crate::signals::direction_present(cards@, direction_id)
            &&& neglect == spec_direction_signal(
                cards@,
                stats@,
                now as int,
                direction_id,
            ).neglect_pressure
            &&& neglect >= 450
            &&& (forall|d: u128|
                crate::signals::direction_present(cards@, d) ==> spec_direction_signal(
                    cards@,
                    stats@,
                    now as int,
                    d,
                ).neglect_pressure <= neglect)
            &&& name@ == spec_direction_name_for(directions@, direction_id)
            &&& stale_cards == stale_count(
                cards@,
                stats@,
                now as int,
                direction_id,
                cards@.len() as int,
            )
        }),
{
    let dsigs = analyze_direction_signals(cards, stats, now);
    let mut best: Option<usize> = None;
    let mut i: usize = 0;
    while i < dsigs.len()
        invariant
            i <= dsigs.len(),
            forall|j: int|
                0 <= j < dsigs@.len() ==> #[trigger] dsigs@[j].1 == spec_direction_signal(
                    cards@,
                    stats@,
                    now as int,
                    dsigs@[j].0,
                ),
            forall|j: int|
                0 <= j < dsigs@.len() ==> crate::signals::direction_present(
                    cards@,
                    #[trigger] dsigs@[j].0,
                ),
            best matches Some(b) ==> (b as int) < i && (forall|j: int|
                0 <= j < i ==> (#[trigger] dsigs@[j].1).neglect_pressure
                    <= dsigs@[b as int].1.neglect_pressure),
            best is None ==> i == 0,
        decreases dsigs.len() - i,
    {
        best = match best {
            Some(b) => if dsigs[i].1.neglect_pressure >= dsigs[b].1.neglect_pressure {
                Some(i)
            } else {
                Some(b)
            },
            None => Some(i),
        };
        i = i + 1;
    }
    let b = match best {
        Some(b) => b,
        None => {
            proof {
                assert forall|d: u128| crate::signals::direction_present(
                    cards@,
                    d,
                ) implies spec_direction_signal(cards@, stats@, now as int, d).neglect_pressure
                    < 450 by {
                    assert(crate::signals::direction_signal_listed(dsigs@, d));
                }
            }
            return None;
        },
    };
    let neglect = dsigs[b].1.neglect_pressure;
    if neglect < 450 {
        proof {
            assert forall|d: u128| crate::signals::direction_present(
                cards@,
                d,
            ) implies spec_direction_signal(cards@, stats@, now as int, d).neglect_pressure
                < 450 by {
                assert(crate::signals::direction_signal_listed(dsigs@, d));
                let j = choose|j: int| 0 <= j < dsigs@.len() && dsigs@[j].0 == d;
                assert(dsigs@[j].1.neglect_pressure <= dsigs@[b as int].1.neglect_pressure);
            }
        }
        return None;
    }
    let direction_id = dsigs[b].0;
    let stale_cards = count_stale_cards(cards, stats, now, direction_id);
    proof {
        assert forall|d: u128| crate::signals::direction_present(
            cards@,
            d,
        ) implies spec_direction_signal(cards@, stats@, now as int, d).neglect_pressure
            <= neglect by {
            assert(crate::signals::direction_signal_listed(dsigs@, d));
            let j = choose|j: int| 0 <= j < dsigs@.len() && dsigs@[j].0 == d;
            assert(dsigs@[j].1.neglect_pressure <= dsigs@[b as int].1.neglect_pressure);
        }
    }
    Some(
        RecommendedFocus::NeglectedDirection {
            direction_id,
            name: direction_name_for(directions, direction_id),
            neglect,
            stale_cards,
        },
    )
}

/// Count the stale cards of direction `d` in the pool.
pub fn count_stale_cards(
    cards: &Vec<MemoryCard>,
    stats: &Vec<(u128, CardReviewStats)>,
    now: i64,
    d: u128,
) -> (r: usize)
    requires
        time_ok(now as int),
        cards_times_ok(cards@),
        stats_list_ok(stats@),
        cards@.len() <= MAX_POOL,
    ensures
        r == stale_count(cards@, stats@, now as int, d, cards@.len() as int),
{
    let mut r: usize = 0;
    let mut i: usize = 0;
    while i < cards.len()
        invariant
            i <= cards.len(),
            r <= i,
            time_ok(now as int),
            cards_times_ok(cards@),
            stats_list_ok(stats@),
            cards@.len() <= MAX_POOL,
            r == stale_count(cards@, stats@, now as int, d, i as int),
        decreases cards.len() - i,
    {
        let card = &cards[i];
        let stale: i64 = match crate::stats::stats_for(stats, card.id) {
            Some(st) => {
                proof {
                    let w = choose|w: int|
                        0 <= w < stats@.len() && #[trigger] stats@[w].0 == card.id && stats@[w].1@
                            == st@ && stats@[w].1.times_ok() == st.times_ok();
                    assert(stats@[w].1.times_ok());
                }
                staleness(st.last_seen, now)
            },
            None => 1000,
        };
        if card.direction_id == d && stale >= 700 {
            r = r + 1;
        }
        i = i + 1;
    }
    r
}

} // verus!
