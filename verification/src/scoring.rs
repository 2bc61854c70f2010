//! Per-card scoring primitives: due urgency, staleness, freshness, failure
//! pressure, streak terms and lifecycle-stage bias. All results are in
//! thousandths of the unit interval.

use vstd::prelude::*;

use crate::direction::DirectionStage;
use crate::stats::{counts_ok, spec_fail_rate, CardReviewStats, StatsView};
use crate::units::{
    clamp_unit, div_toward_zero, spec_clamp_unit, spec_div_toward_zero, time_ok,
};
use crate::workout::WorkoutPhase;

verus! {

/// Whole minutes elapsed from `then` to `now` (negative when `then` lies
/// in the future), rounded toward zero.
pub open spec fn spec_minutes_between(now: int, then: int) -> int {
    spec_div_toward_zero(now - then, 60)
}

/// Whole minutes elapsed from `then` to `now`, rounded toward zero.
pub fn minutes_between(now: i64, then: i64) -> (r: i64)
    requires
        time_ok(now as int),
        time_ok(then as int),
    ensures
        r == spec_minutes_between(now as int, then as int),
{
    div_toward_zero(now - then, 60)
}

/// How urgently a card is due: ramps up over the two days around its due
/// time, and is a mild constant for cards that were never scheduled.
pub open spec fn spec_due_urgency(next_due: Option<i64>, now: int) -> int {
    match next_due {
        Some(due) => {
            let shifted = spec_minutes_between(now, due as int) + 24 * 60;
            if shifted <= 0 {
                0
            } else {
                spec_clamp_unit(shifted * 1000 / (48 * 60int))
            }
        },
        None => 300,
    }
}

/// How urgently a card is due, in thousandths.
pub fn due_urgency(next_due: Option<i64>, now: i64) -> (r: i64)
    requires
        time_ok(now as int),
        next_due matches Some(d) ==> time_ok(d as int),
    ensures
        r == spec_due_urgency(next_due, now as int),
        0 <= r <= 1000,
{
    match next_due {
        Some(due) => {
            let shifted = minutes_between(now, due) + 24 * 60;
            if shifted <= 0 {
                0
            } else {
                clamp_unit(shifted * 1000 / (48 * 60))
            }
        },
        None => 300,
    }
}

/// How long a card has gone unpracticed, saturating after five days;
/// never-practiced cards are maximally stale.
pub open spec fn spec_staleness(last_seen: Option<i64>, now: int) -> int {
    match last_seen {
        Some(seen) => {
            let minutes = spec_minutes_between(now, seen as int);
            if minutes <= 0 {
                0
            } else {
                spec_clamp_unit(minutes * 1000 / (5 * 24 * 60int))
            }
        },
        None => 1000,
    }
}

/// How long a card has gone unpracticed, in thousandths.
pub fn staleness(last_seen: Option<i64>, now: i64) -> (r: i64)
    requires
        time_ok(now as int),
        last_seen matches Some(s) ==> time_ok(s as int),
    ensures
        r == spec_staleness(last_seen, now as int),
        0 <= r <= 1000,
{
    match last_seen {
        Some(seen) => {
            let minutes = minutes_between(now, seen);
            if minutes <= 0 {
                0
            } else {
                clamp_unit(minutes * 1000 / (5 * 24 * 60))
            }
        },
        None => 1000,
    }
}

/// How ripe a card is for another look: time since it was last seen
/// (saturating after a week), boosted after a failure streak and dampened
/// while a pass streak runs.
pub open spec fn spec_freshness(s: StatsView, now: int) -> int {
    let base = match s.last_seen {
        Some(seen) => {
            let minutes = spec_minutes_between(now, seen as int);
            if minutes <= 0 {
                0
            } else {
                spec_clamp_unit(minutes * 1000 / (7 * 24 * 60int))
            }
        },
        None => 1000,
    };
    if s.consecutive_fails > 0 {
        spec_clamp_unit(base + 200)
    } else if s.consecutive_passes >= 3 {
        spec_clamp_unit(base * 7 / 10)
    } else {
        base
    }
}

/// How ripe a card is for another look, in thousandths.
pub fn freshness(s: &CardReviewStats, now: i64) -> (r: i64)
    requires
        time_ok(now as int),
        s.times_ok(),
    ensures
        r == spec_freshness(s@, now as int),
        0 <= r <= 1000,
{
    let base: i64 = match s.last_seen {
        Some(seen) => {
            let minutes = minutes_between(now, seen);
            if minutes <= 0 {
                0
            } else {
                clamp_unit(minutes * 1000 / (7 * 24 * 60))
            }
        },
        None => 1000,
    };
    if s.consecutive_fails > 0 {
        clamp_unit(base + 200)
    } else if s.consecutive_passes >= 3 {
        clamp_unit(base * 7 / 10)
    } else {
        base
    }
}

/// Momentum from a run of consecutive passes, saturating at four.
pub open spec fn spec_momentum(consecutive_passes: int) -> int {
    spec_clamp_unit(consecutive_passes * 1000 / 4)
}

/// Momentum from a run of consecutive passes, in thousandths.
pub fn momentum(consecutive_passes: u32) -> (r: i64)
    ensures
        r == spec_momentum(consecutive_passes as int),
        0 <= r <= 1000,
{
    clamp_unit((consecutive_passes as i64) * 1000 / 4)
}

/// Pressure from a run of consecutive fails, saturating at three.
pub open spec fn spec_fail_streak(consecutive_fails: int) -> int {
    spec_clamp_unit(consecutive_fails * 1000 / 3)
}

/// Pressure from a run of consecutive fails, in thousandths.
pub fn fail_streak(consecutive_fails: u32) -> (r: i64)
    ensures
        r == spec_fail_streak(consecutive_fails as int),
        0 <= r <= 1000,
{
    clamp_unit((consecutive_fails as i64) * 1000 / 3)
}

/// How recent the last failure was, fading out over three days; full when
/// the failure is new, zero when there was none.
pub open spec fn spec_fail_recency(last_fail_at: Option<i64>, now: int) -> int {
    match last_fail_at {
        Some(failed) => {
            let minutes = spec_minutes_between(now, failed as int);
            if minutes <= 0 {
                1000
            } else {
                spec_clamp_unit(1000 - minutes * 1000 / (72 * 60int))
            }
        },
        None => 0,
    }
}

/// How recent the last failure was, in thousandths.
pub fn fail_recency(last_fail_at: Option<i64>, now: i64) -> (r: i64)
    requires
        time_ok(now as int),
        last_fail_at matches Some(t) ==> time_ok(t as int),
    ensures
        r == spec_fail_recency(last_fail_at, now as int),
        0 <= r <= 1000,
{
    match last_fail_at {
        Some(failed) => {
            let minutes = minutes_between(now, failed);
            if minutes <= 0 {
                1000
            } else {
                clamp_unit(1000 - minutes * 1000 / (72 * 60))
            }
        },
        None => 0,
    }
}

/// A card's failure pressure as a direction sees it: the fail rate,
/// the failure streak, and how recent the last failure was.
pub open spec fn spec_fail_component_with_recency(s: StatsView, now: int) -> int {
    (600 * spec_fail_rate(s) + 200 * spec_fail_streak(s.consecutive_fails) + 200
        * spec_fail_recency(s.last_fail_at, now)) / 1000
}

/// A card's failure pressure with the recency term, in thousandths.
pub fn fail_component_with_recency(s: &CardReviewStats, now: i64) -> (r: i64)
    requires
        time_ok(now as int),
        s.times_ok(),
        counts_ok(s@),
    ensures
        r == spec_fail_component_with_recency(s@, now as int),
        0 <= r <= 1000,
{
    let rate = crate::stats::fail_rate(s);
    let streak = fail_streak(s.consecutive_fails);
    let recency = fail_recency(s.last_fail_at, now);
    (600 * rate + 200 * streak + 200 * recency) / 1000
}

/// A card's failure pressure as a skill sees it: the fail rate and the
/// failure streak.
pub open spec fn spec_fail_component(s: StatsView) -> int {
    (600 * spec_fail_rate(s) + 200 * spec_fail_streak(s.consecutive_fails)) / 1000
}

/// A card's failure pressure without the recency term, in thousandths.
pub fn fail_component(s: &CardReviewStats) -> (r: i64)
    requires
        counts_ok(s@),
    ensures
        r == spec_fail_component(s@),
        0 <= r <= 1000,
{
    let rate = crate::stats::fail_rate(s);
    let streak = fail_streak(s.consecutive_fails);
    (600 * rate + 200 * streak) / 1000
}

/// The small per-phase bias a direction's lifecycle stage contributes.
#[derive(Debug, Clone, Copy, PartialEq, Eq, Structural)]
pub struct StageBias {
    pub quiz: i64,
    pub apply: i64,
    pub review: i64,
}

/// Which phases a direction's stage favours: exploring directions quiz,
/// attacking ones apply, stabilizing ones review.
pub open spec fn spec_stage_bias(stage: DirectionStage) -> StageBias {
    match stage {
        DirectionStage::Explore => StageBias { quiz: 80, apply: 40, review: 20 },
        DirectionStage::Shape => StageBias { quiz: 50, apply: 70, review: 40 },
        DirectionStage::Attack => StageBias { quiz: 20, apply: 100, review: 50 },
        DirectionStage::Stabilize => StageBias { quiz: 30, apply: 50, review: 100 },
    }
}

/// The per-phase bias of a direction's lifecycle stage, in thousandths.
pub fn stage_bias(stage: DirectionStage) -> (b: StageBias)
    ensures
        b == spec_stage_bias(stage),
{
    match stage {
        DirectionStage::Explore => StageBias { quiz: 80, apply: 40, review: 20 },
        DirectionStage::Shape => StageBias { quiz: 50, apply: 70, review: 40 },
        DirectionStage::Attack => StageBias { quiz: 20, apply: 100, review: 50 },
        DirectionStage::Stabilize => StageBias { quiz: 30, apply: 50, review: 100 },
    }
}

/// The four fitness scores of a candidate card, in thousandths.
#[derive(Debug, Clone, Copy, PartialEq, Eq, Structural)]
pub struct SegmentScores {
    pub quiz: i64,
    pub apply: i64,
    pub review: i64,
    pub composite: i64,
}

impl SegmentScores {
    /// The score of the given phase, in specifications.
    pub open spec fn spec_for_phase(self, phase: WorkoutPhase) -> i64 {
        match phase {
            WorkoutPhase::Quiz => self.quiz,
            WorkoutPhase::Apply => self.apply,
            WorkoutPhase::Review => self.review,
        }
    }

    /// The score of the given phase.
    pub fn for_phase(self, phase: WorkoutPhase) -> (r: i64)
        ensures
            r == self.spec_for_phase(phase),
    {
        match phase {
            WorkoutPhase::Quiz => self.quiz,
            WorkoutPhase::Apply => self.apply,
            WorkoutPhase::Review => self.review,
        }
    }
}

} // verus!
