//! Workout plans, phases, per-segment focus summaries, and the analytics
//! types a completed session produces.
//!
//! As everywhere in this crate, fractions are integers in thousandths of
//! the unit interval, except that the session metrics `kv_delta` and `udr`
//! are in millionths (they need the finer grain); timestamps are seconds.
//!
//! Types that hold vectors get a ghost view (`@`) over `Seq`, and their
//! `Clone` promises view equality; everything else is compared directly.

use vstd::prelude::*;

use crate::card::MemoryCard;
use crate::direction::DirectionStage;
use crate::skill::SkillLevel;
use crate::vecs::copy_vec;

verus! {

/// A phase of a workout, in fixed order.
#[derive(Debug, Clone, Copy, PartialEq, Eq, Structural)]
pub enum WorkoutPhase {
    Quiz,
    Apply,
    Review,
}

impl WorkoutPhase {
    /// The stable string label for this phase.
    pub fn as_str(&self) -> (r: &'static str)
        ensures
            *self is Quiz ==> r@ == "quiz"@,
            *self is Apply ==> r@ == "apply"@,
            *self is Review ==> r@ == "review"@,
    {
        match self {
            WorkoutPhase::Quiz => "quiz",
            WorkoutPhase::Apply => "apply",
            WorkoutPhase::Review => "review",
        }
    }
}

/// Lifecycle of a workout: it is created pending and completed exactly
/// once; there is no further transition.
#[derive(Debug, Clone, Copy, PartialEq, Eq, Structural)]
pub enum WorkoutStatus {
    Pending,
    Completed,
}

impl WorkoutStatus {
    /// The stable string label for this status.
    pub fn as_str(&self) -> (r: &'static str)
        ensures
            *self is Pending ==> r@ == "pending"@,
            *self is Completed ==> r@ == "completed"@,
    {
        match self {
            WorkoutStatus::Pending => "pending",
            WorkoutStatus::Completed => "completed",
        }
    }
}

/// The outcome a learner reports for one workout item.
#[derive(Debug, Clone, Copy, PartialEq, Eq, Structural)]
pub enum WorkoutResultKind {
    Pass,
    Fail,
}

impl WorkoutResultKind {
    /// The stable string label for this outcome.
    pub fn as_str(&self) -> (r: &'static str)
        ensures
            *self is Pass ==> r@ == "pass"@,
            *self is Fail ==> r@ == "fail"@,
    {
        match self {
            WorkoutResultKind::Pass => "pass",
            WorkoutResultKind::Fail => "fail",
        }
    }
}

/// One submitted outcome, keyed by the plan's item identity.
#[derive(Debug, Clone, Copy)]
pub struct WorkoutItemResultInput {
    pub item_id: u128,
    pub result: WorkoutResultKind,
}

/// One scheduled card inside a segment. The item identity is independent
/// of the card identity and stable for the plan's lifetime, so results can
/// be correlated back.
#[derive(Debug)]
pub struct WorkoutItemPlan {
    pub item_id: u128,
    pub card: MemoryCard,
    pub sequence: u32,
}

impl Clone for WorkoutItemPlan {
    fn clone(&self) -> (c: Self)
        ensures
            c == *self,
    {
        WorkoutItemPlan { item_id: self.item_id, card: self.card.clone(), sequence: self.sequence }
    }
}

/// Per-segment tallies of notable cards, counted over the segment's cards.
#[derive(Debug, Clone, Copy, PartialEq, Eq, Structural)]
pub struct SegmentFocusCounts {
    /// Cards with high due urgency.
    pub due_count: usize,
    /// Cards never reviewed before.
    pub new_count: usize,
    /// Cards with a failure streak or a high fail rate.
    pub fail_count: usize,
    /// Cards with low stability.
    pub unstable_count: usize,
    /// Cards with high relevance.
    pub high_relevance_count: usize,
    /// Cards on a pass streak.
    pub momentum_count: usize,
    /// Cards not practiced for a long while.
    pub neglected_count: usize,
    /// All cards in the segment.
    pub total: usize,
}

/// One highlight line of a segment's focus summary.
#[derive(Debug, Clone, Copy, PartialEq, Eq, Structural)]
pub enum FocusHighlight {
    DueCards { count: usize },
    NewCards { count: usize },
    UnstableCards { count: usize },
    NeglectedCards { count: usize },
    HighRelevanceCards { count: usize },
    MomentumCards { count: usize },
    RecentFailures { count: usize },
    /// The skill contributing the most cards to the segment, with its
    /// share of the segment's skill-tagged cards in thousandths.
    PrimarySkill { skill_point_id: u128, count: usize, share: i64 },
    /// A skill under high growth pressure (in thousandths).
    SkillGrowth { skill_point_id: u128, growth: i64 },
}

/// A qualitative signal tag on a direction's share of a segment.
#[derive(Debug, Clone, Copy, PartialEq, Eq, Structural)]
pub enum DirectionFocusSignal {
    HighFailPressure,
    SomeFailures,
    ManyDueSoon,
    SomeDueCards,
    ManyNewCards,
    SomeNewCards,
    LowStability,
    KeepMomentum,
    RecentFailures,
    LongUnpracticed,
    SomeStaleCards,
}

/// A qualitative signal tag on a skill's share of a segment.
#[derive(Debug, Clone, Copy, PartialEq, Eq, Structural)]
pub enum SkillFocusSignal {
    Level { level: SkillLevel },
    HighFailPressure,
    WatchFailures,
    ManyDueSoon,
    ManyNewCards,
    LongUnpracticed,
    KeepMomentum,
}

/// How one direction contributes to a segment: how many cards, its share
/// of the segment in thousandths, and qualitative signals.
#[derive(Debug)]
pub struct WorkoutSegmentDirectionFocus {
    pub direction_id: u128,
    pub name: String,
    pub stage: DirectionStage,
    pub count: usize,
    pub share: i64,
    pub signals: Vec<DirectionFocusSignal>,
}

/// The mathematical contents of a [`WorkoutSegmentDirectionFocus`].
#[verifier::ext_equal]
pub ghost struct SegmentDirectionFocusView {
    pub direction_id: u128,
    pub name: Seq<char>,
    pub stage: DirectionStage,
    pub count: int,
    pub share: int,
    pub signals: Seq<DirectionFocusSignal>,
}

impl View for WorkoutSegmentDirectionFocus {
    type V = SegmentDirectionFocusView;

    open spec fn view(&self) -> SegmentDirectionFocusView {
        SegmentDirectionFocusView {
            direction_id: self.direction_id,
            name: self.name@,
            stage: self.stage,
            count: self.count as int,
            share: self.share as int,
            signals: self.signals@,
        }
    }
}

impl Clone for WorkoutSegmentDirectionFocus {
    fn clone(&self) -> (c: Self)
        ensures
            c@ == self@,
    {
        let c = WorkoutSegmentDirectionFocus {
            direction_id: self.direction_id,
            name: self.name.clone(),
            stage: self.stage,
            count: self.count,
            share: self.share,
            signals: copy_vec(&self.signals),
        };
        proof {
            assert(c@ =~= self@);
        }
        c
    }
}

/// How one skill contributes to a segment.
#[derive(Debug)]
pub struct WorkoutSegmentSkillFocus {
    pub skill_point_id: u128,
    pub name: String,
    pub level: SkillLevel,
    pub count: usize,
    pub share: i64,
    pub signals: Vec<SkillFocusSignal>,
}

/// The mathematical contents of a [`WorkoutSegmentSkillFocus`].
#[verifier::ext_equal]
pub ghost struct SegmentSkillFocusView {
    pub skill_point_id: u128,
    pub name: Seq<char>,
    pub level: SkillLevel,
    pub count: int,
    pub share: int,
    pub signals: Seq<SkillFocusSignal>,
}

impl View for WorkoutSegmentSkillFocus {
    type V = SegmentSkillFocusView;

    open spec fn view(&self) -> SegmentSkillFocusView {
        SegmentSkillFocusView {
            skill_point_id: self.skill_point_id,
            name: self.name@,
            level: self.level,
            count: self.count as int,
            share: self.share as int,
            signals: self.signals@,
        }
    }
}

impl Clone for WorkoutSegmentSkillFocus {
    fn clone(&self) -> (c: Self)
        ensures
            c@ == self@,
    {
        let c = WorkoutSegmentSkillFocus {
            skill_point_id: self.skill_point_id,
            name: self.name.clone(),
            level: self.level,
            count: self.count,
            share: self.share,
            signals: copy_vec(&self.signals),
        };
        proof {
            assert(c@ =~= self@);
        }
        c
    }
}

/// The focus summary of one segment: notable-card tallies, highlight
/// lines, and direction/skill share breakdowns.
#[derive(Debug)]
pub struct WorkoutSegmentFocus {
    pub counts: SegmentFocusCounts,
    pub highlights: Vec<FocusHighlight>,
    pub direction_breakdown: Vec<WorkoutSegmentDirectionFocus>,
    pub skill_breakdown: Vec<WorkoutSegmentSkillFocus>,
}

/// The mathematical contents of a [`WorkoutSegmentFocus`].
#[verifier::ext_equal]
pub ghost struct SegmentFocusView {
    pub counts: SegmentFocusCounts,
    pub highlights: Seq<FocusHighlight>,
    pub direction_breakdown: Seq<SegmentDirectionFocusView>,
    pub skill_breakdown: Seq<SegmentSkillFocusView>,
}

impl View for WorkoutSegmentFocus {
    type V = SegmentFocusView;

    open spec fn view(&self) -> SegmentFocusView {
        SegmentFocusView {
            counts: self.counts,
            highlights: self.highlights@,
            direction_breakdown: self.direction_breakdown@.map_values(
                |d: WorkoutSegmentDirectionFocus| d@,
            ),
            skill_breakdown: self.skill_breakdown@.map_values(|s: WorkoutSegmentSkillFocus| s@),
        }
    }
}

impl Clone for WorkoutSegmentFocus {
    fn clone(&self) -> (c: Self)
        ensures
            c@ == self@,
    {
        let mut direction_breakdown: Vec<WorkoutSegmentDirectionFocus> = Vec::new();
        let mut i: usize = 0;
        while i < self.direction_breakdown.len()
            invariant
                i <= self.direction_breakdown.len(),
                direction_breakdown@.len() == i,
                forall|j: int|
                    0 <= j < i ==> direction_breakdown@[j]@ == self.direction_breakdown@[j]@,
            decreases self.direction_breakdown.len() - i,
        {
            direction_breakdown.push(self.direction_breakdown[i].clone());
            i = i + 1;
        }
        let mut skill_breakdown: Vec<WorkoutSegmentSkillFocus> = Vec::new();
        let mut k: usize = 0;
        while k < self.skill_breakdown.len()
            invariant
                k <= self.skill_breakdown.len(),
                skill_breakdown@.len() == k,
                forall|j: int| 0 <= j < k ==> skill_breakdown@[j]@ == self.skill_breakdown@[j]@,
            decreases self.skill_breakdown.len() - k,
        {
            skill_breakdown.push(self.skill_breakdown[k].clone());
            k = k + 1;
        }
        let c = WorkoutSegmentFocus {
            counts: self.counts,
            highlights: copy_vec(&self.highlights),
            direction_breakdown,
            skill_breakdown,
        };
        proof {
            assert(c@ =~= self@);
        }
        c
    }
}

/// One phase of a workout plan: its cards in practice order and an
/// optional focus summary.
#[derive(Debug)]
pub struct WorkoutSegmentPlan {
    pub phase: WorkoutPhase,
    pub focus_details: Option<WorkoutSegmentFocus>,
    pub items: Vec<WorkoutItemPlan>,
}

/// The mathematical contents of a [`WorkoutSegmentPlan`].
#[verifier::ext_equal]
pub ghost struct SegmentPlanView {
    pub phase: WorkoutPhase,
    pub focus_details: Option<SegmentFocusView>,
    pub items: Seq<WorkoutItemPlan>,
}

impl View for WorkoutSegmentPlan {
    type V = SegmentPlanView;

    open spec fn view(&self) -> SegmentPlanView {
        SegmentPlanView {
            phase: self.phase,
            focus_details: match self.focus_details {
                Some(f) => Some(f@),
                None => None,
            },
            items: self.items@,
        }
    }
}

impl Clone for WorkoutSegmentPlan {
    fn clone(&self) -> (c: Self)
        ensures
            c@ == self@,
    {
        let focus_details = match &self.focus_details {
            Some(f) => Some(f.clone()),
            None => None,
        };
        let mut items: Vec<WorkoutItemPlan> = Vec::new();
        let mut i: usize = 0;
        while i < self.items.len()
            invariant
                i <= self.items.len(),
                items@.len() == i,
                forall|j: int| 0 <= j < i ==> items@[j] == self.items@[j],
            decreases self.items.len() - i,
        {
            items.push(self.items[i].clone());
            i = i + 1;
        }
        proof {
            assert(items@ =~= self.items@);
        }
        let c = WorkoutSegmentPlan { phase: self.phase, focus_details, items };
        proof {
            assert(c@ =~= self@);
        }
        c
    }
}

/// Per-phase card counts of a plan, plus their sum.
#[derive(Debug, Clone, Copy, PartialEq, Eq, Structural)]
pub struct WorkoutTotals {
    pub total_cards: usize,
    pub quiz: usize,
    pub apply: usize,
    pub review: usize,
}

impl Default for WorkoutTotals {
    fn default() -> (t: Self)
        ensures
            t.total_cards == 0,
            t.quiz == 0,
            t.apply == 0,
            t.review == 0,
    {
        WorkoutTotals { total_cards: 0, quiz: 0, apply: 0, review: 0 }
    }
}

/// One day's workout plan: an ordered list of segments (one per phase
/// present) with totals. Immutable once created, except for the results
/// written during completion.
#[derive(Debug)]
pub struct TodayWorkoutPlan {
    pub workout_id: u128,
    /// The day this plan is for, as seconds.
    pub scheduled_for: i64,
    pub generated_at: i64,
    pub segments: Vec<WorkoutSegmentPlan>,
    pub totals: WorkoutTotals,
}

/// The mathematical contents of a [`TodayWorkoutPlan`].
#[verifier::ext_equal]
pub ghost struct PlanView {
    pub workout_id: u128,
    pub scheduled_for: int,
    pub generated_at: int,
    pub segments: Seq<SegmentPlanView>,
    pub totals: WorkoutTotals,
}

impl View for TodayWorkoutPlan {
    type V = PlanView;

    open spec fn view(&self) -> PlanView {
        PlanView {
            workout_id: self.workout_id,
            scheduled_for: self.scheduled_for as int,
            generated_at: self.generated_at as int,
            segments: self.segments@.map_values(|s: WorkoutSegmentPlan| s@),
            totals: self.totals,
        }
    }
}

impl Clone for TodayWorkoutPlan {
    fn clone(&self) -> (c: Self)
        ensures
            c@ == self@,
    {
        let mut segments: Vec<WorkoutSegmentPlan> = Vec::new();
        let mut i: usize = 0;
        while i < self.segments.len()
            invariant
                i <= self.segments.len(),
                segments@.len() == i,
                forall|j: int| 0 <= j < i ==> segments@[j]@ == self.segments@[j]@,
            decreases self.segments.len() - i,
        {
            segments.push(self.segments[i].clone());
            i = i + 1;
        }
        let c = TodayWorkoutPlan {
            workout_id: self.workout_id,
            scheduled_for: self.scheduled_for,
            generated_at: self.generated_at,
            segments,
            totals: self.totals,
        };
        proof {
            assert(c@ =~= self@);
        }
        c
    }
}

/// The new state of one card after its outcome was applied.
#[derive(Debug, Clone, Copy, PartialEq, Eq, Structural)]
pub struct WorkoutCardProgress {
    pub card_id: u128,
    pub result: WorkoutResultKind,
    /// New stability, thousandths.
    pub stability: i64,
    /// New priority, thousandths.
    pub priority: i64,
    /// New due time, seconds.
    pub next_due: Option<i64>,
}

/// What the learner is advised to work on next, in falling order of
/// urgency: retry the worst failure, apply the freshest success, close a
/// skill gap, or wake a neglected direction.
#[derive(Debug)]
pub enum RecommendedFocus {
    /// Retry the failed card with the highest priority (thousandths).
    RetryCard { card_id: u128, title: String, priority: i64 },
    /// Apply the passed card with the highest novelty (thousandths).
    ApplyCard { card_id: u128, title: String, novelty: i64 },
    /// Close the skill gap with the highest growth pressure (thousandths);
    /// `share` is the skill's share of skill-tagged pool cards.
    SkillGap {
        skill_point_id: u128,
        name: String,
        level: SkillLevel,
        growth: i64,
        count: usize,
        share: i64,
    },
    /// Wake the direction with the highest neglect pressure (thousandths);
    /// `stale_cards` counts its cards unseen for a long while.
    NeglectedDirection { direction_id: u128, name: String, neglect: i64, stale_cards: usize },
}

/// One qualitative insight derived from the session metrics.
#[derive(Debug, Clone, Copy, PartialEq, Eq, Structural)]
pub enum Insight {
    /// Some cards were failed and should be re-practiced first.
    FailedCards { count: usize },
    /// Pass rate was high; applying knowledge can take a bigger share.
    PassRateHigh,
    /// Pass rate was low; revisit the basics first.
    PassRateLow,
    /// Knowledge velocity clearly rose (millionths).
    VelocityGain { kv_delta: i64 },
    /// Knowledge velocity clearly fell (millionths).
    VelocityLoss { kv_delta: i64 },
    /// Uncertainty dropped notably (millionths).
    UncertaintyDrop { udr: i64 },
    /// Uncertainty rose (millionths).
    UncertaintyRise { udr: i64 },
    /// Nothing stood out; keep the rhythm.
    SteadyPace,
}

/// Session analytics for one direction.
#[derive(Debug)]
pub struct WorkoutSummaryDirectionBreakdown {
    pub direction_id: u128,
    pub name: String,
    pub stage: DirectionStage,
    pub total: usize,
    pub pass_count: usize,
    pub fail_count: usize,
    /// Thousandths.
    pub pass_rate: i64,
    /// Millionths.
    pub kv_delta: i64,
    /// Millionths.
    pub udr: i64,
    /// Thousandths.
    pub avg_priority: i64,
    /// This direction's share of the session, thousandths.
    pub share: i64,
}

impl Clone for WorkoutSummaryDirectionBreakdown {
    fn clone(&self) -> (c: Self)
        ensures
            c == *self,
    {
        WorkoutSummaryDirectionBreakdown {
            direction_id: self.direction_id,
            name: self.name.clone(),
            stage: self.stage,
            total: self.total,
            pass_count: self.pass_count,
            fail_count: self.fail_count,
            pass_rate: self.pass_rate,
            kv_delta: self.kv_delta,
            udr: self.udr,
            avg_priority: self.avg_priority,
            share: self.share,
        }
    }
}

/// Session analytics for one skill point.
#[derive(Debug)]
pub struct WorkoutSummarySkillBreakdown {
    pub skill_point_id: u128,
    pub name: String,
    pub level: SkillLevel,
    pub total: usize,
    pub pass_count: usize,
    pub fail_count: usize,
    /// Thousandths.
    pub pass_rate: i64,
    /// Millionths.
    pub kv_delta: i64,
    /// Millionths.
    pub udr: i64,
    /// Thousandths.
    pub avg_priority: i64,
    /// This skill's share of the session, thousandths.
    pub share: i64,
}

impl Clone for WorkoutSummarySkillBreakdown {
    fn clone(&self) -> (c: Self)
        ensures
            c == *self,
    {
        WorkoutSummarySkillBreakdown {
            skill_point_id: self.skill_point_id,
            name: self.name.clone(),
            level: self.level,
            total: self.total,
            pass_count: self.pass_count,
            fail_count: self.fail_count,
            pass_rate: self.pass_rate,
            kv_delta: self.kv_delta,
            udr: self.udr,
            avg_priority: self.avg_priority,
            share: self.share,
        }
    }
}

/// Session-wide metrics of a completed workout.
#[derive(Debug)]
pub struct WorkoutSummaryMetrics {
    pub total_items: usize,
    pub pass_count: usize,
    pub fail_count: usize,
    /// Thousandths.
    pub pass_rate: i64,
    /// Knowledge-velocity delta, millionths, clamped to `[-1.5, 1.5]`.
    pub kv_delta: i64,
    /// Uncertainty-drop rate, millionths, clamped to `[-1, 1]`.
    pub udr: i64,
    pub recommended_focus: Option<RecommendedFocus>,
    pub direction_breakdown: Vec<WorkoutSummaryDirectionBreakdown>,
    pub skill_breakdown: Vec<WorkoutSummarySkillBreakdown>,
}

/// Everything a completed workout reports back: per-card progress, session
/// metrics, and qualitative insights. Created exactly once per workout.
#[derive(Debug)]
pub struct WorkoutCompletionSummary {
    pub workout_id: u128,
    pub completed_at: i64,
    pub updates: Vec<WorkoutCardProgress>,
    pub metrics: WorkoutSummaryMetrics,
    pub insights: Vec<Insight>,
}

} // verus!
