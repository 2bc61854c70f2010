//! Aggregate pressure signals per direction and per skill: the mean of
//! each per-card contribution (due urgency, failure pressure, newness,
//! instability, momentum, staleness, priority) over the group's cards in
//! the candidate pool. Ephemeral: recomputed for every scheduling pass.

use vstd::prelude::*;

use crate::card::{cards_times_ok, MemoryCard};
use crate::scoring::{
    due_urgency, fail_component, fail_component_with_recency, momentum, spec_due_urgency,
    spec_fail_component, spec_fail_component_with_recency, spec_momentum, spec_staleness,
    staleness,
};
use crate::skill::{SkillLevel, SkillPoint};
use crate::stats::{counts_ok, stats_for, stats_list_ok, stats_view_for, CardReviewStats};
use crate::units::{clamp_unit, spec_clamp_unit, time_ok};
use crate::vecs::contains_id;
use crate::workout::WorkoutPhase;

verus! {

/// The largest candidate pool the analyzers accept; keeps every
/// accumulated sum comfortably within `i64`.
pub const MAX_POOL: usize = 1_000_000;

/// A value lowered to zero if negative (`max(x, 0)`).
pub open spec fn at_least_zero(x: int) -> int {
    if x < 0 {
        0
    } else {
        x
    }
}

/// Normalised per-direction pressures, each in thousandths.
#[derive(Debug, Clone, Copy, PartialEq, Eq, Structural)]
pub struct DirectionSignal {
    pub due_pressure: i64,
    pub fail_pressure: i64,
    pub new_pressure: i64,
    pub unstable_pressure: i64,
    pub momentum_pressure: i64,
    pub avg_priority: i64,
    pub neglect_pressure: i64,
}

impl Default for DirectionSignal {
    /// The zero signal, used where a direction has no data.
    fn default() -> (d: Self)
        ensures
            d == DirectionSignal::zero(),
    {
        DirectionSignal {
            due_pressure: 0,
            fail_pressure: 0,
            new_pressure: 0,
            unstable_pressure: 0,
            momentum_pressure: 0,
            avg_priority: 0,
            neglect_pressure: 0,
        }
    }
}

impl DirectionSignal {
    /// The all-zero signal.
    pub open spec fn zero() -> DirectionSignal {
        DirectionSignal {
            due_pressure: 0,
            fail_pressure: 0,
            new_pressure: 0,
            unstable_pressure: 0,
            momentum_pressure: 0,
            avg_priority: 0,
            neglect_pressure: 0,
        }
    }

    /// Every pressure lies in the unit interval.
    pub open spec fn wf(self) -> bool {
        &&& 0 <= self.due_pressure <= 1000
        &&& 0 <= self.fail_pressure <= 1000
        &&& 0 <= self.new_pressure <= 1000
        &&& 0 <= self.unstable_pressure <= 1000
        &&& 0 <= self.momentum_pressure <= 1000
        &&& 0 <= self.avg_priority <= 1000
        &&& 0 <= self.neglect_pressure <= 1000
    }

    /// How much this direction wants quiz slots.
    pub open spec fn spec_quiz_bias(self) -> int {
        spec_clamp_unit(
            (450 * self.due_pressure + 250 * self.new_pressure + 150 * self.unstable_pressure + 150
                * self.neglect_pressure) / 1000,
        )
    }

    /// How much this direction wants quiz slots, in thousandths.
    pub fn quiz_bias(&self) -> (r: i64)
        requires
            self.wf(),
        ensures
            r == self.spec_quiz_bias(),
            0 <= r <= 1000,
    {
        clamp_unit(
            (450 * self.due_pressure + 250 * self.new_pressure + 150 * self.unstable_pressure + 150
                * self.neglect_pressure) / 1000,
        )
    }

    /// How much this direction wants apply slots.
    pub open spec fn spec_apply_bias(self) -> int {
        spec_clamp_unit(
            (350 * self.momentum_pressure + 250 * self.avg_priority + 200 * self.new_pressure + 100
                * self.neglect_pressure + 200 * at_least_zero(1000 - self.fail_pressure)) / 1000,
        )
    }

    /// How much this direction wants apply slots, in thousandths.
    pub fn apply_bias(&self) -> (r: i64)
        requires
            self.wf(),
        ensures
            r == self.spec_apply_bias(),
            0 <= r <= 1000,
    {
        clamp_unit(
            (350 * self.momentum_pressure + 250 * self.avg_priority + 200 * self.new_pressure + 100
                * self.neglect_pressure + 200 * (1000 - self.fail_pressure)) / 1000,
        )
    }

    /// How much this direction wants review slots.
    pub open spec fn spec_review_bias(self) -> int {
        spec_clamp_unit(
            (550 * self.fail_pressure + 200 * self.unstable_pressure + 150 * self.due_pressure
                + 100 * self.neglect_pressure) / 1000,
        )
    }

    /// How much this direction wants review slots, in thousandths.
    pub fn review_bias(&self) -> (r: i64)
        requires
            self.wf(),
        ensures
            r == self.spec_review_bias(),
            0 <= r <= 1000,
    {
        clamp_unit(
            (550 * self.fail_pressure + 200 * self.unstable_pressure + 150 * self.due_pressure
                + 100 * self.neglect_pressure) / 1000,
        )
    }

    /// The bias of the given phase.
    pub open spec fn spec_for_phase(self, phase: WorkoutPhase) -> int {
        match phase {
            WorkoutPhase::Quiz => self.spec_quiz_bias(),
            WorkoutPhase::Apply => self.spec_apply_bias(),
            WorkoutPhase::Review => self.spec_review_bias(),
        }
    }

    /// The bias of the given phase, in thousandths.
    pub fn for_phase(&self, phase: WorkoutPhase) -> (r: i64)
        requires
            self.wf(),
        ensures
            r == self.spec_for_phase(phase),
            0 <= r <= 1000,
    {
        match phase {
            WorkoutPhase::Quiz => self.quiz_bias(),
            WorkoutPhase::Apply => self.apply_bias(),
            WorkoutPhase::Review => self.review_bias(),
        }
    }

    /// The direction's phase-independent pull on leftover slots.
    pub open spec fn spec_composite_bias(self) -> int {
        spec_clamp_unit(
            (300 * self.due_pressure + 300 * self.fail_pressure + 200 * self.avg_priority + 150
                * self.momentum_pressure + 50 * self.neglect_pressure) / 1000,
        )
    }

    /// The direction's phase-independent pull, in thousandths.
    pub fn composite_bias(&self) -> (r: i64)
        requires
            self.wf(),
        ensures
            r == self.spec_composite_bias(),
            0 <= r <= 1000,
    {
        clamp_unit(
            (300 * self.due_pressure + 300 * self.fail_pressure + 200 * self.avg_priority + 150
                * self.momentum_pressure + 50 * self.neglect_pressure) / 1000,
        )
    }
}

/// Normalised per-skill pressures, each in thousandths, plus the skill's
/// mastery level and how many pool cards carry the skill.
#[derive(Debug, Clone, Copy, PartialEq, Eq, Structural)]
pub struct SkillSignal {
    pub level: SkillLevel,
    pub due_pressure: i64,
    pub fail_pressure: i64,
    pub new_pressure: i64,
    pub unstable_pressure: i64,
    pub momentum_pressure: i64,
    pub neglect_pressure: i64,
    pub avg_priority: i64,
    pub count: usize,
}

impl Default for SkillSignal {
    /// The zero signal, used where a card carries no analysed skill.
    fn default() -> (s: Self)
        ensures
            s == SkillSignal::zero(),
    {
        SkillSignal {
            level: SkillLevel::Unknown,
            due_pressure: 0,
            fail_pressure: 0,
            new_pressure: 0,
            unstable_pressure: 0,
            momentum_pressure: 0,
            neglect_pressure: 0,
            avg_priority: 0,
            count: 0,
        }
    }
}

impl SkillSignal {
    /// The all-zero signal with an unassessed level.
    pub open spec fn zero() -> SkillSignal {
        SkillSignal {
            level: SkillLevel::Unknown,
            due_pressure: 0,
            fail_pressure: 0,
            new_pressure: 0,
            unstable_pressure: 0,
            momentum_pressure: 0,
            neglect_pressure: 0,
            avg_priority: 0,
            count: 0,
        }
    }

    /// Every pressure lies in the unit interval.
    pub open spec fn wf(self) -> bool {
        &&& 0 <= self.due_pressure <= 1000
        &&& 0 <= self.fail_pressure <= 1000
        &&& 0 <= self.new_pressure <= 1000
        &&& 0 <= self.unstable_pressure <= 1000
        &&& 0 <= self.momentum_pressure <= 1000
        &&& 0 <= self.neglect_pressure <= 1000
        &&& 0 <= self.avg_priority <= 1000
    }

    /// How much room the skill's level leaves to grow.
    pub open spec fn spec_level_gap(self) -> int {
        self.level.spec_level_gap()
    }

    /// How much this skill wants quiz slots.
    pub open spec fn spec_quiz_bias(self) -> int {
        spec_clamp_unit(
            (400 * self.spec_level_gap() + 250 * self.due_pressure + 200 * self.new_pressure + 100
                * self.neglect_pressure + 50 * self.avg_priority) / 1000,
        )
    }

    /// How much this skill wants quiz slots, in thousandths.
    pub fn quiz_bias(&self) -> (r: i64)
        requires
            self.wf(),
        ensures
            r == self.spec_quiz_bias(),
            0 <= r <= 1000,
    {
        clamp_unit(
            (400 * self.level.level_gap() + 250 * self.due_pressure + 200 * self.new_pressure + 100
                * self.neglect_pressure + 50 * self.avg_priority) / 1000,
        )
    }

    /// How much this skill wants apply slots.
    pub open spec fn spec_apply_bias(self) -> int {
        spec_clamp_unit(
            (400 * self.spec_level_gap() + 200 * self.new_pressure + 150 * at_least_zero(
                1000 - self.fail_pressure,
            ) + 150 * self.momentum_pressure + 100 * self.avg_priority + 100 * at_least_zero(
                1000 - self.neglect_pressure,
            )) / 1000,
        )
    }

    /// How much this skill wants apply slots, in thousandths.
    pub fn apply_bias(&self) -> (r: i64)
        requires
            self.wf(),
        ensures
            r == self.spec_apply_bias(),
            0 <= r <= 1000,
    {
        clamp_unit(
            (400 * self.level.level_gap() + 200 * self.new_pressure + 150 * (1000
                - self.fail_pressure) + 150 * self.momentum_pressure + 100 * self.avg_priority
                + 100 * (1000 - self.neglect_pressure)) / 1000,
        )
    }

    /// How much this skill wants review slots.
    pub open spec fn spec_review_bias(self) -> int {
        spec_clamp_unit(
            (450 * self.spec_level_gap() + 300 * self.fail_pressure + 150 * self.unstable_pressure
                + 100 * self.neglect_pressure) / 1000,
        )
    }

    /// How much this skill wants review slots, in thousandths.
    pub fn review_bias(&self) -> (r: i64)
        requires
            self.wf(),
        ensures
            r == self.spec_review_bias(),
            0 <= r <= 1000,
    {
        clamp_unit(
            (450 * self.level.level_gap() + 300 * self.fail_pressure + 150 * self.unstable_pressure
                + 100 * self.neglect_pressure) / 1000,
        )
    }

    /// The bias of the given phase.
    pub open spec fn spec_for_phase(self, phase: WorkoutPhase) -> int {
        match phase {
            WorkoutPhase::Quiz => self.spec_quiz_bias(),
            WorkoutPhase::Apply => self.spec_apply_bias(),
            WorkoutPhase::Review => self.spec_review_bias(),
        }
    }

    /// The bias of the given phase, in thousandths.
    pub fn for_phase(&self, phase: WorkoutPhase) -> (r: i64)
        requires
            self.wf(),
        ensures
            r == self.spec_for_phase(phase),
            0 <= r <= 1000,
    {
        match phase {
            WorkoutPhase::Quiz => self.quiz_bias(),
            WorkoutPhase::Apply => self.apply_bias(),
            WorkoutPhase::Review => self.review_bias(),
        }
    }

    /// How urgently the skill needs deliberate growth work.
    pub open spec fn spec_growth_pressure(self) -> int {
        spec_clamp_unit(
            (500 * self.spec_level_gap() + 200 * self.fail_pressure + 200 * self.neglect_pressure
                + 100 * self.new_pressure) / 1000,
        )
    }

    /// How urgently the skill needs deliberate growth work, thousandths.
    pub fn growth_pressure(&self) -> (r: i64)
        requires
            self.wf(),
        ensures
            r == self.spec_growth_pressure(),
            0 <= r <= 1000,
    {
        clamp_unit(
            (500 * self.level.level_gap() + 200 * self.fail_pressure + 200 * self.neglect_pressure
                + 100 * self.new_pressure) / 1000,
        )
    }

    /// The skill's share of `total` cards.
    pub open spec fn spec_share(self, total: int) -> int {
        if total <= 0 {
            0
        } else {
            spec_clamp_unit(self.count * 1000 / total)
        }
    }

    /// The skill's share of `total` cards, in thousandths.
    pub fn share(&self, total: usize) -> (r: i64)
        requires
            self.count <= MAX_POOL,
            total <= MAX_POOL,
        ensures
            r == self.spec_share(total as int),
            0 <= r <= 1000,
    {
        if total == 0 {
            0
        } else {
            clamp_unit((self.count as i64) * 1000 / (total as i64))
        }
    }
}

/// Per-group running sums of card contributions; every summand except
/// `count` is in thousandths.
#[verifier::ext_equal]
pub ghost struct GroupAcc {
    pub count: int,
    pub due: int,
    pub fail: int,
    pub new_cards: int,
    pub unstable: int,
    pub momentum: int,
    pub priority: int,
    pub stale: int,
}

/// The empty accumulation.
pub open spec fn empty_acc() -> GroupAcc {
    GroupAcc {
        count: 0,
        due: 0,
        fail: 0,
        new_cards: 0,
        unstable: 0,
        momentum: 0,
        priority: 0,
        stale: 0,
    }
}

/// What one card adds to its group's sums. Directions also weigh how
/// recent the card's last failure was (`with_recency`); skills do not.
pub open spec fn card_contribution(
    card: MemoryCard,
    stats: Seq<(u128, CardReviewStats)>,
    now: int,
    with_recency: bool,
) -> GroupAcc {
    let due = spec_due_urgency(card.next_due, now);
    let unstable = spec_clamp_unit(1000 - card.stability);
    let priority = spec_clamp_unit(card.priority as int);
    match stats_view_for(stats, card.id) {
        Some(st) => GroupAcc {
            count: 1,
            due,
            fail: if with_recency {
                spec_fail_component_with_recency(st, now)
            } else {
                spec_fail_component(st)
            },
            new_cards: if st.pass_count + st.fail_count == 0 {
                1000
            } else {
                0
            },
            unstable,
            momentum: spec_momentum(st.consecutive_passes),
            priority,
            stale: spec_staleness(st.last_seen, now),
        },
        None => GroupAcc {
            count: 1,
            due,
            fail: 0,
            new_cards: 1000,
            unstable,
            momentum: 0,
            priority,
            stale: 1000,
        },
    }
}

/// Field-wise sum of two accumulations.
pub open spec fn acc_add(a: GroupAcc, b: GroupAcc) -> GroupAcc {
    GroupAcc {
        count: a.count + b.count,
        due: a.due + b.due,
        fail: a.fail + b.fail,
        new_cards: a.new_cards + b.new_cards,
        unstable: a.unstable + b.unstable,
        momentum: a.momentum + b.momentum,
        priority: a.priority + b.priority,
        stale: a.stale + b.stale,
    }
}

/// The sums of direction `d` over the first `n` pool cards.
pub open spec fn direction_acc(
    cards: Seq<MemoryCard>,
    stats: Seq<(u128, CardReviewStats)>,
    now: int,
    d: u128,
    n: int,
) -> GroupAcc
    decreases n,
{
    if n <= 0 {
        empty_acc()
    } else {
        let prev = direction_acc(cards, stats, now, d, n - 1);
        if cards[n - 1].direction_id == d {
            acc_add(prev, card_contribution(cards[n - 1], stats, now, true))
        } else {
            prev
        }
    }
}

/// The sums of skill `d` over the first `n` pool cards.
pub open spec fn skill_acc(
    cards: Seq<MemoryCard>,
    stats: Seq<(u128, CardReviewStats)>,
    now: int,
    d: u128,
    n: int,
) -> GroupAcc
    decreases n,
{
    if n <= 0 {
        empty_acc()
    } else {
        let prev = skill_acc(cards, stats, now, d, n - 1);
        if cards[n - 1].skill_point_id == Some(d) {
            acc_add(prev, card_contribution(cards[n - 1], stats, now, false))
        } else {
            prev
        }
    }
}

/// The mean of a summed contribution, clamped to the unit interval; zero
/// for an empty group.
pub open spec fn norm(sum: int, count: int) -> int {
    if count <= 0 {
        0
    } else {
        spec_clamp_unit(sum / count)
    }
}

/// The signal of direction `d` over the whole pool.
pub open spec fn spec_direction_signal(
    cards: Seq<MemoryCard>,
    stats: Seq<(u128, CardReviewStats)>,
    now: int,
    d: u128,
) -> DirectionSignal {
    let acc = direction_acc(cards, stats, now, d, cards.len() as int);
    DirectionSignal {
        due_pressure: norm(acc.due, acc.count) as i64,
        fail_pressure: norm(acc.fail, acc.count) as i64,
        new_pressure: norm(acc.new_cards, acc.count) as i64,
        unstable_pressure: norm(acc.unstable, acc.count) as i64,
        momentum_pressure: norm(acc.momentum, acc.count) as i64,
        avg_priority: norm(acc.priority, acc.count) as i64,
        neglect_pressure: norm(acc.stale, acc.count) as i64,
    }
}

/// The mastery level recorded for skill `id`, unassessed when unknown.
pub open spec fn spec_level_for(skills: Seq<SkillPoint>, id: u128) -> SkillLevel
    decreases skills.len(),
{
    if skills.len() == 0 {
        SkillLevel::Unknown
    } else if skills[0].id == id {
        skills[0].level
    } else {
        spec_level_for(skills.drop_first(), id)
    }
}

/// Look up the mastery level recorded for skill `id`.
pub fn level_for(skills: &Vec<SkillPoint>, id: u128) -> (r: SkillLevel)
    ensures
        r == spec_level_for(skills@, id),
{
    proof {
        assert(skills@.skip(0) =~= skills@);
    }
    let mut i: usize = 0;
    while i < skills.len()
        invariant
            i <= skills.len(),
            spec_level_for(skills@, id) == spec_level_for(skills@.skip(i as int), id),
        decreases skills.len() - i,
    {
        proof {
            assert(skills@.skip(i as int)[0] == skills@[i as int]);
            assert(skills@.skip(i as int).drop_first() =~= skills@.skip(i + 1));
        }
        if skills[i].id == id {
            return skills[i].level;
        }
        i = i + 1;
    }
    proof {
        assert(skills@.skip(skills@.len() as int).len() == 0);
    }
    SkillLevel::Unknown
}

/// The signal of skill `d` over the whole pool.
pub open spec fn spec_skill_signal(
    cards: Seq<MemoryCard>,
    stats: Seq<(u128, CardReviewStats)>,
    now: int,
    skills: Seq<SkillPoint>,
    d: u128,
) -> SkillSignal {
    let acc = skill_acc(cards, stats, now, d, cards.len() as int);
    SkillSignal {
        level: spec_level_for(skills, d),
        due_pressure: norm(acc.due, acc.count) as i64,
        fail_pressure: norm(acc.fail, acc.count) as i64,
        new_pressure: norm(acc.new_cards, acc.count) as i64,
        unstable_pressure: norm(acc.unstable, acc.count) as i64,
        momentum_pressure: norm(acc.momentum, acc.count) as i64,
        neglect_pressure: norm(acc.stale, acc.count) as i64,
        avg_priority: norm(acc.priority, acc.count) as i64,
        count: acc.count as usize,
    }
}

/// Whether some pool card belongs to direction `d`.
pub open spec fn direction_present(cards: Seq<MemoryCard>, d: u128) -> bool {
    exists|i: int| 0 <= i < cards.len() && cards[i].direction_id == d
}

/// Whether some pool card carries skill `d`.
pub open spec fn skill_present(cards: Seq<MemoryCard>, d: u128) -> bool {
    exists|i: int| 0 <= i < cards.len() && cards[i].skill_point_id == Some(d)
}

/// Whether the direction listing holds an entry for `d`.
pub open spec fn direction_signal_listed(r: Seq<(u128, DirectionSignal)>, d: u128) -> bool {
    exists|j: int| 0 <= j < r.len() && r[j].0 == d
}

/// Whether the skill listing holds an entry for `d`.
pub open spec fn skill_signal_listed(r: Seq<(u128, SkillSignal)>, d: u128) -> bool {
    exists|j: int| 0 <= j < r.len() && r[j].0 == d
}

/// Every direction signal of the listing is well formed.
pub open spec fn direction_signals_wf(r: Seq<(u128, DirectionSignal)>) -> bool {
    forall|j: int| 0 <= j < r.len() ==> (#[trigger] r[j].1).wf()
}

/// Every skill signal of the listing is well formed.
pub open spec fn skill_signals_wf(r: Seq<(u128, SkillSignal)>) -> bool {
    forall|j: int| 0 <= j < r.len() ==> (#[trigger] r[j].1).wf() && r[j].1.count <= MAX_POOL
}

/// The signal listed for direction `d`, or the zero signal.
pub open spec fn direction_signal_in(r: Seq<(u128, DirectionSignal)>, d: u128) -> DirectionSignal
    decreases r.len(),
{
    if r.len() == 0 {
        DirectionSignal::zero()
    } else if r[0].0 == d {
        r[0].1
    } else {
        direction_signal_in(r.drop_first(), d)
    }
}

/// Look up the signal of direction `d`, falling back to the zero signal.
pub fn find_direction_signal(r: &Vec<(u128, DirectionSignal)>, d: u128) -> (sig: DirectionSignal)
    requires
        direction_signals_wf(r@),
    ensures
        sig == direction_signal_in(r@, d),
        sig.wf(),
{
    proof {
        assert(r@.skip(0) =~= r@);
    }
    let mut i: usize = 0;
    while i < r.len()
        invariant
            i <= r.len(),
            direction_signals_wf(r@),
            direction_signal_in(r@, d) == direction_signal_in(r@.skip(i as int), d),
        decreases r.len() - i,
    {
        proof {
            assert(r@.skip(i as int)[0] == r@[i as int]);
            assert(r@.skip(i as int).drop_first() =~= r@.skip(i + 1));
        }
        if r[i].0 == d {
            return r[i].1;
        }
        i = i + 1;
    }
    proof {
        assert(r@.skip(r@.len() as int).len() == 0);
    }
    Default::default()
}

/// The signal listed for skill `d`, or the zero signal.
pub open spec fn skill_signal_in(r: Seq<(u128, SkillSignal)>, d: u128) -> SkillSignal
    decreases r.len(),
{
    if r.len() == 0 {
        SkillSignal::zero()
    } else if r[0].0 == d {
        r[0].1
    } else {
        skill_signal_in(r.drop_first(), d)
    }
}

/// The signal of the skill a card carries, or the zero signal for a card
/// without one.
pub open spec fn skill_signal_opt(r: Seq<(u128, SkillSignal)>, skill: Option<u128>) -> SkillSignal {
    match skill {
        Some(d) => skill_signal_in(r, d),
        None => SkillSignal::zero(),
    }
}

/// Look up the signal of the skill a card carries, falling back to the
/// zero signal.
pub fn find_skill_signal(r: &Vec<(u128, SkillSignal)>, skill: Option<u128>) -> (sig: SkillSignal)
    requires
        skill_signals_wf(r@),
    ensures
        sig == skill_signal_opt(r@, skill),
        sig.wf(),
        sig.count <= MAX_POOL,
{
    match skill {
        Some(d) => {
            proof {
                assert(skill == Some(d));
                assert(r@.skip(0) =~= r@);
            }
            let mut i: usize = 0;
            while i < r.len()
                invariant
                    i <= r.len(),
                    skill == Some(d),
                    skill_signals_wf(r@),
                    skill_signal_in(r@, d) == skill_signal_in(r@.skip(i as int), d),
                decreases r.len() - i,
            {
                proof {
                    assert(r@.skip(i as int)[0] == r@[i as int]);
                    assert(r@.skip(i as int).drop_first() =~= r@.skip(i + 1));
                }
                if r[i].0 == d {
                    proof {
                        assert(r@.skip(i as int)[0].0 == d);
                        assert(skill_signal_in(r@.skip(i as int), d) == r@[i as int].1);
                        assert(skill_signal_opt(r@, skill) == r@[i as int].1);
                    }
                    return r[i].1;
                }
                i = i + 1;
            }
            proof {
                assert(r@.skip(r@.len() as int).len() == 0);
            }
            Default::default()
        },
        None => Default::default(),
    }
}

/// Exec-side running sums mirroring [`GroupAcc`].
struct AccExec {
    count: i64,
    due: i64,
    fail: i64,
    new_cards: i64,
    unstable: i64,
    momentum: i64,
    priority: i64,
    stale: i64,
}

impl AccExec {
    /// The accumulation this exec value stands for.
    spec fn as_ghost(&self) -> GroupAcc {
        GroupAcc {
            count: self.count as int,
            due: self.due as int,
            fail: self.fail as int,
            new_cards: self.new_cards as int,
            unstable: self.unstable as int,
            momentum: self.momentum as int,
            priority: self.priority as int,
            stale: self.stale as int,
        }
    }

    /// All sums are non-negative and bounded by `n` cards' worth.
    spec fn bounded(&self, n: int) -> bool {
        &&& 0 <= self.count <= n
        &&& 0 <= self.due <= 1000 * n
        &&& 0 <= self.fail <= 1000 * n
        &&& 0 <= self.new_cards <= 1000 * n
        &&& 0 <= self.unstable <= 1000 * n
        &&& 0 <= self.momentum <= 1000 * n
        &&& 0 <= self.priority <= 1000 * n
        &&& 0 <= self.stale <= 1000 * n
    }
}

/// The mean of an accumulated sum, clamped to the unit interval.
fn norm_exec(sum: i64, count: i64) -> (r: i64)
    requires
        0 <= sum,
        0 <= count,
    ensures
        r == norm(sum as int, count as int),
        0 <= r <= 1000,
{
    if count <= 0 {
        0
    } else {
        clamp_unit(sum / count)
    }
}

/// Sum the contributions of every pool card of direction `d` (when
/// `for_direction` holds) or of skill `d` (otherwise).
fn accumulate_group(
    cards: &Vec<MemoryCard>,
    stats: &Vec<(u128, CardReviewStats)>,
    now: i64,
    d: u128,
    for_direction: bool,
) -> (a: AccExec)
    requires
        time_ok(now as int),
        cards_times_ok(cards@),
        stats_list_ok(stats@),
        cards@.len() <= MAX_POOL,
    ensures
        for_direction ==> a.as_ghost() == direction_acc(
            cards@,
            stats@,
            now as int,
            d,
            cards@.len() as int,
        ),
        !for_direction ==> a.as_ghost() == skill_acc(
            cards@,
            stats@,
            now as int,
            d,
            cards@.len() as int,
        ),
        a.bounded(cards@.len() as int),
{
    let mut a = AccExec {
        count: 0,
        due: 0,
        fail: 0,
        new_cards: 0,
        unstable: 0,
        momentum: 0,
        priority: 0,
        stale: 0,
    };
    let mut i: usize = 0;
    while i < cards.len()
        invariant
            i <= cards.len(),
            time_ok(now as int),
            cards_times_ok(cards@),
            stats_list_ok(stats@),
            cards@.len() <= MAX_POOL,
            for_direction ==> a.as_ghost() == direction_acc(cards@, stats@, now as int, d, i as int),
            !for_direction ==> a.as_ghost() == skill_acc(cards@, stats@, now as int, d, i as int),
            a.bounded(i as int),
        decreases cards.len() - i,
    {
        let card = &cards[i];
        let in_group = if for_direction {
            card.direction_id == d
        } else {
            match card.skill_point_id {
                Some(sk) => sk == d,
                None => false,
            }
        };
        if in_group {
            let due = due_urgency(card.next_due, now);
            let unstable = clamp_unit(1000 - clamp_unit(card.stability));
            let priority = clamp_unit(card.priority);
            proof {
                assert(spec_clamp_unit(1000 - spec_clamp_unit(card.stability as int))
                    == spec_clamp_unit(1000 - card.stability as int));
            }
            let (fail, new_cards, momentum_v, stale): (i64, i64, i64, i64) = match stats_for(
                stats,
                card.id,
            ) {
                Some(st) => {
                    proof {
                        let w = choose|w: int|
                            0 <= w < stats@.len() && #[trigger] stats@[w].0 == card.id
                                && stats@[w].1@ == st@ && stats@[w].1.times_ok() == st.times_ok();
                        assert(stats@[w].1.times_ok() && counts_ok(stats@[w].1@));
                    }
                    let fail = if for_direction {
                        fail_component_with_recency(st, now)
                    } else {
                        fail_component(st)
                    };
                    let fresh: i64 = if st.total_reviews() == 0 {
                        1000
                    } else {
                        0
                    };
                    (fail, fresh, momentum(st.consecutive_passes), staleness(st.last_seen, now))
                },
                None => (0, 1000, 0, 1000),
            };
            a = AccExec {
                count: a.count + 1,
                due: a.due + due,
                fail: a.fail + fail,
                new_cards: a.new_cards + new_cards,
                unstable: a.unstable + unstable,
                momentum: a.momentum + momentum_v,
                priority: a.priority + priority,
                stale: a.stale + stale,
            };
        }
        i = i + 1;
        proof {
            if for_direction {
                assert(direction_acc(cards@, stats@, now as int, d, i as int)
                    == if cards@[i - 1].direction_id == d {
                    acc_add(
                        direction_acc(cards@, stats@, now as int, d, i - 1),
                        card_contribution(cards@[i - 1], stats@, now as int, true),
                    )
                } else {
                    direction_acc(cards@, stats@, now as int, d, i - 1)
                });
                assert(a.as_ghost() =~= direction_acc(cards@, stats@, now as int, d, i as int));
            } else {
                assert(skill_acc(cards@, stats@, now as int, d, i as int)
                    == if cards@[i - 1].skill_point_id == Some(d) {
                    acc_add(
                        skill_acc(cards@, stats@, now as int, d, i - 1),
                        card_contribution(cards@[i - 1], stats@, now as int, false),
                    )
                } else {
                    skill_acc(cards@, stats@, now as int, d, i - 1)
                });
                assert(a.as_ghost() =~= skill_acc(cards@, stats@, now as int, d, i as int));
            }
        }
    }
    a
}

/// Derive the pressure signal of every direction with a card in the pool.
/// Each direction id appears exactly once; directions without pool cards
/// get no entry (their signal is the zero signal).
pub fn analyze_direction_signals(
    cards: &Vec<MemoryCard>,
    stats: &Vec<(u128, CardReviewStats)>,
    now: i64,
) -> (r: Vec<(u128, DirectionSignal)>)
    requires
        time_ok(now as int),
        cards_times_ok(cards@),
        stats_list_ok(stats@),
        cards@.len() <= MAX_POOL,
    ensures
        forall|j: int, k: int| 0 <= j < k < r@.len() ==> r@[j].0 != r@[k].0,
        forall|j: int|
            0 <= j < r@.len() ==> #[trigger] r@[j].1 == spec_direction_signal(
                cards@,
                stats@,
                now as int,
                r@[j].0,
            ),
        direction_signals_wf(r@),
        forall|j: int| 0 <= j < r@.len() ==> direction_present(cards@, #[trigger] r@[j].0),
        forall|c: int|
            0 <= c < cards@.len() ==> direction_signal_listed(
                r@,
                (#[trigger] cards@[c]).direction_id,
            ),
{
    let mut ids: Vec<u128> = Vec::new();
    let mut i: usize = 0;
    while i < cards.len()
        invariant
            i <= cards.len(),
            forall|j: int, k: int| 0 <= j < k < ids@.len() ==> ids@[j] != ids@[k],
            forall|j: int| 0 <= j < ids@.len() ==> direction_present(cards@, #[trigger] ids@[j]),
            forall|c: int| 0 <= c < i ==> ids@.contains((#[trigger] cards@[c]).direction_id),
        decreases cards.len() - i,
    {
        let id = cards[i].direction_id;
        if !contains_id(&ids, id) {
            let ghost old_ids = ids@;
            ids.push(id);
            proof {
                assert(direction_present(cards@, id)) by {
                    assert(cards@[i as int].direction_id == id);
                }
                assert forall|c: int| 0 <= c < i + 1 implies ids@.contains(
                    (#[trigger] cards@[c]).direction_id,
                ) by {
                    if c < i {
                        let j = choose|j: int|
                            0 <= j < old_ids.len() && old_ids[j] == cards@[c].direction_id;
                        assert(ids@[j] == cards@[c].direction_id);
                    } else {
                        assert(ids@[old_ids.len() as int] == id);
                    }
                }
                assert forall|j: int, k: int| 0 <= j < k < ids@.len() implies ids@[j] != ids@[k] by {
                    if k == ids@.len() - 1 {
                        if ids@[j] == id {
                            assert(old_ids.contains(id));
                        }
                    }
                }
            }
        } else {
            proof {
                assert(ids@.contains(cards@[i as int].direction_id));
            }
        }
        i = i + 1;
    }

    let mut r: Vec<(u128, DirectionSignal)> = Vec::new();
    let mut k: usize = 0;
    while k < ids.len()
        invariant
            k <= ids.len(),
            r@.len() == k,
            time_ok(now as int),
            cards_times_ok(cards@),
            stats_list_ok(stats@),
            cards@.len() <= MAX_POOL,
            forall|j: int| 0 <= j < k ==> r@[j].0 == ids@[j],
            forall|j: int, m: int| 0 <= j < m < ids@.len() ==> ids@[j] != ids@[m],
            forall|j: int| 0 <= j < ids@.len() ==> direction_present(cards@, #[trigger] ids@[j]),
            forall|j: int|
                0 <= j < k ==> #[trigger] r@[j].1 == spec_direction_signal(
                    cards@,
                    stats@,
                    now as int,
                    r@[j].0,
                ),
            forall|j: int| 0 <= j < k ==> (#[trigger] r@[j].1).wf(),
        decreases ids.len() - k,
    {
        let id = ids[k];
        let a = accumulate_group(cards, stats, now, id, true);
        let sig = DirectionSignal {
            due_pressure: norm_exec(a.due, a.count),
            fail_pressure: norm_exec(a.fail, a.count),
            new_pressure: norm_exec(a.new_cards, a.count),
            unstable_pressure: norm_exec(a.unstable, a.count),
            momentum_pressure: norm_exec(a.momentum, a.count),
            avg_priority: norm_exec(a.priority, a.count),
            neglect_pressure: norm_exec(a.stale, a.count),
        };
        r.push((id, sig));
        k = k + 1;
    }
    proof {
        assert forall|j: int| 0 <= j < r@.len() implies direction_present(
            cards@,
            #[trigger] r@[j].0,
        ) by {
            assert(r@[j].0 == ids@[j]);
        }
        assert forall|c: int| 0 <= c < cards@.len() implies direction_signal_listed(
            r@,
            (#[trigger] cards@[c]).direction_id,
        ) by {
            assert(ids@.contains(cards@[c].direction_id));
            let j = choose|j: int| 0 <= j < ids@.len() && ids@[j] == cards@[c].direction_id;
            assert(r@[j].0 == cards@[c].direction_id);
        }
        assert forall|j: int, k2: int| 0 <= j < k2 < r@.len() implies r@[j].0 != r@[k2].0 by {
            assert(r@[j].0 == ids@[j]);
            assert(r@[k2].0 == ids@[k2]);
        }
    }
    r
}

/// Derive the pressure signal of every skill carried by a pool card.
/// Each skill id appears exactly once; skills without pool cards get no
/// entry (their signal is the zero signal).
pub fn analyze_skill_signals(
    cards: &Vec<MemoryCard>,
    stats: &Vec<(u128, CardReviewStats)>,
    now: i64,
    skills: &Vec<SkillPoint>,
) -> (r: Vec<(u128, SkillSignal)>)
    requires
        time_ok(now as int),
        cards_times_ok(cards@),
        stats_list_ok(stats@),
        cards@.len() <= MAX_POOL,
    ensures
        forall|j: int, k: int| 0 <= j < k < r@.len() ==> r@[j].0 != r@[k].0,
        forall|j: int|
            0 <= j < r@.len() ==> #[trigger] r@[j].1 == spec_skill_signal(
                cards@,
                stats@,
                now as int,
                skills@,
                r@[j].0,
            ),
        skill_signals_wf(r@),
        forall|j: int| 0 <= j < r@.len() ==> skill_present(cards@, #[trigger] r@[j].0),
        forall|c: int|
            0 <= c < cards@.len() ==> ((#[trigger] cards@[c]).skill_point_id matches Some(d)
                ==> skill_signal_listed(r@, d)),
{
    let mut ids: Vec<u128> = Vec::new();
    let mut i: usize = 0;
    while i < cards.len()
        invariant
            i <= cards.len(),
            forall|j: int, k: int| 0 <= j < k < ids@.len() ==> ids@[j] != ids@[k],
            forall|j: int| 0 <= j < ids@.len() ==> skill_present(cards@, #[trigger] ids@[j]),
            forall|c: int|
                0 <= c < i ==> ((#[trigger] cards@[c]).skill_point_id matches Some(d)
                    ==> ids@.contains(d)),
        decreases cards.len() - i,
    {
        if let Some(id) = cards[i].skill_point_id {
            if !contains_id(&ids, id) {
                let ghost old_ids = ids@;
                ids.push(id);
                proof {
                    assert(skill_present(cards@, id)) by {
                        assert(cards@[i as int].skill_point_id == Some(id));
                    }
                    assert forall|c: int|
                        0 <= c < i + 1 implies ((#[trigger] cards@[c]).skill_point_id matches Some(
                        d,
                    ) ==> ids@.contains(d)) by {
                        if c < i {
                            match cards@[c].skill_point_id {
                                Some(sk) => {
                                    let j = choose|j: int|
                                        0 <= j < old_ids.len() && old_ids[j] == sk;
                                    assert(ids@[j] == sk);
                                },
                                None => {},
                            }
                        } else {
                            assert(ids@[old_ids.len() as int] == id);
                        }
                    }
                    assert forall|j: int, k: int|
                        0 <= j < k < ids@.len() implies ids@[j] != ids@[k] by {
                        if k == ids@.len() - 1 {
                            if ids@[j] == id {
                                assert(old_ids.contains(id));
                            }
                        }
                    }
                }
            } else {
                proof {
                    assert(ids@.contains(id));
                }
            }
        }
        i = i + 1;
    }

    let mut r: Vec<(u128, SkillSignal)> = Vec::new();
    let mut k: usize = 0;
    while k < ids.len()
        invariant
            k <= ids.len(),
            r@.len() == k,
            time_ok(now as int),
            cards_times_ok(cards@),
            stats_list_ok(stats@),
            cards@.len() <= MAX_POOL,
            forall|j: int| 0 <= j < k ==> r@[j].0 == ids@[j],
            forall|j: int, m: int| 0 <= j < m < ids@.len() ==> ids@[j] != ids@[m],
            forall|j: int| 0 <= j < ids@.len() ==> skill_present(cards@, #[trigger] ids@[j]),
            forall|j: int|
                0 <= j < k ==> #[trigger] r@[j].1 == spec_skill_signal(
                    cards@,
                    stats@,
                    now as int,
                    skills@,
                    r@[j].0,
                ),
            forall|j: int| 0 <= j < k ==> (#[trigger] r@[j].1).wf() && r@[j].1.count <= MAX_POOL,
        decreases ids.len() - k,
    {
        let id = ids[k];
        let a = accumulate_group(cards, stats, now, id, false);
        let sig = SkillSignal {
            level: level_for(skills, id),
            due_pressure: norm_exec(a.due, a.count),
            fail_pressure: norm_exec(a.fail, a.count),
            new_pressure: norm_exec(a.new_cards, a.count),
            unstable_pressure: norm_exec(a.unstable, a.count),
            momentum_pressure: norm_exec(a.momentum, a.count),
            neglect_pressure: norm_exec(a.stale, a.count),
            avg_priority: norm_exec(a.priority, a.count),
            count: a.count as usize,
        };
        r.push((id, sig));
        k = k + 1;
    }
    proof {
        assert forall|j: int| 0 <= j < r@.len() implies skill_present(
            cards@,
            #[trigger] r@[j].0,
        ) by {
            assert(r@[j].0 == ids@[j]);
        }
        assert forall|c: int|
            0 <= c < cards@.len() implies ((#[trigger] cards@[c]).skill_point_id matches Some(d)
            ==> skill_signal_listed(r@, d)) by {
            match cards@[c].skill_point_id {
                Some(sk) => {
                    assert(ids@.contains(sk));
                    let j = choose|j: int| 0 <= j < ids@.len() && ids@[j] == sk;
                    assert(r@[j].0 == sk);
                },
                None => {},
            }
        }
        assert forall|j: int, k2: int| 0 <= j < k2 < r@.len() implies r@[j].0 != r@[k2].0 by {
            assert(r@[j].0 == ids@[j]);
            assert(r@[k2].0 == ids@[k2]);
        }
    }
    r
}

} // verus!
