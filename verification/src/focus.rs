//! Per-segment focus summaries: tallies of notable cards, highlight
//! lines, and direction/skill share breakdowns with qualitative signals.

use vstd::prelude::*;

use crate::allocator::{
    lemma_extend_inv, lemma_full_selection, lemma_perm_complete, sel_inv, select_top,
};
use crate::card::{cards_times_ok, MemoryCard};
use crate::completion::{spec_direction_name_for, spec_skill_name_for};
use crate::direction::{spec_stage_for, Direction};
use crate::scoring::{
    due_urgency, fail_recency, fail_streak, momentum, spec_due_urgency, spec_fail_recency,
    spec_fail_streak, spec_momentum, spec_staleness, staleness,
};
use crate::signals::{
    skill_signal_in, skill_signals_wf, spec_level_for, SkillSignal, MAX_POOL,
};
use crate::skill::SkillPoint;
use crate::stats::{
    counts_ok, fail_rate, spec_fail_rate, stats_for, stats_list_ok, stats_view_for,
    CardReviewStats,
};
use crate::units::{clamp_unit, spec_clamp_unit, time_ok};
use crate::vecs::{contains_id, repeat_bool};
use crate::workout::{
    DirectionFocusSignal, FocusHighlight, SegmentFocusCounts, SkillFocusSignal, WorkoutPhase,
    WorkoutSegmentDirectionFocus, WorkoutSegmentFocus, WorkoutSegmentSkillFocus,
};

verus! {

/// Ghost tallies of notable cards over a prefix of a segment.
#[verifier::ext_equal]
pub ghost struct FocusTally {
    pub due: int,
    pub new_cards: int,
    pub failing: int,
    pub unstable: int,
    pub relevant: int,
    pub momentum: int,
    pub neglected: int,
}

/// The empty tally.
pub open spec fn empty_tally() -> FocusTally {
    FocusTally {
        due: 0,
        new_cards: 0,
        failing: 0,
        unstable: 0,
        relevant: 0,
        momentum: 0,
        neglected: 0,
    }
}

/// The staleness of one card under the recorded statistics.
pub open spec fn card_staleness(
    card: MemoryCard,
    stats: Seq<(u128, CardReviewStats)>,
    now: int,
) -> int {
    match stats_view_for(stats, card.id) {
        Some(v) => spec_staleness(v.last_seen, now),
        None => 1000,
    }
}

/// Tallies over the first `n` cards of a segment: how many are due soon,
/// new, failing, unstable, highly relevant, on a pass streak, or
/// neglected.
pub open spec fn focus_tally(
    cards: Seq<MemoryCard>,
    stats: Seq<(u128, CardReviewStats)>,
    now: int,
    n: int,
) -> FocusTally
    decreases n,
{
    if n <= 0 {
        empty_tally()
    } else {
        let prev = focus_tally(cards, stats, now, n - 1);
        let card = cards[n - 1];
        let due = spec_due_urgency(card.next_due, now);
        let stale = card_staleness(card, stats, now);
        let (is_new, is_failing, has_momentum) = match stats_view_for(stats, card.id) {
            Some(v) => (
                v.pass_count + v.fail_count == 0,
                v.consecutive_fails > 0 || spec_fail_rate(v) >= 400,
                v.consecutive_passes >= 2,
            ),
            None => (true, false, false),
        };
        FocusTally {
            due: prev.due + if due > 600 {
                1int
            } else {
                0int
            },
            new_cards: prev.new_cards + if is_new {
                1int
            } else {
                0int
            },
            failing: prev.failing + if is_failing {
                1int
            } else {
                0int
            },
            unstable: prev.unstable + if card.stability < 450 {
                1int
            } else {
                0int
            },
            relevant: prev.relevant + if card.relevance >= 650 {
                1int
            } else {
                0int
            },
            momentum: prev.momentum + if has_momentum {
                1int
            } else {
                0int
            },
            neglected: prev.neglected + if stale >= 700 {
                1int
            } else {
                0int
            },
        }
    }
}

/// Count the segment's notable cards.
#[verifier::spinoff_prover]
pub fn tally_segment(
    cards: &Vec<MemoryCard>,
    stats: &Vec<(u128, CardReviewStats)>,
    now: i64,
) -> (t: SegmentFocusCounts)
    requires
        time_ok(now as int),
        cards_times_ok(cards@),
        stats_list_ok(stats@),
        cards@.len() <= MAX_POOL,
    ensures
        ({
            let spec = focus_tally(cards@, stats@, now as int, cards@.len() as int);
            &&& t.due_count == spec.due
            &&& t.new_count == spec.new_cards
            &&& t.fail_count == spec.failing
            &&& t.unstable_count == spec.unstable
            &&& t.high_relevance_count == spec.relevant
            &&& t.momentum_count == spec.momentum
            &&& t.neglected_count == spec.neglected
            &&& t.total == cards@.len()
        }),
{
    let mut t = SegmentFocusCounts {
        due_count: 0,
        new_count: 0,
        fail_count: 0,
        unstable_count: 0,
        high_relevance_count: 0,
        momentum_count: 0,
        neglected_count: 0,
        total: cards.len(),
    };
    let mut i: usize = 0;
    while i < cards.len()
        invariant
            i <= cards.len(),
            time_ok(now as int),
            cards_times_ok(cards@),
            stats_list_ok(stats@),
            cards@.len() <= MAX_POOL,
            t.total == cards@.len(),
            t.due_count <= i && t.new_count <= i && t.fail_count <= i && t.unstable_count <= i
                && t.high_relevance_count <= i && t.momentum_count <= i && t.neglected_count <= i,
            ({
                let spec = focus_tally(cards@, stats@, now as int, i as int);
                &&& t.due_count == spec.due
                &&& t.new_count == spec.new_cards
                &&& t.fail_count == spec.failing
                &&& t.unstable_count == spec.unstable
                &&& t.high_relevance_count == spec.relevant
                &&& t.momentum_count == spec.momentum
                &&& t.neglected_count == spec.neglected
            }),
        decreases cards.len() - i,
    {
        let card = &cards[i];
        let due = due_urgency(card.next_due, now);
        let (stale, is_new, is_failing, has_momentum): (i64, bool, bool, bool) = match stats_for(
            stats,
            card.id,
        ) {
            Some(st) => {
                proof {
                    let w = choose|w: int|
                        0 <= w < stats@.len() && #[trigger] stats@[w].0 == card.id && stats@[w].1@
                            == st@ && stats@[w].1.times_ok() == st.times_ok();
                    assert(stats@[w].1.times_ok() && counts_ok(stats@[w].1@));
                }
                let fr = fail_rate(st);
                (
                    staleness(st.last_seen, now),
                    st.total_reviews() == 0,
                    st.consecutive_fails > 0 || fr >= 400,
                    st.consecutive_passes >= 2,
                )
            },
            None => (1000, true, false, false),
        };
        if due > 600 {
            t.due_count = t.due_count + 1;
        }
        if is_new {
            t.new_count = t.new_count + 1;
        }
        if is_failing {
            t.fail_count = t.fail_count + 1;
        }
        if card.stability < 450 {
            t.unstable_count = t.unstable_count + 1;
        }
        if card.relevance >= 650 {
            t.high_relevance_count = t.high_relevance_count + 1;
        }
        if has_momentum {
            t.momentum_count = t.momentum_count + 1;
        }
        if stale >= 700 {
            t.neglected_count = t.neglected_count + 1;
        }
        i = i + 1;
    }
    t
}

/// The highlight lines a phase derives from its tallies, before the skill
/// highlights are appended: each phase surfaces the counts it cares most
/// about, in a fixed order.
pub open spec fn spec_count_highlights(phase: WorkoutPhase, t: SegmentFocusCounts) -> Seq<
    FocusHighlight,
> {
    match phase {
        WorkoutPhase::Quiz => {
            let l1: Seq<FocusHighlight> = if t.due_count > 0 {
                seq![FocusHighlight::DueCards { count: t.due_count }]
            } else {
                Seq::empty()
            };
            let l2 = if t.new_count > 0 {
                l1 + seq![FocusHighlight::NewCards { count: t.new_count }]
            } else {
                l1
            };
            let l3 = if t.unstable_count > 0 {
                l2 + seq![FocusHighlight::UnstableCards { count: t.unstable_count }]
            } else {
                l2
            };
            if t.neglected_count > 0 {
                l3 + seq![FocusHighlight::NeglectedCards { count: t.neglected_count }]
            } else {
                l3
            }
        },
        WorkoutPhase::Apply => {
            let l1: Seq<FocusHighlight> = if t.high_relevance_count > 0 {
                seq![FocusHighlight::HighRelevanceCards { count: t.high_relevance_count }]
            } else {
                Seq::empty()
            };
            let l2 = if t.momentum_count > 0 {
                l1 + seq![FocusHighlight::MomentumCards { count: t.momentum_count }]
            } else {
                l1
            };
            let l3 = if t.new_count > 0 {
                l2 + seq![FocusHighlight::NewCards { count: t.new_count }]
            } else {
                l2
            };
            if t.neglected_count > 0 {
                l3 + seq![FocusHighlight::NeglectedCards { count: t.neglected_count }]
            } else {
                l3
            }
        },
        WorkoutPhase::Review => {
            let l1: Seq<FocusHighlight> = if t.fail_count > 0 {
                seq![FocusHighlight::RecentFailures { count: t.fail_count }]
            } else {
                Seq::empty()
            };
            let l2 = if t.unstable_count > 0 {
                l1 + seq![FocusHighlight::UnstableCards { count: t.unstable_count }]
            } else {
                l1
            };
            let l3 = if t.due_count > 0 {
                l2 + seq![FocusHighlight::DueCards { count: t.due_count }]
            } else {
                l2
            };
            if t.neglected_count > 0 {
                l3 + seq![FocusHighlight::NeglectedCards { count: t.neglected_count }]
            } else {
                l3
            }
        },
    }
}

/// Derive a phase's count highlights.
pub fn count_highlights(phase: WorkoutPhase, t: SegmentFocusCounts) -> (r: Vec<FocusHighlight>)
    ensures
        r@ == spec_count_highlights(phase, t),
{
    let mut r: Vec<FocusHighlight> = Vec::new();
    match phase {
        WorkoutPhase::Quiz => {
            if t.due_count > 0 {
                r.push(FocusHighlight::DueCards { count: t.due_count });
            }
            if t.new_count > 0 {
                r.push(FocusHighlight::NewCards { count: t.new_count });
            }
            if t.unstable_count > 0 {
                r.push(FocusHighlight::UnstableCards { count: t.unstable_count });
            }
            if t.neglected_count > 0 {
                r.push(FocusHighlight::NeglectedCards { count: t.neglected_count });
            }
        },
        WorkoutPhase::Apply => {
            if t.high_relevance_count > 0 {
                r.push(FocusHighlight::HighRelevanceCards { count: t.high_relevance_count });
            }
            if t.momentum_count > 0 {
                r.push(FocusHighlight::MomentumCards { count: t.momentum_count });
            }
            if t.new_count > 0 {
                r.push(FocusHighlight::NewCards { count: t.new_count });
            }
            if t.neglected_count > 0 {
                r.push(FocusHighlight::NeglectedCards { count: t.neglected_count });
            }
        },
        WorkoutPhase::Review => {
            if t.fail_count > 0 {
                r.push(FocusHighlight::RecentFailures { count: t.fail_count });
            }
            if t.unstable_count > 0 {
                r.push(FocusHighlight::UnstableCards { count: t.unstable_count });
            }
            if t.due_count > 0 {
                r.push(FocusHighlight::DueCards { count: t.due_count });
            }
            if t.neglected_count > 0 {
                r.push(FocusHighlight::NeglectedCards { count: t.neglected_count });
            }
        },
    }
    proof {
        assert(r@ =~= spec_count_highlights(phase, t));
    }
    r
}

/// Which group a segment bucket collects: one direction's cards or one
/// skill's cards.
#[derive(Debug, Clone, Copy, PartialEq, Eq, Structural)]
pub enum FocusGroup {
    Direction { id: u128 },
    Skill { id: u128 },
}

/// Whether a card belongs to the bucket's group.
pub open spec fn focus_group_matches(g: FocusGroup, card: MemoryCard) -> bool {
    match g {
        FocusGroup::Direction { id } => card.direction_id == id,
        FocusGroup::Skill { id } => card.skill_point_id == Some(id),
    }
}

/// Ghost sums of one group's cards within a segment; every summand except
/// `count` is in thousandths.
#[verifier::ext_equal]
pub ghost struct FocusBucket {
    pub count: int,
    pub due: int,
    pub new_cards: int,
    pub fail: int,
    pub unstable: int,
    pub momentum: int,
    pub recent_fail: int,
    pub stale: int,
}

/// The empty bucket.
pub open spec fn empty_bucket() -> FocusBucket {
    FocusBucket {
        count: 0,
        due: 0,
        new_cards: 0,
        fail: 0,
        unstable: 0,
        momentum: 0,
        recent_fail: 0,
        stale: 0,
    }
}

/// The bucket of group `g` over the first `n` segment cards.
pub open spec fn focus_bucket(
    cards: Seq<MemoryCard>,
    stats: Seq<(u128, CardReviewStats)>,
    now: int,
    g: FocusGroup,
    n: int,
) -> FocusBucket
    decreases n,
{
    if n <= 0 {
        empty_bucket()
    } else {
        let prev = focus_bucket(cards, stats, now, g, n - 1);
        let card = cards[n - 1];
        if focus_group_matches(g, card) {
            let due = spec_due_urgency(card.next_due, now);
            let unstable = spec_clamp_unit(1000 - card.stability);
            match stats_view_for(stats, card.id) {
                Some(v) => FocusBucket {
                    count: prev.count + 1,
                    due: prev.due + due,
                    new_cards: prev.new_cards + if v.pass_count + v.fail_count == 0 {
                        1000int
                    } else {
                        0int
                    },
                    fail: prev.fail + (600 * spec_fail_rate(v) + 200 * spec_fail_streak(
                        v.consecutive_fails,
                    )) / 1000,
                    unstable: prev.unstable + unstable,
                    momentum: prev.momentum + spec_momentum(v.consecutive_passes),
                    recent_fail: prev.recent_fail + if v.last_fail_at is Some {
                        spec_fail_recency(v.last_fail_at, now)
                    } else {
                        0int
                    },
                    stale: prev.stale + spec_staleness(v.last_seen, now),
                },
                None => FocusBucket {
                    count: prev.count + 1,
                    due: prev.due + due,
                    new_cards: prev.new_cards + 1000,
                    fail: prev.fail,
                    unstable: prev.unstable + unstable,
                    momentum: prev.momentum,
                    recent_fail: prev.recent_fail,
                    stale: prev.stale + 1000,
                },
            }
        } else {
            prev
        }
    }
}

/// The mean of a bucket sum, clamped to the unit interval.
pub open spec fn bucket_avg(sum: int, count: int) -> int {
    if count <= 0 {
        0
    } else {
        spec_clamp_unit(sum / count)
    }
}

/// A sequence capped at three entries.
pub open spec fn cap3<T>(s: Seq<T>) -> Seq<T> {
    if s.len() <= 3 {
        s
    } else {
        s.take(3)
    }
}

/// The failure tag of a direction's bucket.
pub open spec fn dir_sig_fail(b: FocusBucket) -> Seq<DirectionFocusSignal> {
    if bucket_avg(b.fail, b.count) >= 450 {
        seq![DirectionFocusSignal::HighFailPressure]
    } else if b.fail > 0 {
        seq![DirectionFocusSignal::SomeFailures]
    } else {
        Seq::empty()
    }
}

/// The due tag of a direction's bucket.
pub open spec fn dir_sig_due(b: FocusBucket) -> Seq<DirectionFocusSignal> {
    if bucket_avg(b.due, b.count) >= 500 {
        seq![DirectionFocusSignal::ManyDueSoon]
    } else if b.due > 0 {
        seq![DirectionFocusSignal::SomeDueCards]
    } else {
        Seq::empty()
    }
}

/// The new-card tag of a direction's bucket.
pub open spec fn dir_sig_new(b: FocusBucket) -> Seq<DirectionFocusSignal> {
    if bucket_avg(b.new_cards, b.count) >= 500 {
        seq![DirectionFocusSignal::ManyNewCards]
    } else if b.new_cards > 0 {
        seq![DirectionFocusSignal::SomeNewCards]
    } else {
        Seq::empty()
    }
}

/// The stability tag of a direction's bucket.
pub open spec fn dir_sig_unstable(b: FocusBucket) -> Seq<DirectionFocusSignal> {
    if bucket_avg(b.unstable, b.count) >= 400 {
        seq![DirectionFocusSignal::LowStability]
    } else {
        Seq::empty()
    }
}

/// The momentum tag of a direction's bucket.
pub open spec fn dir_sig_momentum(b: FocusBucket) -> Seq<DirectionFocusSignal> {
    if bucket_avg(b.momentum, b.count) >= 450 {
        seq![DirectionFocusSignal::KeepMomentum]
    } else {
        Seq::empty()
    }
}

/// The recent-failure tag of a direction's bucket (suppressed when the
/// failure pressure already leads).
pub open spec fn dir_sig_recent(b: FocusBucket) -> Seq<DirectionFocusSignal> {
    if bucket_avg(b.recent_fail, b.count) >= 400 && bucket_avg(b.fail, b.count) < 450 {
        seq![DirectionFocusSignal::RecentFailures]
    } else {
        Seq::empty()
    }
}

/// The staleness tag of a direction's bucket.
pub open spec fn dir_sig_stale(b: FocusBucket) -> Seq<DirectionFocusSignal> {
    if bucket_avg(b.stale, b.count) >= 500 {
        seq![DirectionFocusSignal::LongUnpracticed]
    } else if bucket_avg(b.stale, b.count) >= 300 {
        seq![DirectionFocusSignal::SomeStaleCards]
    } else {
        Seq::empty()
    }
}

/// The signal tags of one direction's bucket, in a fixed order, at most
/// three of them.
pub open spec fn spec_direction_focus_signals(b: FocusBucket) -> Seq<DirectionFocusSignal> {
    cap3(
        dir_sig_fail(b) + dir_sig_due(b) + dir_sig_new(b) + dir_sig_unstable(b) + dir_sig_momentum(
            b,
        ) + dir_sig_recent(b) + dir_sig_stale(b),
    )
}

/// The failure tag of a skill's bucket.
pub open spec fn skill_sig_fail(b: FocusBucket) -> Seq<SkillFocusSignal> {
    if bucket_avg(b.fail, b.count) >= 450 {
        seq![SkillFocusSignal::HighFailPressure]
    } else if bucket_avg(b.fail, b.count) >= 250 {
        seq![SkillFocusSignal::WatchFailures]
    } else {
        Seq::empty()
    }
}

/// The due tag of a skill's bucket.
pub open spec fn skill_sig_due(b: FocusBucket) -> Seq<SkillFocusSignal> {
    if bucket_avg(b.due, b.count) >= 500 {
        seq![SkillFocusSignal::ManyDueSoon]
    } else {
        Seq::empty()
    }
}

/// The new-card tag of a skill's bucket.
pub open spec fn skill_sig_new(b: FocusBucket) -> Seq<SkillFocusSignal> {
    if bucket_avg(b.new_cards, b.count) >= 400 {
        seq![SkillFocusSignal::ManyNewCards]
    } else {
        Seq::empty()
    }
}

/// The staleness tag of a skill's bucket.
pub open spec fn skill_sig_stale(b: FocusBucket) -> Seq<SkillFocusSignal> {
    if bucket_avg(b.stale, b.count) >= 450 {
        seq![SkillFocusSignal::LongUnpracticed]
    } else {
        Seq::empty()
    }
}

/// The momentum tag of a skill's bucket.
pub open spec fn skill_sig_momentum(b: FocusBucket) -> Seq<SkillFocusSignal> {
    if bucket_avg(b.momentum, b.count) >= 500 {
        seq![SkillFocusSignal::KeepMomentum]
    } else {
        Seq::empty()
    }
}

/// The signal tags of one skill's bucket: its mastery level first, then
/// at most two pressure tags.
pub open spec fn spec_skill_focus_signals(b: FocusBucket, level: crate::skill::SkillLevel) -> Seq<
    SkillFocusSignal,
> {
    cap3(
        seq![SkillFocusSignal::Level { level }] + skill_sig_fail(b) + skill_sig_due(b)
            + skill_sig_new(b) + skill_sig_stale(b) + skill_sig_momentum(b),
    )
}

/// Exec-side bucket sums mirroring [`FocusBucket`].
struct BucketExec {
    count: i64,
    due: i64,
    new_cards: i64,
    fail: i64,
    unstable: i64,
    momentum: i64,
    recent_fail: i64,
    stale: i64,
}

impl BucketExec {
    /// The bucket this exec value stands for.
    spec fn as_ghost(&self) -> FocusBucket {
        FocusBucket {
            count: self.count as int,
            due: self.due as int,
            new_cards: self.new_cards as int,
            fail: self.fail as int,
            unstable: self.unstable as int,
            momentum: self.momentum as int,
            recent_fail: self.recent_fail as int,
            stale: self.stale as int,
        }
    }

    /// All sums are bounded by `n` cards' worth.
    spec fn bounded(&self, n: int) -> bool {
        &&& 0 <= self.count <= n
        &&& 0 <= self.due <= 1000 * n
        &&& 0 <= self.new_cards <= 1000 * n
        &&& 0 <= self.fail <= 1000 * n
        &&& 0 <= self.unstable <= 1000 * n
        &&& 0 <= self.momentum <= 1000 * n
        &&& 0 <= self.recent_fail <= 1000 * n
        &&& 0 <= self.stale <= 1000 * n
    }
}

/// Sum one group's bucket over the segment.
#[verifier::spinoff_prover]
fn accumulate_bucket(
    cards: &Vec<MemoryCard>,
    stats: &Vec<(u128, CardReviewStats)>,
    now: i64,
    g: FocusGroup,
) -> (b: BucketExec)
    requires
        time_ok(now as int),
        cards_times_ok(cards@),
        stats_list_ok(stats@),
        cards@.len() <= MAX_POOL,
    ensures
        b.as_ghost() == focus_bucket(cards@, stats@, now as int, g, cards@.len() as int),
        b.bounded(cards@.len() as int),
{
    let mut b = BucketExec {
        count: 0,
        due: 0,
        new_cards: 0,
        fail: 0,
        unstable: 0,
        momentum: 0,
        recent_fail: 0,
        stale: 0,
    };
    let mut i: usize = 0;
    while i < cards.len()
        invariant
            i <= cards.len(),
            time_ok(now as int),
            cards_times_ok(cards@),
            stats_list_ok(stats@),
            cards@.len() <= MAX_POOL,
            b.as_ghost() == focus_bucket(cards@, stats@, now as int, g, i as int),
            b.bounded(i as int),
        decreases cards.len() - i,
    {
        let card = &cards[i];
        let in_group = match g {
            FocusGroup::Direction { id } => card.direction_id == id,
            FocusGroup::Skill { id } => match card.skill_point_id {
                Some(sk) => sk == id,
                None => false,
            },
        };
        if in_group {
            let due = due_urgency(card.next_due, now);
            let unstable = clamp_unit(1000 - clamp_unit(card.stability));
            proof {
                assert(spec_clamp_unit(1000 - spec_clamp_unit(card.stability as int))
                    == spec_clamp_unit(1000 - card.stability));
            }
            match stats_for(stats, card.id) {
                Some(st) => {
                    proof {
                        let w = choose|w: int|
                            0 <= w < stats@.len() && #[trigger] stats@[w].0 == card.id
                                && stats@[w].1@ == st@ && stats@[w].1.times_ok() == st.times_ok();
                        assert(stats@[w].1.times_ok() && counts_ok(stats@[w].1@));
                    }
                    let fr = fail_rate(st);
                    let streak = fail_streak(st.consecutive_fails);
                    let new_add: i64 = if st.total_reviews() == 0 {
                        1000
                    } else {
                        0
                    };
                    let recent_add: i64 = match st.last_fail_at {
                        Some(_) => fail_recency(st.last_fail_at, now),
                        None => 0,
                    };
                    b = BucketExec {
                        count: b.count + 1,
                        due: b.due + due,
                        new_cards: b.new_cards + new_add,
                        fail: b.fail + (600 * fr + 200 * streak) / 1000,
                        unstable: b.unstable + unstable,
                        momentum: b.momentum + momentum(st.consecutive_passes),
                        recent_fail: b.recent_fail + recent_add,
                        stale: b.stale + staleness(st.last_seen, now),
                    };
                },
                None => {
                    b = BucketExec {
                        count: b.count + 1,
                        due: b.due + due,
                        new_cards: b.new_cards + 1000,
                        fail: b.fail,
                        unstable: b.unstable + unstable,
                        momentum: b.momentum,
                        recent_fail: b.recent_fail,
                        stale: b.stale + 1000,
                    };
                },
            }
        }
        i = i + 1;
        proof {
            assert(b.as_ghost() =~= focus_bucket(cards@, stats@, now as int, g, i as int));
        }
    }
    b
}

/// The mean of a bucket sum, clamped to the unit interval.
fn bucket_avg_exec(sum: i64, count: i64) -> (r: i64)
    requires
        0 <= sum,
        0 <= count,
    ensures
        r == bucket_avg(sum as int, count as int),
        0 <= r <= 1000,
{
    if count <= 0 {
        0
    } else {
        clamp_unit(sum / count)
    }
}

/// Append one conditional tag stage to the signal list.
fn push_dir_fail(r: &mut Vec<DirectionFocusSignal>, b: &BucketExec, Ghost(n): Ghost<int>)
    requires
        b.bounded(n),
    ensures
        final(r)@ == old(r)@ + dir_sig_fail(b.as_ghost()),
{
    let ghost before = r@;
    if bucket_avg_exec(b.fail, b.count) >= 450 {
        r.push(DirectionFocusSignal::HighFailPressure);
    } else if b.fail > 0 {
        r.push(DirectionFocusSignal::SomeFailures);
    }
    proof {
        assert(r@ =~= before + dir_sig_fail(b.as_ghost()));
    }
}

/// Append one conditional tag stage to the signal list.
fn push_dir_due(r: &mut Vec<DirectionFocusSignal>, b: &BucketExec, Ghost(n): Ghost<int>)
    requires
        b.bounded(n),
    ensures
        final(r)@ == old(r)@ + dir_sig_due(b.as_ghost()),
{
    let ghost before = r@;
    if bucket_avg_exec(b.due, b.count) >= 500 {
        r.push(DirectionFocusSignal::ManyDueSoon);
    } else if b.due > 0 {
        r.push(DirectionFocusSignal::SomeDueCards);
    }
    proof {
        assert(r@ =~= before + dir_sig_due(b.as_ghost()));
    }
}

/// Append one conditional tag stage to the signal list.
fn push_dir_new(r: &mut Vec<DirectionFocusSignal>, b: &BucketExec, Ghost(n): Ghost<int>)
    requires
        b.bounded(n),
    ensures
        final(r)@ == old(r)@ + dir_sig_new(b.as_ghost()),
{
    let ghost before = r@;
    if bucket_avg_exec(b.new_cards, b.count) >= 500 {
        r.push(DirectionFocusSignal::ManyNewCards);
    } else if b.new_cards > 0 {
        r.push(DirectionFocusSignal::SomeNewCards);
    }
    proof {
        assert(r@ =~= before + dir_sig_new(b.as_ghost()));
    }
}

/// Append one conditional tag stage to the signal list.
fn push_dir_rest(r: &mut Vec<DirectionFocusSignal>, b: &BucketExec, Ghost(n): Ghost<int>)
    requires
        b.bounded(n),
    ensures
        final(r)@ == old(r)@ + dir_sig_unstable(b.as_ghost()) + dir_sig_momentum(b.as_ghost())
            + dir_sig_recent(b.as_ghost()) + dir_sig_stale(b.as_ghost()),
{
    let ghost g = b.as_ghost();
    let ghost before = r@;
    if bucket_avg_exec(b.unstable, b.count) >= 400 {
        r.push(DirectionFocusSignal::LowStability);
    }
    proof {
        assert(r@ =~= before + dir_sig_unstable(g));
    }
    let ghost s1 = r@;
    if bucket_avg_exec(b.momentum, b.count) >= 450 {
        r.push(DirectionFocusSignal::KeepMomentum);
    }
    proof {
        assert(r@ =~= s1 + dir_sig_momentum(g));
    }
    let ghost s2 = r@;
    if bucket_avg_exec(b.recent_fail, b.count) >= 400 && bucket_avg_exec(b.fail, b.count) < 450 {
        r.push(DirectionFocusSignal::RecentFailures);
    }
    proof {
        assert(r@ =~= s2 + dir_sig_recent(g));
    }
    let ghost s3 = r@;
    let stale_ratio = bucket_avg_exec(b.stale, b.count);
    if stale_ratio >= 500 {
        r.push(DirectionFocusSignal::LongUnpracticed);
    } else if stale_ratio >= 300 {
        r.push(DirectionFocusSignal::SomeStaleCards);
    }
    proof {
        assert(r@ =~= s3 + dir_sig_stale(g));
        assert(r@ =~= before + dir_sig_unstable(g) + dir_sig_momentum(g) + dir_sig_recent(g)
            + dir_sig_stale(g));
    }
}

/// Derive one direction's signal tags from its bucket.
fn direction_focus_signals(b: &BucketExec, Ghost(n): Ghost<int>) -> (r: Vec<DirectionFocusSignal>)
    requires
        b.bounded(n),
    ensures
        r@ == spec_direction_focus_signals(b.as_ghost()),
{
    let ghost g = b.as_ghost();
    let mut r: Vec<DirectionFocusSignal> = Vec::new();
    push_dir_fail(&mut r, b, Ghost(n));
    push_dir_due(&mut r, b, Ghost(n));
    push_dir_new(&mut r, b, Ghost(n));
    push_dir_rest(&mut r, b, Ghost(n));
    proof {
        assert(r@ =~= dir_sig_fail(g) + dir_sig_due(g) + dir_sig_new(g) + dir_sig_unstable(g)
            + dir_sig_momentum(g) + dir_sig_recent(g) + dir_sig_stale(g));
    }
    let ghost full = r@;
    if r.len() > 3 {
        r.truncate(3);
    }
    proof {
        assert(r@ =~= cap3(full));
    }
    r
}

/// Append one conditional tag stage to the signal list.
fn push_skill_fail(r: &mut Vec<SkillFocusSignal>, b: &BucketExec, Ghost(n): Ghost<int>)
    requires
        b.bounded(n),
    ensures
        final(r)@ == old(r)@ + skill_sig_fail(b.as_ghost()),
{
    let ghost before = r@;
    let fail_ratio = bucket_avg_exec(b.fail, b.count);
    if fail_ratio >= 450 {
        r.push(SkillFocusSignal::HighFailPressure);
    } else if fail_ratio >= 250 {
        r.push(SkillFocusSignal::WatchFailures);
    }
    proof {
        assert(r@ =~= before + skill_sig_fail(b.as_ghost()));
    }
}

/// Append the remaining conditional tag stages to the signal list.
fn push_skill_rest(r: &mut Vec<SkillFocusSignal>, b: &BucketExec, Ghost(n): Ghost<int>)
    requires
        b.bounded(n),
    ensures
        final(r)@ == old(r)@ + skill_sig_due(b.as_ghost()) + skill_sig_new(b.as_ghost())
            + skill_sig_stale(b.as_ghost()) + skill_sig_momentum(b.as_ghost()),
{
    let ghost g = b.as_ghost();
    let ghost before = r@;
    if bucket_avg_exec(b.due, b.count) >= 500 {
        r.push(SkillFocusSignal::ManyDueSoon);
    }
    proof {
        assert(r@ =~= before + skill_sig_due(g));
    }
    let ghost s1 = r@;
    if bucket_avg_exec(b.new_cards, b.count) >= 400 {
        r.push(SkillFocusSignal::ManyNewCards);
    }
    proof {
        assert(r@ =~= s1 + skill_sig_new(g));
    }
    let ghost s2 = r@;
    if bucket_avg_exec(b.stale, b.count) >= 450 {
        r.push(SkillFocusSignal::LongUnpracticed);
    }
    proof {
        assert(r@ =~= s2 + skill_sig_stale(g));
    }
    let ghost s3 = r@;
    if bucket_avg_exec(b.momentum, b.count) >= 500 {
        r.push(SkillFocusSignal::KeepMomentum);
    }
    proof {
        assert(r@ =~= s3 + skill_sig_momentum(g));
        assert(r@ =~= before + skill_sig_due(g) + skill_sig_new(g) + skill_sig_stale(g)
            + skill_sig_momentum(g));
    }
}

/// Derive one skill's signal tags from its bucket and level.
fn skill_focus_signals(
    b: &BucketExec,
    level: crate::skill::SkillLevel,
    Ghost(n): Ghost<int>,
) -> (r: Vec<SkillFocusSignal>)
    requires
        b.bounded(n),
    ensures
        r@ == spec_skill_focus_signals(b.as_ghost(), level),
{
    let ghost g = b.as_ghost();
    let mut r: Vec<SkillFocusSignal> = Vec::new();
    r.push(SkillFocusSignal::Level { level });
    proof {
        assert(r@ =~= seq![SkillFocusSignal::Level { level }]);
    }
    push_skill_fail(&mut r, b, Ghost(n));
    push_skill_rest(&mut r, b, Ghost(n));
    proof {
        assert(r@ =~= seq![SkillFocusSignal::Level { level }] + skill_sig_fail(g) + skill_sig_due(
            g,
        ) + skill_sig_new(g) + skill_sig_stale(g) + skill_sig_momentum(g));
    }
    let ghost full = r@;
    if r.len() > 3 {
        r.truncate(3);
    }
    proof {
        assert(r@ =~= cap3(full));
    }
    r
}

/// What one direction's focus entry must say, at the view level.
pub open spec fn dir_focus_entry_ok(
    v: crate::workout::SegmentDirectionFocusView,
    cards: Seq<MemoryCard>,
    stats: Seq<(u128, CardReviewStats)>,
    now: int,
    directions: Seq<Direction>,
    d: u128,
) -> bool {
    let b = focus_bucket(cards, stats, now, FocusGroup::Direction { id: d }, cards.len() as int);
    &&& v.direction_id == d
    &&& v.name == spec_direction_name_for(directions, d)
    &&& v.stage == spec_stage_for(directions, d)
    &&& v.count == b.count
    &&& v.share == crate::completion::spec_rate_milli(b.count, cards.len() as int)
    &&& v.signals == spec_direction_focus_signals(b)
}

/// What one skill's focus entry must say, at the view level; `with_skill`
/// is how many segment cards carry any skill.
pub open spec fn skill_focus_entry_ok(
    v: crate::workout::SegmentSkillFocusView,
    cards: Seq<MemoryCard>,
    stats: Seq<(u128, CardReviewStats)>,
    now: int,
    skills: Seq<SkillPoint>,
    d: u128,
    with_skill: int,
) -> bool {
    let b = focus_bucket(cards, stats, now, FocusGroup::Skill { id: d }, cards.len() as int);
    &&& v.skill_point_id == d
    &&& v.name == spec_skill_name_for(skills, d)
    &&& v.level == spec_level_for(skills, d)
    &&& v.count == b.count
    &&& v.share == crate::completion::spec_rate_milli(b.count, with_skill)
    &&& v.signals == spec_skill_focus_signals(b, spec_level_for(skills, d))
}

/// Break a segment down by direction: one entry per direction present,
/// sorted by card count (largest first), each with its share of the
/// segment and its signal tags.
#[verifier::rlimit(100)]
#[verifier::spinoff_prover]
pub fn build_direction_breakdown(
    cards: &Vec<MemoryCard>,
    directions: &Vec<Direction>,
    stats: &Vec<(u128, CardReviewStats)>,
    now: i64,
) -> (r: Vec<WorkoutSegmentDirectionFocus>)
    requires
        time_ok(now as int),
        cards_times_ok(cards@),
        stats_list_ok(stats@),
        cards@.len() <= MAX_POOL,
    ensures
        forall|j: int, k: int| 0 <= j < k < r@.len() ==> r@[j].direction_id != r@[k].direction_id,
        forall|j: int|
            0 <= j < r@.len() ==> dir_focus_entry_ok(
                (#[trigger] r@[j])@,
                cards@,
                stats@,
                now as int,
                directions@,
                r@[j].direction_id,
            ),
        forall|j: int|
            0 <= j < r@.len() ==> crate::signals::direction_present(
                cards@,
                #[trigger] r@[j].direction_id,
            ),
        forall|c: int|
            0 <= c < cards@.len() ==> exists|j: int|
                0 <= j < r@.len() && r@[j].direction_id == (#[trigger] cards@[c]).direction_id,
        forall|j: int, k: int| 0 <= j < k < r@.len() ==> r@[j].count >= r@[k].count,
{
    let mut ids: Vec<u128> = Vec::new();
    let mut i: usize = 0;
    while i < cards.len()
        invariant
            i <= cards.len(),
            forall|j: int, k: int| 0 <= j < k < ids@.len() ==> ids@[j] != ids@[k],
            forall|j: int|
                0 <= j < ids@.len() ==> crate::signals::direction_present(
                    cards@,
                    #[trigger] ids@[j],
                ),
            forall|c: int| 0 <= c < i ==> ids@.contains((#[trigger] cards@[c]).direction_id),
        decreases cards.len() - i,
    {
        let id = cards[i].direction_id;
        if !contains_id(&ids, id) {
            let ghost old_ids = ids@;
            ids.push(id);
            proof {
                assert(crate::signals::direction_present(cards@, id)) by {
                    assert(cards@[i as int].direction_id == id);
                }
                assert forall|c: int| 0 <= c < i + 1 implies ids@.contains(
                    (#[trigger] cards@[c]).direction_id,
                ) by {
                    if c < i {
                        let j = choose|j: int|
                            0 <= j < old_ids.len() && old_ids[j] == cards@[c].direction_id;
                        assert(ids@[j] == cards@[c].direction_id);
                    } else {
                        assert(ids@[old_ids.len() as int] == id);
                    }
                }
                assert forall|j: int, k: int| 0 <= j < k < ids@.len() implies ids@[j] != ids@[k] by {
                    if k == ids@.len() - 1 {
                        if ids@[j] == id {
                            assert(old_ids.contains(id));
                        }
                    }
                }
            }
        } else {
            proof {
                assert(ids@.contains(cards@[i as int].direction_id));
            }
        }
        i = i + 1;
    }

    let mut counts: Vec<i64> = Vec::new();
    let mut k: usize = 0;
    while k < ids.len()
        invariant
            k <= ids.len(),
            counts@.len() == k,
            time_ok(now as int),
            cards_times_ok(cards@),
            stats_list_ok(stats@),
            cards@.len() <= MAX_POOL,
            forall|j: int|
                0 <= j < k ==> #[trigger] counts@[j] == focus_bucket(
                    cards@,
                    stats@,
                    now as int,
                    FocusGroup::Direction { id: ids@[j] },
                    cards@.len() as int,
                ).count,
        decreases ids.len() - k,
    {
        let b = accumulate_bucket(cards, stats, now, FocusGroup::Direction { id: ids[k] });
        counts.push(b.count);
        k = k + 1;
    }

    let n = ids.len();
    let all_true = repeat_bool(n, true);
    let mut flags = repeat_bool(n, false);
    proof {
        assert(sel_inv(n as int, flags@, Seq::<int>::empty()));
    }
    let ghost sel0 = flags@;
    let picks = select_top(&counts, &all_true, &mut flags, n);
    let ghost picks_int = picks@.map_values(|u: usize| u as int);
    proof {
        assert(flags@.len() == flags.len());
        lemma_extend_inv(n as int, sel0, flags@, picks@, Seq::<int>::empty());
        if picks@.len() < n {
            assert forall|j: int| 0 <= j < n implies flags@[j] by {
                assert(all_true@[j]);
            }
            lemma_full_selection(n as int, flags@, Seq::<int>::empty() + picks_int);
            assert(false);
        }
        assert(picks_int =~= Seq::<int>::empty() + picks_int);
        lemma_perm_complete(n as int, picks_int);
    }

    let mut r: Vec<WorkoutSegmentDirectionFocus> = Vec::new();
    let mut j: usize = 0;
    while j < picks.len()
        invariant
            j <= picks.len(),
            picks@.len() == n,
            n == ids@.len(),
            counts@.len() == n,
            time_ok(now as int),
            cards_times_ok(cards@),
            stats_list_ok(stats@),
            cards@.len() <= MAX_POOL,
            forall|m: int, m2: int| 0 <= m < m2 < ids@.len() ==> ids@[m] != ids@[m2],
            forall|m: int|
                0 <= m < ids@.len() ==> crate::signals::direction_present(
                    cards@,
                    #[trigger] ids@[m],
                ),
            forall|m: int|
                0 <= m < n ==> #[trigger] counts@[m] == focus_bucket(
                    cards@,
                    stats@,
                    now as int,
                    FocusGroup::Direction { id: ids@[m] },
                    cards@.len() as int,
                ).count,
            forall|m: int| 0 <= m < picks@.len() ==> (#[trigger] picks@[m] as int) < n,
            forall|m1: int, m2: int|
                0 <= m1 < m2 < picks@.len() ==> counts@[picks@[m1] as int] >= counts@[picks@[m2] as int],
            forall|m1: int, m2: int| 0 <= m1 < m2 < picks@.len() ==> picks@[m1] != picks@[m2],
            r@.len() == j,
            forall|m: int|
                0 <= m < j ==> (#[trigger] r@[m]).direction_id == ids@[picks@[m] as int],
            forall|m: int|
                0 <= m < j ==> dir_focus_entry_ok(
                    (#[trigger] r@[m])@,
                    cards@,
                    stats@,
                    now as int,
                    directions@,
                    r@[m].direction_id,
                ),
            forall|m: int| 0 <= m < j ==> (#[trigger] r@[m]).count == counts@[picks@[m] as int],
        decreases picks.len() - j,
    {
        let id = ids[picks[j]];
        let b = accumulate_bucket(cards, stats, now, FocusGroup::Direction { id });
        let signals = direction_focus_signals(&b, Ghost(cards@.len() as int));
        let share = crate::completion::rate_milli(
            if b.count >= 0 {
                b.count as usize
            } else {
                0
            },
            cards.len(),
        );
        let entry = WorkoutSegmentDirectionFocus {
            direction_id: id,
            name: crate::completion::direction_name_for(directions, id),
            stage: crate::direction::stage_for(directions, id),
            count: b.count as usize,
            share,
            signals,
        };
        r.push(entry);
        j = j + 1;
    }
    proof {
        assert forall|j2: int, k2: int| 0 <= j2 < k2 < r@.len() implies r@[j2].direction_id
            != r@[k2].direction_id by {
            assert(r@[j2].direction_id == ids@[picks@[j2] as int]);
            assert(r@[k2].direction_id == ids@[picks@[k2] as int]);
            assert(picks@[j2] != picks@[k2]);
        }
        assert forall|c: int| 0 <= c < cards@.len() implies exists|j2: int|
            0 <= j2 < r@.len() && r@[j2].direction_id == (#[trigger] cards@[c]).direction_id by {
            assert(ids@.contains(cards@[c].direction_id));
            let m = choose|m: int| 0 <= m < ids@.len() && ids@[m] == cards@[c].direction_id;
            assert(picks_int.contains(m));
            let kk = choose|kk: int| 0 <= kk < picks_int.len() && picks_int[kk] == m;
            assert(picks_int[kk] == picks@[kk] as int);
            assert(r@[kk].direction_id == ids@[m]);
        }
        assert forall|j2: int, k2: int| 0 <= j2 < k2 < r@.len() implies r@[j2].count
            >= r@[k2].count by {
            assert(counts@[picks@[j2] as int] >= counts@[picks@[k2] as int]);
        }
    }
    r
}

/// Break a segment down by skill: one entry per skill carried by a
/// segment card, sorted by card count (largest first); shares are of the
/// segment's skill-tagged cards.
#[verifier::rlimit(100)]
#[verifier::spinoff_prover]
pub fn build_skill_breakdown(
    cards: &Vec<MemoryCard>,
    skills: &Vec<SkillPoint>,
    stats: &Vec<(u128, CardReviewStats)>,
    now: i64,
) -> (r: Vec<WorkoutSegmentSkillFocus>)
    requires
        time_ok(now as int),
        cards_times_ok(cards@),
        stats_list_ok(stats@),
        cards@.len() <= MAX_POOL,
    ensures
        forall|j: int, k: int|
            0 <= j < k < r@.len() ==> r@[j].skill_point_id != r@[k].skill_point_id,
        forall|j: int|
            0 <= j < r@.len() ==> skill_focus_entry_ok(
                (#[trigger] r@[j])@,
                cards@,
                stats@,
                now as int,
                skills@,
                r@[j].skill_point_id,
                crate::completion::count_with_skill(cards@, cards@.len() as int),
            ),
        forall|j: int|
            0 <= j < r@.len() ==> crate::signals::skill_present(
                cards@,
                #[trigger] r@[j].skill_point_id,
            ),
        forall|c: int|
            0 <= c < cards@.len() ==> ((#[trigger] cards@[c]).skill_point_id matches Some(d)
                ==> exists|j: int| 0 <= j < r@.len() && r@[j].skill_point_id == d),
        forall|j: int, k: int| 0 <= j < k < r@.len() ==> r@[j].count >= r@[k].count,
{
    let mut ids: Vec<u128> = Vec::new();
    let mut i: usize = 0;
    while i < cards.len()
        invariant
            i <= cards.len(),
            forall|j: int, k: int| 0 <= j < k < ids@.len() ==> ids@[j] != ids@[k],
            forall|j: int|
                0 <= j < ids@.len() ==> crate::signals::skill_present(cards@, #[trigger] ids@[j]),
            forall|c: int|
                0 <= c < i ==> ((#[trigger] cards@[c]).skill_point_id matches Some(d)
                    ==> ids@.contains(d)),
        decreases cards.len() - i,
    {
        if let Some(id) = cards[i].skill_point_id {
            if !contains_id(&ids, id) {
                let ghost old_ids = ids@;
                ids.push(id);
                proof {
                    assert(crate::signals::skill_present(cards@, id)) by {
                        assert(cards@[i as int].skill_point_id == Some(id));
                    }
                    assert forall|c: int|
                        0 <= c < i + 1 implies ((#[trigger] cards@[c]).skill_point_id matches Some(
                        d,
                    ) ==> ids@.contains(d)) by {
                        if c < i {
                            match cards@[c].skill_point_id {
                                Some(sk) => {
                                    let j = choose|j: int|
                                        0 <= j < old_ids.len() && old_ids[j] == sk;
                                    assert(ids@[j] == sk);
                                },
                                None => {},
                            }
                        } else {
                            assert(ids@[old_ids.len() as int] == id);
                        }
                    }
                    assert forall|j: int, k: int|
                        0 <= j < k < ids@.len() implies ids@[j] != ids@[k] by {
                        if k == ids@.len() - 1 {
                            if ids@[j] == id {
                                assert(old_ids.contains(id));
                            }
                        }
                    }
                }
            } else {
                proof {
                    assert(ids@.contains(id));
                }
            }
        }
        i = i + 1;
    }

    let with_skill = crate::completion::count_skill_cards(cards);

    let mut counts: Vec<i64> = Vec::new();
    let mut k: usize = 0;
    while k < ids.len()
        invariant
            k <= ids.len(),
            counts@.len() == k,
            time_ok(now as int),
            cards_times_ok(cards@),
            stats_list_ok(stats@),
            cards@.len() <= MAX_POOL,
            forall|j: int|
                0 <= j < k ==> #[trigger] counts@[j] == focus_bucket(
                    cards@,
                    stats@,
                    now as int,
                    FocusGroup::Skill { id: ids@[j] },
                    cards@.len() as int,
                ).count,
        decreases ids.len() - k,
    {
        let b = accumulate_bucket(cards, stats, now, FocusGroup::Skill { id: ids[k] });
        counts.push(b.count);
        k = k + 1;
    }

    let n = ids.len();
    let all_true = repeat_bool(n, true);
    let mut flags = repeat_bool(n, false);
    proof {
        assert(sel_inv(n as int, flags@, Seq::<int>::empty()));
    }
    let ghost sel0 = flags@;
    let picks = select_top(&counts, &all_true, &mut flags, n);
    let ghost picks_int = picks@.map_values(|u: usize| u as int);
    proof {
        assert(flags@.len() == flags.len());
        lemma_extend_inv(n as int, sel0, flags@, picks@, Seq::<int>::empty());
        if picks@.len() < n {
            assert forall|j: int| 0 <= j < n implies flags@[j] by {
                assert(all_true@[j]);
            }
            lemma_full_selection(n as int, flags@, Seq::<int>::empty() + picks_int);
            assert(false);
        }
        assert(picks_int =~= Seq::<int>::empty() + picks_int);
        lemma_perm_complete(n as int, picks_int);
    }

    let mut r: Vec<WorkoutSegmentSkillFocus> = Vec::new();
    let mut j: usize = 0;
    while j < picks.len()
        invariant
            j <= picks.len(),
            picks@.len() == n,
            n == ids@.len(),
            counts@.len() == n,
            time_ok(now as int),
            cards_times_ok(cards@),
            stats_list_ok(stats@),
            cards@.len() <= MAX_POOL,
            with_skill == crate::completion::count_with_skill(cards@, cards@.len() as int),
            with_skill <= cards@.len(),
            forall|m: int, m2: int| 0 <= m < m2 < ids@.len() ==> ids@[m] != ids@[m2],
            forall|m: int|
                0 <= m < ids@.len() ==> crate::signals::skill_present(cards@, #[trigger] ids@[m]),
            forall|m: int|
                0 <= m < n ==> #[trigger] counts@[m] == focus_bucket(
                    cards@,
                    stats@,
                    now as int,
                    FocusGroup::Skill { id: ids@[m] },
                    cards@.len() as int,
                ).count,
            forall|m: int| 0 <= m < picks@.len() ==> (#[trigger] picks@[m] as int) < n,
            forall|m1: int, m2: int|
                0 <= m1 < m2 < picks@.len() ==> counts@[picks@[m1] as int] >= counts@[picks@[m2] as int],
            forall|m1: int, m2: int| 0 <= m1 < m2 < picks@.len() ==> picks@[m1] != picks@[m2],
            r@.len() == j,
            forall|m: int|
                0 <= m < j ==> (#[trigger] r@[m]).skill_point_id == ids@[picks@[m] as int],
            forall|m: int|
                0 <= m < j ==> skill_focus_entry_ok(
                    (#[trigger] r@[m])@,
                    cards@,
                    stats@,
                    now as int,
                    skills@,
                    r@[m].skill_point_id,
                    crate::completion::count_with_skill(cards@, cards@.len() as int),
                ),
            forall|m: int| 0 <= m < j ==> (#[trigger] r@[m]).count == counts@[picks@[m] as int],
        decreases picks.len() - j,
    {
        let id = ids[picks[j]];
        let b = accumulate_bucket(cards, stats, now, FocusGroup::Skill { id });
        let level = crate::signals::level_for(skills, id);
        let signals = skill_focus_signals(&b, level, Ghost(cards@.len() as int));
        proof {
            lemma_bucket_count_le_with_skill(
                cards@,
                stats@,
                now as int,
                id,
                cards@.len() as int,
            );
        }
        let share = crate::completion::rate_milli(
            if b.count >= 0 {
                b.count as usize
            } else {
                0
            },
            with_skill,
        );
        let entry = WorkoutSegmentSkillFocus {
            skill_point_id: id,
            name: crate::completion::skill_name_for(skills, id),
            level,
            count: b.count as usize,
            share,
            signals,
        };
        r.push(entry);
        j = j + 1;
    }
    proof {
        assert forall|j2: int, k2: int| 0 <= j2 < k2 < r@.len() implies r@[j2].skill_point_id
            != r@[k2].skill_point_id by {
            assert(r@[j2].skill_point_id == ids@[picks@[j2] as int]);
            assert(r@[k2].skill_point_id == ids@[picks@[k2] as int]);
            assert(picks@[j2] != picks@[k2]);
        }
        assert forall|c: int|
            0 <= c < cards@.len() implies ((#[trigger] cards@[c]).skill_point_id matches Some(d)
            ==> exists|j2: int| 0 <= j2 < r@.len() && r@[j2].skill_point_id == d) by {
            match cards@[c].skill_point_id {
                Some(d) => {
                    assert(ids@.contains(d));
                    let m = choose|m: int| 0 <= m < ids@.len() && ids@[m] == d;
                    assert(picks_int.contains(m));
                    let kk = choose|kk: int| 0 <= kk < picks_int.len() && picks_int[kk] == m;
                    assert(picks_int[kk] == picks@[kk] as int);
                    assert(r@[kk].skill_point_id == ids@[m]);
                },
                None => {},
            }
        }
        assert forall|j2: int, k2: int| 0 <= j2 < k2 < r@.len() implies r@[j2].count
            >= r@[k2].count by {
            assert(counts@[picks@[j2] as int] >= counts@[picks@[k2] as int]);
        }
    }
    r
}

/// A skill's bucket never counts more cards than carry any skill.
proof fn lemma_bucket_count_le_with_skill(
    cards: Seq<MemoryCard>,
    stats: Seq<(u128, CardReviewStats)>,
    now: int,
    d: u128,
    n: int,
)
    ensures
        focus_bucket(cards, stats, now, FocusGroup::Skill { id: d }, n).count
            <= crate::completion::count_with_skill(cards, n),
    decreases n,
{
    if n > 0 {
        lemma_bucket_count_le_with_skill(cards, stats, now, d, n - 1);
    }
}

/// The skill under the most growth pressure among the segment's cards:
/// the first of equals wins.
pub open spec fn growth_candidate(
    cards: Seq<MemoryCard>,
    ssigs: Seq<(u128, SkillSignal)>,
    n: int,
) -> Option<(u128, int)>
    decreases n,
{
    if n <= 0 {
        None
    } else {
        let prev = growth_candidate(cards, ssigs, n - 1);
        match cards[n - 1].skill_point_id {
            Some(d) => {
                let g = skill_signal_in(ssigs, d).spec_growth_pressure();
                match prev {
                    None => Some((d, g)),
                    Some((pd, pg)) => if g > pg {
                        Some((d, g))
                    } else {
                        prev
                    },
                }
            },
            None => prev,
        }
    }
}

/// A segment's full highlight list: the primary skill first (when the
/// segment has skill-tagged cards), then the phase's count highlights,
/// then a growth note for a skill under high pressure; at most five.
pub open spec fn spec_segment_highlights(
    phase: WorkoutPhase,
    t: SegmentFocusCounts,
    skill_breakdown: Seq<crate::workout::SegmentSkillFocusView>,
    growth: Option<(u128, int)>,
) -> Seq<FocusHighlight> {
    let base = spec_count_highlights(phase, t);
    let with_primary = if skill_breakdown.len() > 0 {
        seq![
            FocusHighlight::PrimarySkill {
                skill_point_id: skill_breakdown[0].skill_point_id,
                count: skill_breakdown[0].count as usize,
                share: skill_breakdown[0].share as i64,
            },
        ] + base
    } else {
        base
    };
    let with_growth = match growth {
        Some((d, g)) => if g >= 550 {
            with_primary + seq![FocusHighlight::SkillGrowth { skill_point_id: d, growth: g as i64 }]
        } else {
            with_primary
        },
        None => with_primary,
    };
    if with_growth.len() <= 5 {
        with_growth
    } else {
        with_growth.take(5)
    }
}

/// Derive a segment's focus summary: tallies, highlight lines, and the
/// direction and skill breakdowns. An empty segment has no focus.
#[verifier::rlimit(100)]
#[verifier::spinoff_prover]
pub fn derive_focus(
    phase: WorkoutPhase,
    cards: &Vec<MemoryCard>,
    now: i64,
    stats: &Vec<(u128, CardReviewStats)>,
    directions: &Vec<Direction>,
    skills: &Vec<SkillPoint>,
    ssigs: &Vec<(u128, SkillSignal)>,
) -> (r: Option<WorkoutSegmentFocus>)
    requires
        time_ok(now as int),
        cards_times_ok(cards@),
        stats_list_ok(stats@),
        cards@.len() <= MAX_POOL,
        skill_signals_wf(ssigs@),
    ensures
        (r is Some) <==> cards@.len() > 0,
        r matches Some(f) ==> ({
            let tally = focus_tally(cards@, stats@, now as int, cards@.len() as int);
            &&& f.counts.due_count == tally.due
            &&& f.counts.new_count == tally.new_cards
            &&& f.counts.fail_count == tally.failing
            &&& f.counts.unstable_count == tally.unstable
            &&& f.counts.high_relevance_count == tally.relevant
            &&& f.counts.momentum_count == tally.momentum
            &&& f.counts.neglected_count == tally.neglected
            &&& f.counts.total == cards@.len()
            &&& f@.highlights == spec_segment_highlights(
                phase,
                f.counts,
                f@.skill_breakdown,
                growth_candidate(cards@, ssigs@, cards@.len() as int),
            )
            &&& (forall|j: int|
                0 <= j < f@.direction_breakdown.len() ==> dir_focus_entry_ok(
                    #[trigger] f@.direction_breakdown[j],
                    cards@,
                    stats@,
                    now as int,
                    directions@,
                    f@.direction_breakdown[j].direction_id,
                ))
            &&& (forall|j: int, k: int|
                0 <= j < k < f@.direction_breakdown.len() ==> f@.direction_breakdown[j].direction_id
                    != f@.direction_breakdown[k].direction_id)
            &&& (forall|j: int, k: int|
                0 <= j < k < f@.direction_breakdown.len() ==> f@.direction_breakdown[j].count
                    >= f@.direction_breakdown[k].count)
            &&& (forall|j: int|
                0 <= j < f@.skill_breakdown.len() ==> skill_focus_entry_ok(
                    #[trigger] f@.skill_breakdown[j],
                    cards@,
                    stats@,
                    now as int,
                    skills@,
                    f@.skill_breakdown[j].skill_point_id,
                    crate::completion::count_with_skill(cards@, cards@.len() as int),
                ))
            &&& (forall|j: int, k: int|
                0 <= j < k < f@.skill_breakdown.len() ==> f@.skill_breakdown[j].skill_point_id
                    != f@.skill_breakdown[k].skill_point_id)
            &&& (forall|j: int, k: int|
                0 <= j < k < f@.skill_breakdown.len() ==> f@.skill_breakdown[j].count
                    >= f@.skill_breakdown[k].count)
        }),
{
    if cards.len() == 0 {
        return None;
    }
    let counts = tally_segment(cards, stats, now);
    let direction_breakdown = build_direction_breakdown(cards, directions, stats, now);
    let skill_breakdown = build_skill_breakdown(cards, skills, stats, now);

    let mut highlights = count_highlights(phase, counts);
    let ghost base = highlights@;
    if skill_breakdown.len() > 0 {
        let primary = &skill_breakdown[0];
        highlights.insert(
            0,
            FocusHighlight::PrimarySkill {
                skill_point_id: primary.skill_point_id,
                count: primary.count,
                share: primary.share,
            },
        );
    }
    let ghost skill_views = skill_breakdown@.map_values(|e: WorkoutSegmentSkillFocus| e@);
    let ghost with_primary = if skill_views.len() > 0 {
        seq![
            FocusHighlight::PrimarySkill {
                skill_point_id: skill_views[0].skill_point_id,
                count: skill_views[0].count as usize,
                share: skill_views[0].share as i64,
            },
        ] + base
    } else {
        base
    };
    proof {
        assert(highlights@ =~= with_primary);
    }

    let mut candidate: Option<(u128, i64)> = None;
    let mut i: usize = 0;
    while i < cards.len()
        invariant
            i <= cards.len(),
            skill_signals_wf(ssigs@),
            ({
                let spec = growth_candidate(cards@, ssigs@, i as int);
                match candidate {
                    Some((d, g)) => spec == Some((d, g as int)),
                    None => spec is None,
                }
            }),
        decreases cards.len() - i,
    {
        if let Some(d) = cards[i].skill_point_id {
            let sig = crate::signals::find_skill_signal(ssigs, Some(d));
            let g = sig.growth_pressure();
            candidate = match candidate {
                Some((pd, pg)) => if g > pg {
                    Some((d, g))
                } else {
                    Some((pd, pg))
                },
                None => Some((d, g)),
            };
        }
        i = i + 1;
    }

    if let Some((d, g)) = candidate {
        if g >= 550 {
            highlights.push(FocusHighlight::SkillGrowth { skill_point_id: d, growth: g });
        }
    }
    let ghost with_growth = highlights@;
    if highlights.len() > 5 {
        highlights.truncate(5);
    }
    proof {
        assert(highlights@ =~= spec_segment_highlights(
            phase,
            counts,
            skill_views,
            growth_candidate(cards@, ssigs@, cards@.len() as int),
        ));
    }

    let f = WorkoutSegmentFocus { counts, highlights, direction_breakdown, skill_breakdown };
    proof {
        assert(f@.skill_breakdown =~= skill_views);
        assert forall|j: int|
            0 <= j < f@.direction_breakdown.len() implies dir_focus_entry_ok(
            #[trigger] f@.direction_breakdown[j],
            cards@,
            stats@,
            now as int,
            directions@,
            f@.direction_breakdown[j].direction_id,
        ) by {
            assert(f@.direction_breakdown[j] == f.direction_breakdown@[j]@);
        }
        assert forall|j: int, k: int|
            0 <= j < k < f@.direction_breakdown.len() implies f@.direction_breakdown[j].direction_id
            != f@.direction_breakdown[k].direction_id && f@.direction_breakdown[j].count
            >= f@.direction_breakdown[k].count by {
            assert(f@.direction_breakdown[j] == f.direction_breakdown@[j]@);
            assert(f@.direction_breakdown[k] == f.direction_breakdown@[k]@);
        }
        assert forall|j: int|
            0 <= j < f@.skill_breakdown.len() implies skill_focus_entry_ok(
            #[trigger] f@.skill_breakdown[j],
            cards@,
            stats@,
            now as int,
            skills@,
            f@.skill_breakdown[j].skill_point_id,
            crate::completion::count_with_skill(cards@, cards@.len() as int),
        ) by {
            assert(f@.skill_breakdown[j] == f.skill_breakdown@[j]@);
        }
        assert forall|j: int, k: int|
            0 <= j < k < f@.skill_breakdown.len() implies f@.skill_breakdown[j].skill_point_id
            != f@.skill_breakdown[k].skill_point_id && f@.skill_breakdown[j].count
            >= f@.skill_breakdown[k].count by {
            assert(f@.skill_breakdown[j] == f.skill_breakdown@[j]@);
            assert(f@.skill_breakdown[k] == f.skill_breakdown@[k]@);
        }
    }
    Some(f)
}

} // verus!
