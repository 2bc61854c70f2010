//! Per-card review statistics, rebuilt from the history of completed
//! workout items on every scheduling or recommendation pass — never stored.

use vstd::prelude::*;

use crate::units::time_ok;
use crate::vecs::contains_id;
use crate::workout::WorkoutResultKind;

verus! {

/// How many of the most recent outcomes a card's statistics keep.
pub const RECENT_RESULTS_LIMIT: usize = 8;

/// One recorded outcome of a completed workout item. The history is kept
/// in the order the reviews happened: later entries are newer.
#[derive(Debug, Clone, Copy, PartialEq, Eq, Structural)]
pub struct ReviewEvent {
    pub card_id: u128,
    pub result: WorkoutResultKind,
    /// Seconds.
    pub occurred_at: i64,
}

/// Derived review statistics of one card.
#[derive(Debug)]
pub struct CardReviewStats {
    /// When the card was last reviewed, seconds.
    pub last_seen: Option<i64>,
    pub last_pass_at: Option<i64>,
    pub last_fail_at: Option<i64>,
    pub pass_count: u64,
    pub fail_count: u64,
    /// Run of passes at the newest end of `recent_results`.
    pub consecutive_passes: u32,
    /// Run of fails at the newest end of `recent_results`.
    pub consecutive_fails: u32,
    /// The most recent outcomes, newest first, at most
    /// [`RECENT_RESULTS_LIMIT`] of them.
    pub recent_results: Vec<WorkoutResultKind>,
}

/// The mathematical contents of a [`CardReviewStats`].
#[verifier::ext_equal]
pub ghost struct StatsView {
    pub last_seen: Option<i64>,
    pub last_pass_at: Option<i64>,
    pub last_fail_at: Option<i64>,
    pub pass_count: int,
    pub fail_count: int,
    pub consecutive_passes: int,
    pub consecutive_fails: int,
    pub recent_results: Seq<WorkoutResultKind>,
}

impl View for CardReviewStats {
    type V = StatsView;

    open spec fn view(&self) -> StatsView {
        StatsView {
            last_seen: self.last_seen,
            last_pass_at: self.last_pass_at,
            last_fail_at: self.last_fail_at,
            pass_count: self.pass_count as int,
            fail_count: self.fail_count as int,
            consecutive_passes: self.consecutive_passes as int,
            consecutive_fails: self.consecutive_fails as int,
            recent_results: self.recent_results@,
        }
    }
}

/// Statistics counters small enough for the rate arithmetic.
pub open spec fn counts_ok(s: StatsView) -> bool {
    0 <= s.pass_count && 0 <= s.fail_count && s.pass_count + s.fail_count <= 0x7fff_ffff_ffff
}

/// Every event's timestamp lies within the supported range.
pub open spec fn events_times_ok(events: Seq<ReviewEvent>) -> bool {
    forall|e: int| 0 <= e < events.len() ==> time_ok(#[trigger] events[e].occurred_at as int)
}

/// A statistics listing whose entries are safe to feed to the scoring
/// arithmetic.
pub open spec fn stats_list_ok(stats: Seq<(u128, CardReviewStats)>) -> bool {
    forall|j: int|
        0 <= j < stats.len() ==> (#[trigger] stats[j].1).times_ok() && counts_ok(stats[j].1@)
}

/// The statistics of a card that was never reviewed.
pub open spec fn empty_stats_view() -> StatsView {
    StatsView {
        last_seen: None,
        last_pass_at: None,
        last_fail_at: None,
        pass_count: 0,
        fail_count: 0,
        consecutive_passes: 0,
        consecutive_fails: 0,
        recent_results: Seq::empty(),
    }
}

impl Default for CardReviewStats {
    fn default() -> (s: Self)
        ensures
            s@ == empty_stats_view(),
    {
        let s = CardReviewStats {
            last_seen: None,
            last_pass_at: None,
            last_fail_at: None,
            pass_count: 0,
            fail_count: 0,
            consecutive_passes: 0,
            consecutive_fails: 0,
            recent_results: Vec::new(),
        };
        proof {
            assert(s@ =~= empty_stats_view());
        }
        s
    }
}

impl CardReviewStats {
    /// All timestamps lie within the supported range.
    pub open spec fn times_ok(&self) -> bool {
        &&& (self.last_seen matches Some(t) ==> time_ok(t as int))
        &&& (self.last_pass_at matches Some(t) ==> time_ok(t as int))
        &&& (self.last_fail_at matches Some(t) ==> time_ok(t as int))
    }

    /// Total number of recorded reviews, in specifications.
    pub open spec fn spec_total_reviews(&self) -> int {
        self@.pass_count + self@.fail_count
    }

    /// Total number of recorded reviews.
    pub fn total_reviews(&self) -> (r: u64)
        requires
            self.pass_count + self.fail_count <= u64::MAX,
        ensures
            r == self.spec_total_reviews(),
    {
        self.pass_count + self.fail_count
    }
}

/// The share of reviews that failed, in thousandths; zero when the card
/// was never reviewed.
pub open spec fn spec_fail_rate(s: StatsView) -> int {
    if s.pass_count + s.fail_count == 0 {
        0
    } else {
        s.fail_count * 1000 / (s.pass_count + s.fail_count)
    }
}

/// The share of reviews that failed, in thousandths.
pub fn fail_rate(s: &CardReviewStats) -> (r: i64)
    requires
        s.pass_count + s.fail_count <= 0x7fff_ffff_ffff,
    ensures
        r == spec_fail_rate(s@),
        0 <= r <= 1000,
{
    let total = s.pass_count + s.fail_count;
    if total == 0 {
        0
    } else {
        proof {
            assert(s.fail_count * 1000 / (s.pass_count + s.fail_count) <= 1000) by (nonlinear_arith)
                requires
                    0 < s.pass_count + s.fail_count,
                    0 <= s.fail_count <= s.pass_count + s.fail_count,
            ;
        }
        ((s.fail_count * 1000) / total) as i64
    }
}

/// The outcomes of `id` among the first events, newest first, capped at
/// [`RECENT_RESULTS_LIMIT`].
pub open spec fn recent_results_of(events: Seq<ReviewEvent>, id: u128) -> Seq<WorkoutResultKind>
    decreases events.len(),
{
    if events.len() == 0 {
        Seq::empty()
    } else {
        let prev = recent_results_of(events.drop_last(), id);
        let e = events.last();
        if e.card_id == id {
            let grown = seq![e.result] + prev;
            if grown.len() <= 8 {
                grown
            } else {
                grown.take(8)
            }
        } else {
            prev
        }
    }
}

/// How many events of `id` there are with the given outcome.
pub open spec fn count_kind(events: Seq<ReviewEvent>, id: u128, kind: WorkoutResultKind) -> int
    decreases events.len(),
{
    if events.len() == 0 {
        0
    } else {
        count_kind(events.drop_last(), id, kind) + if events.last().card_id == id
            && events.last().result == kind {
            1int
        } else {
            0int
        }
    }
}

/// When `id` was last reviewed: the time of its newest event.
pub open spec fn last_seen_of(events: Seq<ReviewEvent>, id: u128) -> Option<i64>
    decreases events.len(),
{
    if events.len() == 0 {
        None
    } else if events.last().card_id == id {
        Some(events.last().occurred_at)
    } else {
        last_seen_of(events.drop_last(), id)
    }
}

/// When `id` last had the given outcome.
pub open spec fn last_kind_of(events: Seq<ReviewEvent>, id: u128, kind: WorkoutResultKind) -> Option<
    i64,
>
    decreases events.len(),
{
    if events.len() == 0 {
        None
    } else if events.last().card_id == id && events.last().result == kind {
        Some(events.last().occurred_at)
    } else {
        last_kind_of(events.drop_last(), id, kind)
    }
}

/// The length of the run of `kind` at the front of `results`.
pub open spec fn leading_run(results: Seq<WorkoutResultKind>, kind: WorkoutResultKind) -> int
    decreases results.len(),
{
    if results.len() == 0 || results[0] != kind {
        0
    } else {
        1 + leading_run(results.drop_first(), kind)
    }
}

/// The full statistics of `id` derived from the event history.
pub open spec fn spec_stats_of(events: Seq<ReviewEvent>, id: u128) -> StatsView {
    StatsView {
        last_seen: last_seen_of(events, id),
        last_pass_at: last_kind_of(events, id, WorkoutResultKind::Pass),
        last_fail_at: last_kind_of(events, id, WorkoutResultKind::Fail),
        pass_count: count_kind(events, id, WorkoutResultKind::Pass),
        fail_count: count_kind(events, id, WorkoutResultKind::Fail),
        consecutive_passes: leading_run(recent_results_of(events, id), WorkoutResultKind::Pass),
        consecutive_fails: leading_run(recent_results_of(events, id), WorkoutResultKind::Fail),
        recent_results: recent_results_of(events, id),
    }
}

proof fn lemma_last_times_ok(events: Seq<ReviewEvent>, id: u128)
    requires
        events_times_ok(events),
    ensures
        last_seen_of(events, id) matches Some(t) ==> time_ok(t as int),
        last_kind_of(events, id, WorkoutResultKind::Pass) matches Some(t) ==> time_ok(t as int),
        last_kind_of(events, id, WorkoutResultKind::Fail) matches Some(t) ==> time_ok(t as int),
    decreases events.len(),
{
    if events.len() > 0 {
        assert(events_times_ok(events.drop_last())) by {
            assert(forall|e: int|
                0 <= e < events.drop_last().len() ==> events.drop_last()[e] == events[e]);
        }
        lemma_last_times_ok(events.drop_last(), id);
        assert(time_ok(events.last().occurred_at as int));
    }
}

/// The derived statistics of any card are well formed whenever the event
/// history's timestamps are.
pub proof fn lemma_stats_of_wf(events: Seq<ReviewEvent>, id: u128)
    requires
        events_times_ok(events),
    ensures
        spec_stats_of(events, id).last_seen matches Some(t) ==> time_ok(t as int),
        spec_stats_of(events, id).last_pass_at matches Some(t) ==> time_ok(t as int),
        spec_stats_of(events, id).last_fail_at matches Some(t) ==> time_ok(t as int),
        0 <= spec_stats_of(events, id).pass_count <= events.len(),
        0 <= spec_stats_of(events, id).fail_count <= events.len(),
{
    lemma_last_times_ok(events, id);
    lemma_count_kind_bound(events, id, WorkoutResultKind::Pass);
    lemma_count_kind_bound(events, id, WorkoutResultKind::Fail);
}

proof fn lemma_recent_len(events: Seq<ReviewEvent>, id: u128)
    ensures
        recent_results_of(events, id).len() <= 8,
    decreases events.len(),
{
    if events.len() > 0 {
        lemma_recent_len(events.drop_last(), id);
    }
}

proof fn lemma_count_kind_bound(events: Seq<ReviewEvent>, id: u128, kind: WorkoutResultKind)
    ensures
        0 <= count_kind(events, id, kind) <= events.len(),
    decreases events.len(),
{
    if events.len() > 0 {
        lemma_count_kind_bound(events.drop_last(), id, kind);
    }
}

/// Derive the statistics of one card from the event history.
pub fn stats_of(events: &Vec<ReviewEvent>, id: u128) -> (s: CardReviewStats)
    ensures
        s@ == spec_stats_of(events@, id),
{
    let mut pass_count: u64 = 0;
    let mut fail_count: u64 = 0;
    let mut last_seen: Option<i64> = None;
    let mut last_pass_at: Option<i64> = None;
    let mut last_fail_at: Option<i64> = None;
    let mut recent: Vec<WorkoutResultKind> = Vec::new();

    let mut i: usize = 0;
    while i < events.len()
        invariant
            i <= events.len(),
            pass_count == count_kind(events@.take(i as int), id, WorkoutResultKind::Pass),
            fail_count == count_kind(events@.take(i as int), id, WorkoutResultKind::Fail),
            last_seen == last_seen_of(events@.take(i as int), id),
            last_pass_at == last_kind_of(events@.take(i as int), id, WorkoutResultKind::Pass),
            last_fail_at == last_kind_of(events@.take(i as int), id, WorkoutResultKind::Fail),
            recent@ == recent_results_of(events@.take(i as int), id),
            recent@.len() <= 8,
        decreases events.len() - i,
    {
        proof {
            lemma_count_kind_bound(events@.take(i as int), id, WorkoutResultKind::Pass);
            lemma_count_kind_bound(events@.take(i as int), id, WorkoutResultKind::Fail);
            assert(events@.take(i + 1).drop_last() =~= events@.take(i as int));
            assert(events@.take(i + 1).last() == events@[i as int]);
        }
        let e = events[i];
        if e.card_id == id {
            last_seen = Some(e.occurred_at);
            match e.result {
                WorkoutResultKind::Pass => {
                    pass_count = pass_count + 1;
                    last_pass_at = Some(e.occurred_at);
                },
                WorkoutResultKind::Fail => {
                    fail_count = fail_count + 1;
                    last_fail_at = Some(e.occurred_at);
                },
            }
            recent.insert(0, e.result);
            if recent.len() > RECENT_RESULTS_LIMIT {
                recent.truncate(RECENT_RESULTS_LIMIT);
            }
            proof {
                assert(recent@ =~= recent_results_of(events@.take(i + 1), id));
            }
        }
        i = i + 1;
    }
    proof {
        assert(events@.take(events@.len() as int) =~= events@);
    }

    let consecutive_passes = leading_run_len(&recent, WorkoutResultKind::Pass);
    let consecutive_fails = leading_run_len(&recent, WorkoutResultKind::Fail);

    let s = CardReviewStats {
        last_seen,
        last_pass_at,
        last_fail_at,
        pass_count,
        fail_count,
        consecutive_passes,
        consecutive_fails,
        recent_results: recent,
    };
    proof {
        assert(s@ =~= spec_stats_of(events@, id));
    }
    s
}

/// Measure the run of `kind` at the front of `results`.
fn leading_run_len(results: &Vec<WorkoutResultKind>, kind: WorkoutResultKind) -> (r: u32)
    requires
        results@.len() <= 8,
    ensures
        r == leading_run(results@, kind),
{
    proof {
        assert(results@.skip(0) =~= results@);
    }
    let mut i: usize = 0;
    while i < results.len()
        invariant
            i <= results.len(),
            results@.len() <= 8,
            forall|j: int| 0 <= j < i ==> results@[j] == kind,
            leading_run(results@, kind) == i + leading_run(results@.skip(i as int), kind),
        decreases results.len() - i,
    {
        if results[i] != kind {
            proof {
                assert(results@.skip(i as int)[0] != kind);
            }
            return i as u32;
        }
        proof {
            assert(results@.skip(i as int)[0] == kind);
            assert(results@.skip(i as int).drop_first() =~= results@.skip(i + 1));
        }
        i = i + 1;
    }
    proof {
        assert(results@.skip(results@.len() as int).len() == 0);
    }
    i as u32
}

/// The statistics recorded for `id`, if any: the first matching entry.
pub open spec fn stats_view_for(stats: Seq<(u128, CardReviewStats)>, id: u128) -> Option<StatsView>
    decreases stats.len(),
{
    if stats.len() == 0 {
        None
    } else if stats[0].0 == id {
        Some(stats[0].1@)
    } else {
        stats_view_for(stats.drop_first(), id)
    }
}

/// Look up the statistics recorded for `id`.
pub fn stats_for<'a>(stats: &'a Vec<(u128, CardReviewStats)>, id: u128) -> (r: Option<
    &'a CardReviewStats,
>)
    ensures
        r matches Some(s) ==> stats_view_for(stats@, id) == Some(s@),
        r is None ==> stats_view_for(stats@, id) is None,
        r matches Some(s) ==> exists|i: int|
            0 <= i < stats@.len() && #[trigger] stats@[i].0 == id && stats@[i].1@ == s@
                && stats@[i].1.times_ok() == s.times_ok(),
{
    proof {
        assert(stats@.skip(0) =~= stats@);
    }
    let mut i: usize = 0;
    while i < stats.len()
        invariant
            i <= stats.len(),
            stats_view_for(stats@, id) == stats_view_for(stats@.skip(i as int), id),
        decreases stats.len() - i,
    {
        proof {
            assert(stats@.skip(i as int)[0] == stats@[i as int]);
            assert(stats@.skip(i as int).drop_first() =~= stats@.skip(i + 1));
        }
        if stats[i].0 == id {
            return Some(&stats[i].1);
        }
        i = i + 1;
    }
    proof {
        assert(stats@.skip(stats@.len() as int).len() == 0);
    }
    None
}

/// Whether any event of the history concerns the card `id`.
pub open spec fn has_events(events: Seq<ReviewEvent>, id: u128) -> bool {
    exists|e: int| 0 <= e < events.len() && events[e].card_id == id
}

/// Whether the statistics listing holds an entry for `id`.
pub open spec fn listed(r: Seq<(u128, CardReviewStats)>, id: u128) -> bool {
    exists|j: int| 0 <= j < r.len() && r[j].0 == id
}

/// Rebuild the statistics of every card that appears in the history.
/// Each card id appears exactly once in the result; a card with no events
/// has no entry (its statistics are [`empty_stats_view`]).
pub fn review_stats_from_history(events: &Vec<ReviewEvent>) -> (r: Vec<(u128, CardReviewStats)>)
    ensures
        forall|j: int, k: int| 0 <= j < k < r@.len() ==> r@[j].0 != r@[k].0,
        forall|j: int| 0 <= j < r@.len() ==> #[trigger] r@[j].1@ == spec_stats_of(events@, r@[j].0),
        forall|j: int| 0 <= j < r@.len() ==> has_events(events@, #[trigger] r@[j].0),
        forall|e: int| 0 <= e < events@.len() ==> listed(r@, #[trigger] events@[e].card_id),
        events_times_ok(events@) && events@.len() <= 0x3fff_ffff_ffff ==> stats_list_ok(r@),
{
    let mut ids: Vec<u128> = Vec::new();
    let mut i: usize = 0;
    while i < events.len()
        invariant
            i <= events.len(),
            forall|j: int, k: int| 0 <= j < k < ids@.len() ==> ids@[j] != ids@[k],
            forall|j: int| 0 <= j < ids@.len() ==> has_events(events@, #[trigger] ids@[j]),
            forall|e: int| 0 <= e < i ==> ids@.contains(#[trigger] events@[e].card_id),
        decreases events.len() - i,
    {
        let id = events[i].card_id;
        if !contains_id(&ids, id) {
            let ghost old_ids = ids@;
            ids.push(id);
            proof {
                assert(has_events(events@, id)) by {
                    assert(events@[i as int].card_id == id);
                }
                assert forall|e: int| 0 <= e < i + 1 implies ids@.contains(
                    #[trigger] events@[e].card_id,
                ) by {
                    if e < i {
                        let j = choose|j: int|
                            0 <= j < old_ids.len() && old_ids[j] == events@[e].card_id;
                        assert(ids@[j] == events@[e].card_id);
                    } else {
                        assert(ids@[old_ids.len() as int] == id);
                    }
                }
                assert forall|j: int, k: int| 0 <= j < k < ids@.len() implies ids@[j] != ids@[k] by {
                    if k == ids@.len() - 1 {
                        if ids@[j] == id {
                            assert(old_ids.contains(id));
                        }
                    }
                }
            }
        } else {
            proof {
                assert(ids@.contains(events@[i as int].card_id));
            }
        }
        i = i + 1;
    }

    let mut r: Vec<(u128, CardReviewStats)> = Vec::new();
    let mut k: usize = 0;
    while k < ids.len()
        invariant
            k <= ids.len(),
            r@.len() == k,
            forall|j: int| 0 <= j < k ==> r@[j].0 == ids@[j],
            forall|j: int, m: int| 0 <= j < m < ids@.len() ==> ids@[j] != ids@[m],
            forall|j: int|
                0 <= j < k ==> #[trigger] r@[j].1@ == spec_stats_of(events@, r@[j].0),
        decreases ids.len() - k,
    {
        let id = ids[k];
        let s = stats_of(events, id);
        r.push((id, s));
        k = k + 1;
    }
    proof {
        assert forall|j: int, k: int| 0 <= j < k < r@.len() implies r@[j].0 != r@[k].0 by {
            assert(r@[j].0 == ids@[j]);
            assert(r@[k].0 == ids@[k]);
        }
        assert forall|j: int| 0 <= j < r@.len() implies has_events(events@, #[trigger] r@[j].0) by {
            assert(r@[j].0 == ids@[j]);
        }
        assert forall|e: int| 0 <= e < events@.len() implies listed(
            r@,
            #[trigger] events@[e].card_id,
        ) by {
            assert(ids@.contains(events@[e].card_id));
            let j = choose|j: int| 0 <= j < ids@.len() && ids@[j] == events@[e].card_id;
            assert(r@[j].0 == events@[e].card_id);
        }
        if events_times_ok(events@) && events@.len() <= 0x3fff_ffff_ffff {
            assert forall|j: int|
                0 <= j < r@.len() implies (#[trigger] r@[j].1).times_ok() && counts_ok(
                r@[j].1@,
            ) by {
                lemma_stats_of_wf(events@, r@[j].0);
                assert(r@[j].1@ == spec_stats_of(events@, r@[j].0));
            }
        }
    }
    r
}

} // verus!
