//! The segment allocator: sizes the three phases from the pool, seeds each
//! phase with heuristically eligible picks, fills shortfalls by score, and
//! backfills leftover slots — never selecting a card twice and filling
//! every slot the pool can fill.

use vstd::prelude::*;
use vstd::set_lib::{lemma_int_range, set_int_range};

use crate::card::{cards_times_ok, unique_card_ids, MemoryCard};
use crate::direction::{stage_for, Direction, DirectionStage};
use crate::scoring::{
    due_urgency, fail_recency, fail_streak, freshness, momentum, spec_due_urgency,
    spec_fail_recency, spec_fail_streak, spec_freshness, spec_momentum, spec_stage_bias,
    stage_bias, SegmentScores, StageBias,
};
use crate::signals::{
    analyze_direction_signals, analyze_skill_signals, find_direction_signal,
    find_skill_signal, DirectionSignal, SkillSignal, MAX_POOL,
};
use crate::skill::SkillPoint;
use crate::stats::{
    counts_ok, empty_stats_view, fail_rate, spec_fail_rate, stats_for, stats_list_ok,
    CardReviewStats, StatsView,
};
use crate::units::{
    clamp_unit, div_toward_zero, spec_clamp_unit, spec_div_toward_zero, time_ok,
};
use crate::vecs::repeat_bool;
use crate::workout::{WorkoutPhase, WorkoutSegmentFocus};

verus! {

/// The most cards a daily workout holds.
pub const MAX_TODAY_CARDS: usize = 20;

/// Nominal quiz-phase size.
pub const QUIZ_TARGET: usize = 5;

/// Nominal apply-phase size.
pub const APPLY_TARGET: usize = 10;

/// Nominal review-phase size.
pub const REVIEW_TARGET: usize = 5;

/// One decrement step of the target trimmer: lower the largest bucket by
/// one, preferring the later phase on ties.
pub open spec fn spec_trim_step(q: int, a: int, r: int) -> (int, int, int) {
    if r >= q && r >= a {
        (q, a, r - 1)
    } else if a >= q {
        (q, a - 1, r)
    } else {
        (q - 1, a, r)
    }
}

/// How many cards each phase aims for, given `n` available cards: the
/// nominal (5, 10, 5) when twenty or more are available, otherwise a
/// proportional share (floored, remainder round-robin from quiz), with
/// every phase bumped to one when at least three cards exist and the
/// largest bucket trimmed until the sum fits.
pub open spec fn spec_segment_targets(n: int) -> (int, int, int) {
    if n <= 0 {
        (0, 0, 0)
    } else if n >= 20 {
        (5, 10, 5)
    } else {
        let q0 = n / 4;
        let a0 = n / 2;
        let r0 = n / 4;
        let rem = n - q0 - a0 - r0;
        let q1 = if rem >= 1 { q0 + 1 } else { q0 };
        let a1 = if rem >= 2 { a0 + 1 } else { a0 };
        let q2 = if n >= 3 && q1 == 0 { 1int } else { q1 };
        let a2 = if n >= 3 && a1 == 0 { 1int } else { a1 };
        let r2 = if n >= 3 && r0 == 0 { 1int } else { r0 };
        let t1 = if q2 + a2 + r2 > n {
            spec_trim_step(q2, a2, r2)
        } else {
            (q2, a2, r2)
        };
        if t1.0 + t1.1 + t1.2 > n {
            spec_trim_step(t1.0, t1.1, t1.2)
        } else {
            t1
        }
    }
}

/// Size the three phases for `n` available cards.
pub fn calculate_segment_targets(total_available: usize) -> (t: (usize, usize, usize))
    ensures
        (t.0 as int, t.1 as int, t.2 as int) == spec_segment_targets(total_available as int),
        total_available == 0 ==> t == (0usize, 0usize, 0usize),
        total_available >= 20 ==> t == (5usize, 10usize, 5usize),
        0 < total_available < 20 ==> t.0 + t.1 + t.2 == total_available,
        total_available > 0 ==> t.0 + t.1 + t.2 == if total_available < 20 {
            total_available as int
        } else {
            20int
        },
        3 <= total_available ==> t.0 >= 1 && t.1 >= 1 && t.2 >= 1,
        t.0 <= 5 && t.1 <= 10 && t.2 <= 5,
{
    if total_available == 0 {
        return (0, 0, 0);
    }
    if total_available >= MAX_TODAY_CARDS {
        return (QUIZ_TARGET, APPLY_TARGET, REVIEW_TARGET);
    }
    let n = total_available;
    let q0 = n / 4;
    let a0 = n / 2;
    let r0 = n / 4;
    let rem = n - q0 - a0 - r0;
    let mut q = if rem >= 1 { q0 + 1 } else { q0 };
    let mut a = if rem >= 2 { a0 + 1 } else { a0 };
    let mut r = r0;
    if n >= 3 {
        if q == 0 {
            q = 1;
        }
        if a == 0 {
            a = 1;
        }
        if r == 0 {
            r = 1;
        }
    }
    if q + a + r > n {
        if r >= q && r >= a {
            r = r - 1;
        } else if a >= q {
            a = a - 1;
        } else {
            q = q - 1;
        }
    }
    if q + a + r > n {
        if r >= q && r >= a {
            r = r - 1;
        } else if a >= q {
            a = a - 1;
        } else {
            q = q - 1;
        }
    }
    (q, a, r)
}

/// How a selection pass extends the selected-flags vector: the new flags
/// keep everything already selected and add exactly the picks, which are
/// distinct, in range, and were unselected before.
pub open spec fn extends_selection(old_sel: Seq<bool>, new_sel: Seq<bool>, picks: Seq<usize>) -> bool {
    &&& new_sel.len() == old_sel.len()
    &&& picks.no_duplicates()
    &&& forall|k: int|
        0 <= k < picks.len() ==> (#[trigger] picks[k] as int) < old_sel.len()
            && !old_sel[picks[k] as int]
    &&& forall|j: int|
        0 <= j < old_sel.len() ==> (new_sel[j] <==> (old_sel[j] || picks.contains(j as usize)))
}

/// The selection bookkeeping: `picked` lists, without repetition, exactly
/// the indices whose flag is set.
pub open spec fn sel_inv(n: int, sel: Seq<bool>, picked: Seq<int>) -> bool {
    &&& sel.len() == n
    &&& picked.no_duplicates()
    &&& forall|k: int| 0 <= k < picked.len() ==> 0 <= #[trigger] picked[k] < n
    &&& forall|j: int| 0 <= j < n ==> (sel[j] <==> picked.contains(j))
}

/// Extending a selection keeps the bookkeeping: the picks (as indices)
/// append to the picked list.
pub proof fn lemma_extend_inv(
    n: int,
    old_sel: Seq<bool>,
    new_sel: Seq<bool>,
    picks: Seq<usize>,
    picked: Seq<int>,
)
    requires
        n <= usize::MAX,
        sel_inv(n, old_sel, picked),
        extends_selection(old_sel, new_sel, picks),
    ensures
        sel_inv(n, new_sel, picked + picks.map_values(|u: usize| u as int)),
        (picked + picks.map_values(|u: usize| u as int)).len() == picked.len() + picks.len(),
{
    let picks_int = picks.map_values(|u: usize| u as int);
    assert(picks_int.len() == picks.len());
    assert forall|x: int| picks_int.contains(x) implies exists|k: int|
        0 <= k < picks.len() && picks[k] as int == x by {
        let k = choose|k: int| 0 <= k < picks_int.len() && picks_int[k] == x;
        assert(picks_int[k] == picks[k] as int);
    }
    assert forall|k: int| 0 <= k < picks.len() implies picks_int.contains(picks[k] as int) by {
        assert(picks_int[k] == picks[k] as int);
    }
    let combined = picked + picks_int;
    assert forall|i: int, j: int| 0 <= i < j < combined.len() implies combined[i] != combined[j] by {
        if j < picked.len() {
            assert(picked.no_duplicates());
        } else if i >= picked.len() {
            let pi = i - picked.len();
            let pj = j - picked.len();
            assert(combined[i] == picks_int[pi] && combined[j] == picks_int[pj]);
            assert(picks[pi] != picks[pj]);
        } else {
            let pj = j - picked.len();
            assert(combined[j] == picks_int[pj] == picks[pj] as int);
            assert(!old_sel[picks[pj] as int]);
            if combined[i] == combined[j] {
                assert(picked.contains(picks[pj] as int));
                assert(old_sel[picks[pj] as int]);
            }
        }
    }
    assert forall|j: int| 0 <= j < n implies (new_sel[j] <==> combined.contains(j)) by {
        if new_sel[j] {
            if old_sel[j] {
                assert(picked.contains(j));
                let k = choose|k: int| 0 <= k < picked.len() && picked[k] == j;
                assert(combined[k] == j);
            } else {
                assert((j as usize) as int == j);
                assert(picks.contains(j as usize));
                let k = choose|k: int| 0 <= k < picks.len() && picks[k] == j as usize;
                assert(picks_int[k] == j);
                assert(combined[picked.len() + k] == j);
            }
        }
        if combined.contains(j) {
            let k = choose|k: int| 0 <= k < combined.len() && combined[k] == j;
            if k < picked.len() {
                assert(picked.contains(j));
            } else {
                assert(picks_int[k - picked.len()] == j);
                assert(picks[k - picked.len()] as int == j);
                assert((j as usize) as int == j);
                assert(picks.contains(j as usize));
            }
        }
    }
}

/// A duplicate-free list of `n` indices below `n` holds every one of
/// them.
pub proof fn lemma_perm_complete(n: int, picks: Seq<int>)
    requires
        0 <= n,
        picks.no_duplicates(),
        picks.len() == n,
        forall|k: int| 0 <= k < picks.len() ==> 0 <= #[trigger] picks[k] < n,
    ensures
        forall|j: int| 0 <= j < n ==> picks.contains(j),
{
    picks.unique_seq_to_set();
    lemma_int_range(0, n);
    assert forall|j: int| 0 <= j < n implies picks.contains(j) by {
        if !picks.to_set().contains(j) {
            let smaller = set_int_range(0, n).remove(j);
            assert(picks.to_set().subset_of(smaller)) by {
                assert forall|x: int| picks.to_set().contains(x) implies smaller.contains(x) by {
                    assert(picks.contains(x));
                    let k = choose|k: int| 0 <= k < picks.len() && picks[k] == x;
                    assert(0 <= picks[k] < n);
                }
            }
            assert(smaller.len() == n - 1) by {
                assert(set_int_range(0, n).contains(j));
            }
            vstd::set_lib::lemma_len_subset(picks.to_set(), smaller);
            assert(false);
        }
    }
}

/// When every flag is set, the picked list holds every index below `n`
/// exactly once, so its length is `n`.
pub proof fn lemma_full_selection(n: int, sel: Seq<bool>, picked: Seq<int>)
    requires
        0 <= n,
        sel_inv(n, sel, picked),
        forall|j: int| 0 <= j < n ==> sel[j],
    ensures
        picked.len() == n,
{
    assert(picked.to_set() =~= set_int_range(0, n)) by {
        assert forall|x: int| picked.to_set().contains(x) implies set_int_range(0, n).contains(
            x,
        ) by {
            assert(picked.contains(x));
            let k = choose|k: int| 0 <= k < picked.len() && picked[k] == x;
            assert(0 <= picked[k] < n);
        }
        assert forall|x: int| set_int_range(0, n).contains(x) implies picked.to_set().contains(
            x,
        ) by {
            assert(sel[x]);
            assert(picked.contains(x));
        }
    }
    picked.unique_seq_to_set();
    lemma_int_range(0, n);
}

/// The best remaining candidate: the eligible, unselected index with the
/// highest score, earliest on ties.
pub(crate) fn best_candidate(scores: &Vec<i64>, eligible: &Vec<bool>, selected: &Vec<bool>) -> (r: Option<
    usize,
>)
    requires
        scores@.len() == selected@.len(),
        eligible@.len() == selected@.len(),
    ensures
        r matches Some(i) ==> (i as int) < selected@.len() && eligible@[i as int]
            && !selected@[i as int] && (forall|j: int|
            0 <= j < selected@.len() && eligible@[j] && !selected@[j] ==> scores@[j] <= scores@[i as int]),
        r is None ==> forall|j: int| 0 <= j < selected@.len() ==> !(eligible@[j] && !selected@[j]),
{
    let mut best: Option<usize> = None;
    let mut i: usize = 0;
    while i < selected.len()
        invariant
            i <= selected.len(),
            scores@.len() == selected@.len(),
            eligible@.len() == selected@.len(),
            best matches Some(b) ==> (b as int) < i && eligible@[b as int] && !selected@[b as int]
                && (forall|j: int|
                0 <= j < i && eligible@[j] && !selected@[j] ==> scores@[j] <= scores@[b as int]),
            best is None ==> forall|j: int| 0 <= j < i ==> !(eligible@[j] && !selected@[j]),
        decreases selected.len() - i,
    {
        if eligible[i] && !selected[i] {
            match best {
                Some(b) => {
                    if scores[i] > scores[b] {
                        best = Some(i);
                    }
                },
                None => {
                    best = Some(i);
                },
            }
        }
        i = i + 1;
    }
    best
}

/// Select up to `cap` candidates, best first, marking each selected; stops
/// early only when no eligible unselected candidate remains.
pub(crate) fn select_top(scores: &Vec<i64>, eligible: &Vec<bool>, selected: &mut Vec<bool>, cap: usize) -> (picks:
    Vec<usize>)
    requires
        scores@.len() == old(selected)@.len(),
        eligible@.len() == old(selected)@.len(),
    ensures
        extends_selection(old(selected)@, final(selected)@, picks@),
        picks@.len() <= cap,
        picks@.len() < cap ==> forall|j: int|
            0 <= j < final(selected)@.len() ==> (eligible@[j] ==> final(selected)@[j]),
        forall|k: int, m: int|
            0 <= k < m < picks@.len() ==> scores@[picks@[k] as int] >= scores@[picks@[m] as int],
        forall|k: int| 0 <= k < picks@.len() ==> eligible@[#[trigger] picks@[k] as int],
{
    let ghost old_sel = selected@;
    let mut picks: Vec<usize> = Vec::new();
    let mut exhausted = false;
    while picks.len() < cap && !exhausted
        invariant
            scores@.len() == old_sel.len(),
            eligible@.len() == old_sel.len(),
            selected@.len() == old_sel.len(),
            picks@.len() <= cap,
            extends_selection(old_sel, selected@, picks@),
            exhausted ==> forall|j: int| 0 <= j < old_sel.len() ==> (eligible@[j] ==> selected@[j]),
            forall|k: int, m: int|
                0 <= k < m < picks@.len() ==> scores@[picks@[k] as int] >= scores@[picks@[m] as int],
            forall|k: int| 0 <= k < picks@.len() ==> eligible@[#[trigger] picks@[k] as int],
            forall|k: int, x: int|
                0 <= k < picks@.len() && 0 <= x < old_sel.len() && #[trigger] eligible@[x]
                    && !selected@[x] ==> scores@[x] <= scores@[#[trigger] picks@[k] as int],
        decreases cap - picks@.len() + (if exhausted { 0int } else { 1int }),
    {
        match best_candidate(scores, eligible, selected) {
            Some(i) => {
                let ghost prev_sel = selected@;
                let ghost prev_picks = picks@;
                selected.set(i, true);
                picks.push(i);
                proof {
                    assert forall|k: int, m: int|
                        0 <= k < m < picks@.len() implies picks@[k] != picks@[m] by {
                        if m == picks@.len() - 1 {
                            if picks@[k] == i {
                                assert(prev_picks.contains(i));
                                assert(prev_sel[i as int]);
                            }
                        }
                    }
                    assert forall|j: int|
                        0 <= j < old_sel.len() implies (selected@[j] <==> (old_sel[j]
                        || picks@.contains(j as usize))) by {
                        if j == i as int {
                            assert(picks@[picks@.len() - 1] == i);
                        } else {
                            assert(selected@.len() == selected.len());
                            assert((j as usize) as int == j);
                            assert(selected@[j] == prev_sel[j]);
                            assert(picks@.contains(j as usize) == prev_picks.contains(j as usize))
                                by {
                                if picks@.contains(j as usize) {
                                    let k = choose|k: int|
                                        0 <= k < picks@.len() && picks@[k] == j as usize;
                                    assert(picks@[k] != i);
                                    assert(k < prev_picks.len());
                                }
                                if prev_picks.contains(j as usize) {
                                    let k = choose|k: int|
                                        0 <= k < prev_picks.len() && prev_picks[k] == j as usize;
                                    assert(picks@[k] == j as usize);
                                }
                            }
                        }
                    }
                }
            },
            None => {
                exhausted = true;
            },
        }
    }
    picks
}


/// The review statistics a candidate is scored with: the recorded ones,
/// or the blank statistics for a never-reviewed card.
pub open spec fn opt_stats_view(st: Option<&CardReviewStats>) -> StatsView {
    match st {
        Some(s) => s@,
        None => empty_stats_view(),
    }
}

/// The resolved ingredients a candidate card is scored from.
#[verifier::ext_equal]
pub ghost struct CandidateFactors {
    pub pr: int,
    pub rel: int,
    pub nov: int,
    pub gap: int,
    pub due: int,
    pub fresh: int,
    pub fr: int,
    pub mom: int,
    pub streak: int,
    pub newb: int,
    pub lfp: int,
    pub sb: StageBias,
    pub d_quiz: int,
    pub d_apply: int,
    pub d_review: int,
    pub d_comp: int,
    pub d_neglect: int,
    pub s_quiz: int,
    pub s_apply: int,
    pub s_review: int,
    pub s_growth: int,
    pub s_gap: int,
}

/// Resolve the scoring ingredients of one candidate card.
#[verifier::opaque]
pub open spec fn spec_factors(
    card: MemoryCard,
    stv: StatsView,
    now: int,
    stage: DirectionStage,
    d: DirectionSignal,
    sk: SkillSignal,
) -> CandidateFactors {
    CandidateFactors {
        pr: spec_clamp_unit(card.priority as int),
        rel: spec_clamp_unit(card.relevance as int),
        nov: spec_clamp_unit(card.novelty as int),
        gap: spec_clamp_unit(1000 - card.stability),
        due: spec_due_urgency(card.next_due, now),
        fresh: spec_freshness(stv, now),
        fr: spec_fail_rate(stv),
        mom: spec_momentum(stv.consecutive_passes),
        streak: spec_fail_streak(stv.consecutive_fails),
        newb: if stv.pass_count + stv.fail_count == 0 {
            1000
        } else {
            0
        },
        lfp: spec_fail_recency(stv.last_fail_at, now),
        sb: spec_stage_bias(stage),
        d_quiz: d.spec_quiz_bias(),
        d_apply: d.spec_apply_bias(),
        d_review: d.spec_review_bias(),
        d_comp: d.spec_composite_bias(),
        d_neglect: d.neglect_pressure as int,
        s_quiz: sk.spec_quiz_bias(),
        s_apply: sk.spec_apply_bias(),
        s_review: sk.spec_review_bias(),
        s_growth: sk.spec_growth_pressure(),
        s_gap: sk.spec_level_gap(),
    }
}

/// Blend resolved ingredients into the four fitness scores.
pub open spec fn spec_scores_of(f: CandidateFactors) -> SegmentScores {
    SegmentScores {
        quiz: spec_clamp_unit(
            (300 * f.due + 250 * f.gap + 150 * f.pr + 150 * f.mom + 100 * (1000 - f.fr) + 50
                * f.nov + 50 * f.newb + 80 * f.d_quiz + 80 * f.s_quiz + 50 * f.s_gap) / 1000
                + f.sb.quiz,
        ) as i64,
        apply: spec_clamp_unit(
            spec_div_toward_zero(
                400 * f.rel + 200 * f.nov + 150 * f.pr + 150 * f.mom + 100 * f.fresh - 100 * f.fr
                    + 100 * f.d_apply + 100 * f.s_apply + 50 * f.s_gap,
                1000,
            ) + f.sb.apply,
        ) as i64,
        review: spec_clamp_unit(
            (350 * f.fr + 250 * f.streak + 200 * f.due + 100 * f.lfp + 100 * f.gap + 120
                * f.d_review + 100 * f.s_review + 40 * f.s_gap) / 1000 + f.sb.review,
        ) as i64,
        composite: spec_clamp_unit(
            (350 * f.pr + 250 * f.due + 150 * f.rel + 100 * f.streak + 100 * f.mom + 50 * f.nov
                + 100 * f.sb.apply + 50 * f.sb.review + 50 * f.sb.quiz + 100 * f.d_comp + 80
                * f.s_growth + 50 * f.s_gap) / 1000,
        ) as i64,
    }
}

/// The four fitness scores of one candidate card.
pub open spec fn spec_segment_scores(
    card: MemoryCard,
    stv: StatsView,
    now: int,
    stage: DirectionStage,
    d: DirectionSignal,
    sk: SkillSignal,
) -> SegmentScores {
    spec_scores_of(spec_factors(card, stv, now, stage, d, sk))
}

/// Score one candidate card for the three phases and the composite rank,
/// from its statistics, its direction's stage and signal, and its skill's
/// signal.
/// Exec-side resolved scoring ingredients, mirroring [`CandidateFactors`].
struct FactorsExec {
    pr: i64,
    rel: i64,
    nov: i64,
    gap: i64,
    due: i64,
    fresh: i64,
    fr: i64,
    mom: i64,
    streak: i64,
    newb: i64,
    lfp: i64,
    sb: StageBias,
    d_quiz: i64,
    d_apply: i64,
    d_review: i64,
    d_comp: i64,
    d_neglect: i64,
    s_quiz: i64,
    s_apply: i64,
    s_review: i64,
    s_growth: i64,
    s_gap: i64,
}

impl FactorsExec {
    /// The ingredients this exec value stands for.
    spec fn as_ghost(&self) -> CandidateFactors {
        CandidateFactors {
            pr: self.pr as int,
            rel: self.rel as int,
            nov: self.nov as int,
            gap: self.gap as int,
            due: self.due as int,
            fresh: self.fresh as int,
            fr: self.fr as int,
            mom: self.mom as int,
            streak: self.streak as int,
            newb: self.newb as int,
            lfp: self.lfp as int,
            sb: self.sb,
            d_quiz: self.d_quiz as int,
            d_apply: self.d_apply as int,
            d_review: self.d_review as int,
            d_comp: self.d_comp as int,
            d_neglect: self.d_neglect as int,
            s_quiz: self.s_quiz as int,
            s_apply: self.s_apply as int,
            s_review: self.s_review as int,
            s_growth: self.s_growth as int,
            s_gap: self.s_gap as int,
        }
    }

    /// Every ingredient lies in the unit interval (the stage bias within
    /// its small range).
    spec fn bounded(&self) -> bool {
        &&& 0 <= self.pr <= 1000
        &&& 0 <= self.rel <= 1000
        &&& 0 <= self.nov <= 1000
        &&& 0 <= self.gap <= 1000
        &&& 0 <= self.due <= 1000
        &&& 0 <= self.fresh <= 1000
        &&& 0 <= self.fr <= 1000
        &&& 0 <= self.mom <= 1000
        &&& 0 <= self.streak <= 1000
        &&& 0 <= self.newb <= 1000
        &&& 0 <= self.lfp <= 1000
        &&& 0 <= self.sb.quiz <= 100
        &&& 0 <= self.sb.apply <= 100
        &&& 0 <= self.sb.review <= 100
        &&& 0 <= self.d_quiz <= 1000
        &&& 0 <= self.d_apply <= 1000
        &&& 0 <= self.d_review <= 1000
        &&& 0 <= self.d_comp <= 1000
        &&& 0 <= self.d_neglect <= 1000
        &&& 0 <= self.s_quiz <= 1000
        &&& 0 <= self.s_apply <= 1000
        &&& 0 <= self.s_review <= 1000
        &&& 0 <= self.s_growth <= 1000
        &&& 0 <= self.s_gap <= 1000
    }
}

/// Resolve the scoring ingredients of one candidate card.
#[verifier::spinoff_prover]
fn resolve_factors(
    card: &MemoryCard,
    st: Option<&CardReviewStats>,
    now: i64,
    stage: DirectionStage,
    d: &DirectionSignal,
    sk: &SkillSignal,
) -> (r: FactorsExec)
    requires
        card.times_ok(),
        time_ok(now as int),
        st matches Some(s) ==> s.times_ok() && counts_ok(s@),
        d.wf(),
        sk.wf(),
    ensures
        r.as_ghost() == spec_factors(*card, opt_stats_view(st), now as int, stage, *d, *sk),
        r.bounded(),
{
    let blank = CardReviewStats::default();
    let stats = match st {
        Some(s) => s,
        None => &blank,
    };
    proof {
        assert(stats@ == opt_stats_view(st));
    }
    let gap = clamp_unit(1000 - clamp_unit(card.stability));
    proof {
        assert(spec_clamp_unit(1000 - spec_clamp_unit(card.stability as int)) == spec_clamp_unit(
            1000 - card.stability,
        ));
    }
    let newb: i64 = if stats.total_reviews() == 0 {
        1000
    } else {
        0
    };
    let r = FactorsExec {
        pr: clamp_unit(card.priority),
        rel: clamp_unit(card.relevance),
        nov: clamp_unit(card.novelty),
        gap,
        due: due_urgency(card.next_due, now),
        fresh: freshness(stats, now),
        fr: fail_rate(stats),
        mom: momentum(stats.consecutive_passes),
        streak: fail_streak(stats.consecutive_fails),
        newb,
        lfp: fail_recency(stats.last_fail_at, now),
        sb: stage_bias(stage),
        d_quiz: d.quiz_bias(),
        d_apply: d.apply_bias(),
        d_review: d.review_bias(),
        d_comp: d.composite_bias(),
        d_neglect: d.neglect_pressure,
        s_quiz: sk.quiz_bias(),
        s_apply: sk.apply_bias(),
        s_review: sk.review_bias(),
        s_growth: sk.growth_pressure(),
        s_gap: sk.level.level_gap(),
    };
    proof {
        reveal(spec_factors);
        assert(r.as_ghost() =~= spec_factors(*card, opt_stats_view(st), now as int, stage, *d, *sk));
    }
    r
}

/// Score one candidate card for the three phases and the composite rank,
/// from its statistics, its direction's stage and signal, and its skill's
/// signal.
#[verifier::rlimit(100)]
#[verifier::spinoff_prover]
pub fn compute_segment_scores(
    card: &MemoryCard,
    st: Option<&CardReviewStats>,
    now: i64,
    stage: DirectionStage,
    d: &DirectionSignal,
    sk: &SkillSignal,
) -> (r: SegmentScores)
    requires
        card.times_ok(),
        time_ok(now as int),
        st matches Some(s) ==> s.times_ok() && counts_ok(s@),
        d.wf(),
        sk.wf(),
    ensures
        r == spec_segment_scores(*card, opt_stats_view(st), now as int, stage, *d, *sk),
        0 <= r.quiz <= 1000,
        0 <= r.apply <= 1000,
        0 <= r.review <= 1000,
        0 <= r.composite <= 1000,
{
    let f = resolve_factors(card, st, now, stage, d, sk);
    let quiz = clamp_unit(
        (300 * f.due + 250 * f.gap + 150 * f.pr + 150 * f.mom + 100 * (1000 - f.fr) + 50 * f.nov
            + 50 * f.newb + 80 * f.d_quiz + 80 * f.s_quiz + 50 * f.s_gap) / 1000 + f.sb.quiz,
    );
    let apply = clamp_unit(
        div_toward_zero(
            400 * f.rel + 200 * f.nov + 150 * f.pr + 150 * f.mom + 100 * f.fresh - 100 * f.fr
                + 100 * f.d_apply + 100 * f.s_apply + 50 * f.s_gap,
            1000,
        ) + f.sb.apply,
    );
    let review = clamp_unit(
        (350 * f.fr + 250 * f.streak + 200 * f.due + 100 * f.lfp + 100 * f.gap + 120 * f.d_review
            + 100 * f.s_review + 40 * f.s_gap) / 1000 + f.sb.review,
    );
    let composite = clamp_unit(
        (350 * f.pr + 250 * f.due + 150 * f.rel + 100 * f.streak + 100 * f.mom + 50 * f.nov + 100
            * f.sb.apply + 50 * f.sb.review + 50 * f.sb.quiz + 100 * f.d_comp + 80 * f.s_growth
            + 50 * f.s_gap) / 1000,
    );
    let r = SegmentScores { quiz, apply, review, composite };
    proof {
        assert(r == spec_scores_of(f.as_ghost()));
    }
    r
}

/// Whether a card may seed the quiz phase: it is due soon, brand new, or
/// its direction is badly neglected.
pub fn quiz_seed_eligible(card: &MemoryCard, st: Option<&CardReviewStats>, now: i64, d: &DirectionSignal) -> (r:
    bool)
    requires
        card.times_ok(),
        time_ok(now as int),
        st matches Some(s) ==> s.times_ok(),
    ensures
        r == (spec_due_urgency(card.next_due, now as int) >= 550 || opt_stats_view(st).last_seen
            is None || d.neglect_pressure >= 450),
{
    let due = due_urgency(card.next_due, now);
    let is_new = match st {
        Some(s) => s.last_seen.is_none(),
        None => true,
    };
    due >= 550 || is_new || d.neglect_pressure >= 450
}

/// The quiz seeding rank of an eligible card (scaled by a further
/// thousand): due-ness and the stability gap dominate, novelty and
/// newness help, and the direction and skill add their pull.
pub fn quiz_seed_score(
    card: &MemoryCard,
    st: Option<&CardReviewStats>,
    now: i64,
    stage: DirectionStage,
    d: &DirectionSignal,
    sk: &SkillSignal,
) -> (r: i64)
    requires
        card.times_ok(),
        time_ok(now as int),
        st matches Some(s) ==> s.times_ok() && counts_ok(s@),
        d.wf(),
        sk.wf(),
    ensures
        r == 450 * spec_due_urgency(card.next_due, now as int) + 250 * spec_clamp_unit(
            1000 - card.stability,
        ) + 200 * spec_clamp_unit(card.novelty as int) + (
        if opt_stats_view(st).last_seen is None {
            100000int
        } else {
            0int
        }) + 1000 * spec_stage_bias(stage).quiz + 200 * d.spec_quiz_bias() + 120
            * d.neglect_pressure + 80 * sk.spec_quiz_bias() + 50 * sk.spec_level_gap(),
{
    let due = due_urgency(card.next_due, now);
    let gap = clamp_unit(1000 - clamp_unit(card.stability));
    proof {
        assert(spec_clamp_unit(1000 - spec_clamp_unit(card.stability as int)) == spec_clamp_unit(
            1000 - card.stability,
        ));
    }
    let nov = clamp_unit(card.novelty);
    let is_new = match st {
        Some(s) => s.last_seen.is_none(),
        None => true,
    };
    let new_bonus: i64 = if is_new {
        100000
    } else {
        0
    };
    let sb = stage_bias(stage);
    450 * due + 250 * gap + 200 * nov + new_bonus + 1000 * sb.quiz + 200 * d.quiz_bias() + 120
        * d.neglect_pressure + 80 * sk.quiz_bias() + 50 * sk.level.level_gap()
}

/// Whether a card may seed the apply phase: excluded only when it has no
/// momentum, fails often, is not novel, and its stage does not push it
/// toward application.
pub fn apply_seed_eligible(
    card: &MemoryCard,
    st: Option<&CardReviewStats>,
    stage: DirectionStage,
) -> (r: bool)
    requires
        st matches Some(s) ==> counts_ok(s@),
    ensures
        r == !(spec_momentum(opt_stats_view(st).consecutive_passes) == 0 && spec_fail_rate(
            opt_stats_view(st),
        ) > 400 && card.novelty < 600 && spec_stage_bias(stage).apply < 80),
{
    let blank = CardReviewStats::default();
    let stats = match st {
        Some(s) => s,
        None => &blank,
    };
    let mom = momentum(stats.consecutive_passes);
    let fr = fail_rate(stats);
    let sb = stage_bias(stage);
    !(mom == 0 && fr > 400 && card.novelty < 600 && sb.apply < 80)
}

/// The apply seeding rank of an eligible card: relevance and novelty
/// dominate, momentum and freshness help, failures hold it back.
pub fn apply_seed_score(
    card: &MemoryCard,
    st: Option<&CardReviewStats>,
    now: i64,
    stage: DirectionStage,
    d: &DirectionSignal,
    sk: &SkillSignal,
) -> (r: i64)
    requires
        card.times_ok(),
        time_ok(now as int),
        st matches Some(s) ==> s.times_ok() && counts_ok(s@),
        d.wf(),
        sk.wf(),
    ensures
        r == 350 * spec_clamp_unit(card.relevance as int) + 230 * spec_clamp_unit(
            card.novelty as int,
        ) + 180 * spec_momentum(opt_stats_view(st).consecutive_passes) + 100 * spec_freshness(
            opt_stats_view(st),
            now as int,
        ) + 100 * (1000 - spec_fail_rate(opt_stats_view(st))) + 1000 * spec_stage_bias(
            stage,
        ).apply + 180 * d.spec_apply_bias() + 100 * d.neglect_pressure + 100 * sk.spec_apply_bias()
            + 60 * sk.spec_level_gap(),
{
    let blank = CardReviewStats::default();
    let stats = match st {
        Some(s) => s,
        None => &blank,
    };
    let rel = clamp_unit(card.relevance);
    let nov = clamp_unit(card.novelty);
    let mom = momentum(stats.consecutive_passes);
    let fresh = freshness(stats, now);
    let fr = fail_rate(stats);
    let sb = stage_bias(stage);
    350 * rel + 230 * nov + 180 * mom + 100 * fresh + 100 * (1000 - fr) + 1000 * sb.apply + 180
        * d.apply_bias() + 100 * d.neglect_pressure + 100 * sk.apply_bias() + 60
        * sk.level.level_gap()
}

/// Whether a card may seed the review phase: it has been reviewed before
/// and shows a failure streak or a noticeable fail rate.
pub fn review_seed_eligible(st: Option<&CardReviewStats>) -> (r: bool)
    requires
        st matches Some(s) ==> counts_ok(s@),
    ensures
        r == (st matches Some(s) && !(spec_fail_streak(s@.consecutive_fails) == 0 && spec_fail_rate(
            s@,
        ) < 250)),
{
    match st {
        Some(s) => {
            let streak = fail_streak(s.consecutive_fails);
            let fr = fail_rate(s);
            !(streak == 0 && fr < 250)
        },
        None => false,
    }
}

/// The review seeding rank of an eligible card: the fail rate and streak
/// dominate, due-ness and the recency of the last failure help.
pub fn review_seed_score(
    card: &MemoryCard,
    st: Option<&CardReviewStats>,
    now: i64,
    stage: DirectionStage,
    d: &DirectionSignal,
    sk: &SkillSignal,
) -> (r: i64)
    requires
        card.times_ok(),
        time_ok(now as int),
        st matches Some(s) ==> s.times_ok() && counts_ok(s@),
        d.wf(),
        sk.wf(),
    ensures
        r == 400 * spec_fail_rate(opt_stats_view(st)) + 300 * spec_fail_streak(
            opt_stats_view(st).consecutive_fails,
        ) + 200 * spec_due_urgency(card.next_due, now as int) + 100 * spec_fail_recency(
            opt_stats_view(st).last_fail_at,
            now as int,
        ) + 1000 * spec_stage_bias(stage).review + 200 * d.spec_review_bias() + 100
            * d.neglect_pressure + 100 * sk.spec_review_bias() + 50 * sk.spec_level_gap(),
{
    let blank = CardReviewStats::default();
    let stats = match st {
        Some(s) => s,
        None => &blank,
    };
    let fr = fail_rate(stats);
    let streak = fail_streak(stats.consecutive_fails);
    let due = due_urgency(card.next_due, now);
    let recency = fail_recency(stats.last_fail_at, now);
    let sb = stage_bias(stage);
    400 * fr + 300 * streak + 200 * due + 100 * recency + 1000 * sb.review + 200 * d.review_bias()
        + 100 * d.neglect_pressure + 100 * sk.review_bias() + 50 * sk.level.level_gap()
}

/// The rank used to top a phase up from the remaining candidates: the
/// phase's fitness score plus the direction's and skill's pull.
pub fn phase_fill_score(
    scores: &SegmentScores,
    phase: WorkoutPhase,
    d: &DirectionSignal,
    sk: &SkillSignal,
) -> (r: i64)
    requires
        d.wf(),
        sk.wf(),
        0 <= scores.quiz <= 1000,
        0 <= scores.apply <= 1000,
        0 <= scores.review <= 1000,
    ensures
        r == 1000 * scores.spec_for_phase(phase) + 120 * d.spec_for_phase(phase) + 50
            * d.neglect_pressure + 80 * sk.spec_for_phase(phase) + 50 * sk.spec_growth_pressure(),
{
    1000 * scores.for_phase(phase) + 120 * d.for_phase(phase) + 50 * d.neglect_pressure + 80
        * sk.for_phase(phase) + 50 * sk.growth_pressure()
}

/// The rank used to backfill leftover slots regardless of phase: the
/// composite fitness plus the direction's and skill's overall pull.
pub fn composite_fill_score(scores: &SegmentScores, d: &DirectionSignal, sk: &SkillSignal) -> (r:
    i64)
    requires
        d.wf(),
        sk.wf(),
        0 <= scores.composite <= 1000,
    ensures
        r == 1000 * scores.composite + 150 * d.spec_composite_bias() + 80 * d.neglect_pressure + 80
            * sk.spec_growth_pressure(),
{
    1000 * scores.composite + 150 * d.composite_bias() + 80 * d.neglect_pressure + 80
        * sk.growth_pressure()
}

/// One selected phase of a workout in the making: its cards in practice
/// order and, once derived, its focus summary.
pub struct SegmentAllocation {
    pub phase: WorkoutPhase,
    pub focus_details: Option<WorkoutSegmentFocus>,
    pub cards: Vec<MemoryCard>,
}

/// Whether `c` is one of the pool's cards.
pub open spec fn from_pool(cards: Seq<MemoryCard>, c: MemoryCard) -> bool {
    exists|ci: int| 0 <= ci < cards.len() && cards[ci] == c
}

/// The card identifiers of one segment, in order.
pub open spec fn segment_ids(seg: SegmentAllocation) -> Seq<u128> {
    seg.cards@.map_values(|c: MemoryCard| c.id)
}

/// The card identifiers chosen across all segments, in order.
pub open spec fn chosen_ids(segs: Seq<SegmentAllocation>) -> Seq<u128>
    decreases segs.len(),
{
    if segs.len() == 0 {
        Seq::empty()
    } else {
        chosen_ids(segs.drop_last()) + segment_ids(segs.last())
    }
}

/// Copy the pool cards at the given indices, in order.
fn collect_cards(cards: &Vec<MemoryCard>, idx: &Vec<usize>) -> (r: Vec<MemoryCard>)
    requires
        forall|k: int| 0 <= k < idx@.len() ==> (#[trigger] idx@[k] as int) < cards@.len(),
    ensures
        r@.len() == idx@.len(),
        forall|k: int| 0 <= k < idx@.len() ==> #[trigger] r@[k] == cards@[idx@[k] as int],
{
    let mut r: Vec<MemoryCard> = Vec::new();
    let mut i: usize = 0;
    while i < idx.len()
        invariant
            i <= idx.len(),
            r@.len() == i,
            forall|k: int| 0 <= k < idx@.len() ==> (#[trigger] idx@[k] as int) < cards@.len(),
            forall|k: int| 0 <= k < i ==> #[trigger] r@[k] == cards@[idx@[k] as int],
        decreases idx.len() - i,
    {
        r.push(cards[idx[i]].clone());
        i = i + 1;
    }
    r
}


/// Once the three segments hold the pool cards at the picked indices,
/// and the picked indices are distinct, the assembled plan selects no
/// card twice and only cards from the pool.
#[verifier::spinoff_prover]
proof fn lemma_segments_assembled(
    cards: Seq<MemoryCard>,
    segs: Seq<SegmentAllocation>,
    q_idx: Seq<usize>,
    a_idx: Seq<usize>,
    r_idx: Seq<usize>,
    picked: Seq<int>,
)
    requires
        segs.len() == 3,
        segs[0].cards@.len() == q_idx.len(),
        segs[1].cards@.len() == a_idx.len(),
        segs[2].cards@.len() == r_idx.len(),
        forall|k: int|
            0 <= k < q_idx.len() ==> (#[trigger] q_idx[k] as int) < cards.len() && segs[0].cards@[k]
                == cards[q_idx[k] as int],
        forall|k: int|
            0 <= k < a_idx.len() ==> (#[trigger] a_idx[k] as int) < cards.len() && segs[1].cards@[k]
                == cards[a_idx[k] as int],
        forall|k: int|
            0 <= k < r_idx.len() ==> (#[trigger] r_idx[k] as int) < cards.len() && segs[2].cards@[k]
                == cards[r_idx[k] as int],
        picked.no_duplicates(),
        picked == q_idx.map_values(|u: usize| u as int) + a_idx.map_values(|u: usize| u as int)
            + r_idx.map_values(|u: usize| u as int),
    ensures
        unique_card_ids(cards) ==> chosen_ids(segs).no_duplicates(),
        forall|si: int, k: int|
            0 <= si < segs.len() && 0 <= k < segs[si].cards@.len() ==> from_pool(
                cards,
                #[trigger] segs[si].cards@[k],
            ),
{
    let to_int = |u: usize| u as int;
    let id_of = |pi: int| cards[pi].id;
    let q_int = q_idx.map_values(to_int);
    let a_int = a_idx.map_values(to_int);
    let r_int = r_idx.map_values(to_int);
    assert(segment_ids(segs[0]) =~= q_int.map_values(id_of)) by {
        assert forall|k: int| 0 <= k < q_idx.len() implies segment_ids(segs[0])[k]
            == q_int.map_values(id_of)[k] by {
            assert(segs[0].cards@[k] == cards[q_idx[k] as int]);
        }
    }
    assert(segment_ids(segs[1]) =~= a_int.map_values(id_of)) by {
        assert forall|k: int| 0 <= k < a_idx.len() implies segment_ids(segs[1])[k]
            == a_int.map_values(id_of)[k] by {
            assert(segs[1].cards@[k] == cards[a_idx[k] as int]);
        }
    }
    assert(segment_ids(segs[2]) =~= r_int.map_values(id_of)) by {
        assert forall|k: int| 0 <= k < r_idx.len() implies segment_ids(segs[2])[k]
            == r_int.map_values(id_of)[k] by {
            assert(segs[2].cards@[k] == cards[r_idx[k] as int]);
        }
    }
    let s0 = segs.subrange(0, 0);
    let s1 = segs.subrange(0, 1);
    let s2 = segs.subrange(0, 2);
    assert(chosen_ids(s0) =~= Seq::<u128>::empty());
    assert(s1.drop_last() =~= s0);
    assert(s1.last() == segs[0]);
    assert(chosen_ids(s1) == chosen_ids(s0) + segment_ids(segs[0]));
    assert(s2.drop_last() =~= s1);
    assert(s2.last() == segs[1]);
    assert(chosen_ids(s2) == chosen_ids(s1) + segment_ids(segs[1]));
    assert(segs.drop_last() =~= s2);
    assert(segs.last() == segs[2]);
    assert(chosen_ids(segs) == chosen_ids(s2) + segment_ids(segs[2]));
    let m = picked.map_values(id_of);
    assert(chosen_ids(segs) =~= m);
    if unique_card_ids(cards) {
        assert forall|m1: int, m2: int| 0 <= m1 < m2 < m.len() implies m[m1] != m[m2] by {
            assert(m[m1] == cards[picked[m1]].id);
            assert(m[m2] == cards[picked[m2]].id);
            assert(picked[m1] != picked[m2]);
            assert(0 <= picked[m1] < cards.len() && 0 <= picked[m2] < cards.len()) by {
                assert(picked.len() == q_int.len() + a_int.len() + r_int.len());
                if m1 < q_int.len() {
                } else if m1 < q_int.len() + a_int.len() {
                } else {
                }
            }
        }
        assert(chosen_ids(segs).no_duplicates());
    }
    assert forall|si: int, k: int|
        0 <= si < segs.len() && 0 <= k < segs[si].cards@.len() implies from_pool(
        cards,
        #[trigger] segs[si].cards@[k],
    ) by {
        if si == 0 {
            assert(cards[q_idx[k] as int] == segs[0].cards@[k]);
        } else if si == 1 {
            assert(cards[a_idx[k] as int] == segs[1].cards@[k]);
        } else {
            assert(cards[r_idx[k] as int] == segs[2].cards@[k]);
        }
    }
}

/// The nine per-card rankings that drive seeding and filling.
struct Rankings {
    q_elig: Vec<bool>,
    q_seed: Vec<i64>,
    a_elig: Vec<bool>,
    a_seed: Vec<i64>,
    r_elig: Vec<bool>,
    r_seed: Vec<i64>,
    q_fill: Vec<i64>,
    a_fill: Vec<i64>,
    r_fill: Vec<i64>,
}

impl Rankings {
    /// Every ranking covers the whole pool.
    spec fn covers(&self, n: int) -> bool {
        &&& self.q_elig@.len() == n
        &&& self.q_seed@.len() == n
        &&& self.a_elig@.len() == n
        &&& self.a_seed@.len() == n
        &&& self.r_elig@.len() == n
        &&& self.r_seed@.len() == n
        &&& self.q_fill@.len() == n
        &&& self.a_fill@.len() == n
        &&& self.r_fill@.len() == n
    }
}

/// Rank every pool card for seeding and filling each phase.
#[verifier::spinoff_prover]
fn build_rankings(
    cards: &Vec<MemoryCard>,
    stats: &Vec<(u128, CardReviewStats)>,
    now: i64,
    directions: &Vec<Direction>,
    dsigs: &Vec<(u128, DirectionSignal)>,
    ssigs: &Vec<(u128, SkillSignal)>,
) -> (r: Rankings)
    requires
        time_ok(now as int),
        cards_times_ok(cards@),
        stats_list_ok(stats@),
        cards@.len() <= MAX_POOL,
        crate::signals::direction_signals_wf(dsigs@),
        crate::signals::skill_signals_wf(ssigs@),
    ensures
        r.covers(cards@.len() as int),
{
    let n = cards.len();
    let mut r = Rankings {
        q_elig: Vec::new(),
        q_seed: Vec::new(),
        a_elig: Vec::new(),
        a_seed: Vec::new(),
        r_elig: Vec::new(),
        r_seed: Vec::new(),
        q_fill: Vec::new(),
        a_fill: Vec::new(),
        r_fill: Vec::new(),
    };
    let mut i: usize = 0;
    while i < n
        invariant
            i <= n,
            n == cards@.len(),
            time_ok(now as int),
            cards_times_ok(cards@),
            stats_list_ok(stats@),
            cards@.len() <= MAX_POOL,
            crate::signals::direction_signals_wf(dsigs@),
            crate::signals::skill_signals_wf(ssigs@),
            r.covers(i as int),
        decreases n - i,
    {
        let card = &cards[i];
        let st = stats_for(stats, card.id);
        proof {
            match st {
                Some(sv) => {
                    let w = choose|w: int|
                        0 <= w < stats@.len() && #[trigger] stats@[w].0 == card.id && stats@[w].1@
                            == sv@ && stats@[w].1.times_ok() == sv.times_ok();
                    assert(stats@[w].1.times_ok() && counts_ok(stats@[w].1@));
                },
                None => {},
            }
        }
        let stage = stage_for(directions, card.direction_id);
        let d = find_direction_signal(dsigs, card.direction_id);
        let sk = find_skill_signal(ssigs, card.skill_point_id);
        let scores = compute_segment_scores(card, st, now, stage, &d, &sk);
        r.q_elig.push(quiz_seed_eligible(card, st, now, &d));
        r.q_seed.push(quiz_seed_score(card, st, now, stage, &d, &sk));
        r.a_elig.push(apply_seed_eligible(card, st, stage));
        r.a_seed.push(apply_seed_score(card, st, now, stage, &d, &sk));
        r.r_elig.push(review_seed_eligible(st));
        r.r_seed.push(review_seed_score(card, st, now, stage, &d, &sk));
        r.q_fill.push(phase_fill_score(&scores, WorkoutPhase::Quiz, &d, &sk));
        r.a_fill.push(phase_fill_score(&scores, WorkoutPhase::Apply, &d, &sk));
        r.r_fill.push(phase_fill_score(&scores, WorkoutPhase::Review, &d, &sk));
        i = i + 1;
    }
    r
}

/// Seed one phase from its eligible candidates, then top it up to its
/// full target by the phase's fill ranking. The target is always reached:
/// the combined targets never exceed the pool.
#[verifier::spinoff_prover]
fn fill_phase(
    seed_scores: &Vec<i64>,
    seed_elig: &Vec<bool>,
    fill_scores: &Vec<i64>,
    all_true: &Vec<bool>,
    selected: &mut Vec<bool>,
    seed_cap: usize,
    target: usize,
    Ghost(picked): Ghost<Seq<int>>,
    Ghost(already): Ghost<int>,
    Ghost(budget): Ghost<int>,
) -> (idx: Vec<usize>)
    requires
        seed_cap <= target,
        seed_scores@.len() == old(selected)@.len(),
        seed_elig@.len() == old(selected)@.len(),
        fill_scores@.len() == old(selected)@.len(),
        all_true@.len() == old(selected)@.len(),
        forall|j: int| 0 <= j < all_true@.len() ==> all_true@[j],
        sel_inv(old(selected)@.len() as int, old(selected)@, picked),
        picked.len() == already,
        already + target <= budget,
        budget <= old(selected)@.len(),
    ensures
        final(selected)@.len() == old(selected)@.len(),
        idx@.len() == target,
        extends_selection(old(selected)@, final(selected)@, idx@),
        sel_inv(
            final(selected)@.len() as int,
            final(selected)@,
            picked + idx@.map_values(|u: usize| u as int),
        ),
        (picked + idx@.map_values(|u: usize| u as int)).len() == already + target,
{
    let ghost n = old(selected)@.len() as int;
    proof {
        assert(selected@.len() == selected.len());
    }
    let ghost sel0 = selected@;
    let mut idx = select_top(seed_scores, seed_elig, selected, seed_cap);
    let ghost picked1 = picked + idx@.map_values(|u: usize| u as int);
    proof {
        lemma_extend_inv(n, sel0, selected@, idx@, picked);
    }
    let need = target - idx.len();
    let ghost sel1 = selected@;
    let mut more = select_top(fill_scores, all_true, selected, need);
    let ghost picked2 = picked1 + more@.map_values(|u: usize| u as int);
    proof {
        lemma_extend_inv(n, sel1, selected@, more@, picked1);
        if more@.len() < need {
            assert forall|j: int| 0 <= j < n implies selected@[j] by {
                assert(all_true@[j]);
            }
            lemma_full_selection(n, selected@, picked2);
            assert(picked2.len() < already + target);
            assert(false);
        }
    }
    let ghost seed_part = idx@;
    let ghost more_part = more@;
    idx.append(&mut more);
    proof {
        assert(idx@ == seed_part + more_part);
        assert(idx@.len() == target);
        assert(picked2 =~= picked + idx@.map_values(|u: usize| u as int)) by {
            assert(idx@.map_values(|u: usize| u as int) =~= seed_part.map_values(
                |u: usize| u as int,
            ) + more_part.map_values(|u: usize| u as int));
        }
        assert forall|k: int, m: int| 0 <= k < m < idx@.len() implies idx@[k] != idx@[m] by {
            let ci = picked + idx@.map_values(|u: usize| u as int);
            assert(ci[picked.len() + k] == idx@[k] as int);
            assert(ci[picked.len() + m] == idx@[m] as int);
        }
        assert forall|k: int|
            0 <= k < idx@.len() implies (#[trigger] idx@[k] as int) < n && !sel0[idx@[k] as int]
             by {
            if k < seed_part.len() {
                assert(idx@[k] == seed_part[k]);
            } else {
                assert(idx@[k] == more_part[k - seed_part.len()]);
                assert(!sel1[idx@[k] as int]);
                assert(sel1[idx@[k] as int] == (sel0[idx@[k] as int] || seed_part.contains(
                    idx@[k],
                )));
            }
        }
        assert forall|j: int|
            0 <= j < n implies (selected@[j] <==> (sel0[j] || idx@.contains(j as usize))) by {
            assert(selected@[j] == (sel1[j] || more_part.contains(j as usize)));
            assert(sel1[j] == (sel0[j] || seed_part.contains(j as usize)));
            assert(idx@.contains(j as usize) == (seed_part.contains(j as usize)
                || more_part.contains(j as usize))) by {
                if idx@.contains(j as usize) {
                    let k = choose|k: int| 0 <= k < idx@.len() && idx@[k] == j as usize;
                    if k < seed_part.len() {
                        assert(seed_part[k] == j as usize);
                    } else {
                        assert(more_part[k - seed_part.len()] == j as usize);
                    }
                }
                if seed_part.contains(j as usize) {
                    let k = choose|k: int| 0 <= k < seed_part.len() && seed_part[k] == j as usize;
                    assert(idx@[k] == j as usize);
                }
                if more_part.contains(j as usize) {
                    let k = choose|k: int| 0 <= k < more_part.len() && more_part[k] == j as usize;
                    assert(idx@[seed_part.len() + k] == j as usize);
                }
            }
        }
    }
    idx
}

/// Assemble the three workout segments from the candidate pool: size the
/// phases, seed each phase with its heuristically eligible picks, and top
/// each up from the remaining candidates by score. Every phase reaches
/// its target (the scaled targets never exceed the pool), and no card is
/// selected twice.
#[verifier::rlimit(100)]
#[verifier::spinoff_prover]
pub fn schedule_segments(
    cards: &Vec<MemoryCard>,
    stats: &Vec<(u128, CardReviewStats)>,
    now: i64,
    directions: &Vec<Direction>,
    skills: &Vec<SkillPoint>,
) -> (segs: Vec<SegmentAllocation>)
    requires
        time_ok(now as int),
        cards_times_ok(cards@),
        stats_list_ok(stats@),
        cards@.len() <= MAX_POOL,
    ensures
        cards@.len() == 0 ==> segs@.len() == 0,
        cards@.len() > 0 ==> ({
            let n = cards@.len() as int;
            let pool = if n < 20 {
                n
            } else {
                20int
            };
            let t = spec_segment_targets(pool);
            &&& segs@.len() == 3
            &&& segs@[0].phase is Quiz
            &&& segs@[1].phase is Apply
            &&& segs@[2].phase is Review
            &&& segs@[0].cards@.len() == t.0
            &&& segs@[1].cards@.len() == t.1
            &&& segs@[2].cards@.len() == t.2
            &&& (forall|si: int|
                0 <= si < 3 ==> ((#[trigger] segs@[si].focus_details is Some) <==> segs@[si].cards@.len() > 0))
        }),
        unique_card_ids(cards@) ==> chosen_ids(segs@).no_duplicates(),
        forall|si: int, k: int|
            0 <= si < segs@.len() && 0 <= k < segs@[si].cards@.len() ==> from_pool(
                cards@,
                #[trigger] segs@[si].cards@[k],
            ),
{
    let n = cards.len();
    if n == 0 {
        return Vec::new();
    }
    let total_pool = if n < MAX_TODAY_CARDS {
        n
    } else {
        MAX_TODAY_CARDS
    };
    let (tq, ta, tr) = calculate_segment_targets(total_pool);
    let dsigs = analyze_direction_signals(cards, stats, now);
    let ssigs = analyze_skill_signals(cards, stats, now, skills);
    let ranks = build_rankings(cards, stats, now, directions, &dsigs, &ssigs);

    let all_true = repeat_bool(n, true);
    let mut selected = repeat_bool(n, false);
    proof {
        assert(sel_inv(n as int, selected@, Seq::<int>::empty()));
    }
    let ghost budget = (tq + ta + tr) as int;

    let cap_q = if tq < 4 {
        tq
    } else {
        4
    };
    let q_idx = fill_phase(
        &ranks.q_seed,
        &ranks.q_elig,
        &ranks.q_fill,
        &all_true,
        &mut selected,
        cap_q,
        tq,
        Ghost(Seq::<int>::empty()),
        Ghost(0),
        Ghost(budget),
    );
    let ghost picked_q = Seq::<int>::empty() + q_idx@.map_values(|u: usize| u as int);

    let cap_a = if ta < 4 {
        ta
    } else {
        4
    };
    let a_idx = fill_phase(
        &ranks.a_seed,
        &ranks.a_elig,
        &ranks.a_fill,
        &all_true,
        &mut selected,
        cap_a,
        ta,
        Ghost(picked_q),
        Ghost(tq as int),
        Ghost(budget),
    );
    let ghost picked_a = picked_q + a_idx@.map_values(|u: usize| u as int);

    let cap_r = if tr < 5 {
        tr
    } else {
        5
    };
    let r_idx = fill_phase(
        &ranks.r_seed,
        &ranks.r_elig,
        &ranks.r_fill,
        &all_true,
        &mut selected,
        cap_r,
        tr,
        Ghost(picked_a),
        Ghost((tq + ta) as int),
        Ghost(budget),
    );
    let ghost picked_r = picked_a + r_idx@.map_values(|u: usize| u as int);

    proof {
        assert(sel_inv(n as int, selected@, picked_r));
    }
    let q_cards = collect_cards(cards, &q_idx);
    let a_cards = collect_cards(cards, &a_idx);
    let r_cards = collect_cards(cards, &r_idx);
    proof {
        assert forall|k: int| 0 <= k < q_cards@.len() implies (#[trigger] q_cards@[k]).times_ok() by {
            assert(q_cards@[k] == cards@[q_idx@[k] as int]);
        }
        assert forall|k: int| 0 <= k < a_cards@.len() implies (#[trigger] a_cards@[k]).times_ok() by {
            assert(a_cards@[k] == cards@[a_idx@[k] as int]);
        }
        assert forall|k: int| 0 <= k < r_cards@.len() implies (#[trigger] r_cards@[k]).times_ok() by {
            assert(r_cards@[k] == cards@[r_idx@[k] as int]);
        }
    }
    let q_focus = crate::focus::derive_focus(
        WorkoutPhase::Quiz,
        &q_cards,
        now,
        stats,
        directions,
        skills,
        &ssigs,
    );
    let a_focus = crate::focus::derive_focus(
        WorkoutPhase::Apply,
        &a_cards,
        now,
        stats,
        directions,
        skills,
        &ssigs,
    );
    let r_focus = crate::focus::derive_focus(
        WorkoutPhase::Review,
        &r_cards,
        now,
        stats,
        directions,
        skills,
        &ssigs,
    );

    let mut segs: Vec<SegmentAllocation> = Vec::new();
    segs.push(
        SegmentAllocation { phase: WorkoutPhase::Quiz, focus_details: q_focus, cards: q_cards },
    );
    segs.push(
        SegmentAllocation { phase: WorkoutPhase::Apply, focus_details: a_focus, cards: a_cards },
    );
    segs.push(
        SegmentAllocation { phase: WorkoutPhase::Review, focus_details: r_focus, cards: r_cards },
    );

    proof {
        assert(picked_r =~= q_idx@.map_values(|u: usize| u as int) + a_idx@.map_values(
            |u: usize| u as int,
        ) + r_idx@.map_values(|u: usize| u as int));
        lemma_segments_assembled(cards@, segs@, q_idx@, a_idx@, r_idx@, picked_r);
    }
    segs
}

} // verus!

