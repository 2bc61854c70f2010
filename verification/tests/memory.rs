//! The memory-update rule, priority derivation, segment targets,
//! review-statistics rebuilding, and the fixed-point helpers.

use study_scheduler::allocator::calculate_segment_targets;
use study_scheduler::card::{calculate_priority, CardType, MemoryCard, MemoryCardDraft};
use study_scheduler::completion::apply_result;
use study_scheduler::stats::{fail_rate, review_stats_from_history, stats_of, ReviewEvent};
use study_scheduler::units::{clamp_unit, div_toward_zero};
use study_scheduler::workout::WorkoutResultKind;

fn card(id: u128, stability: i64, relevance: i64, novelty: i64) -> MemoryCard {
    MemoryCard {
        id,
        direction_id: 1,
        skill_point_id: None,
        title: String::from("card"),
        body: String::from("body"),
        card_type: CardType::Fact,
        stability,
        relevance,
        novelty,
        priority: calculate_priority(stability, relevance, novelty),
        next_due: None,
        created_at: 0,
        updated_at: 0,
    }
}

#[test]
fn unit_helpers() {
    assert_eq!(clamp_unit(-5), 0);
    assert_eq!(clamp_unit(400), 400);
    assert_eq!(clamp_unit(1400), 1000);
    assert_eq!(div_toward_zero(125, 60), 2);
    assert_eq!(div_toward_zero(-125, 60), -2);
    assert_eq!(div_toward_zero(-59, 60), 0);
}

#[test]
fn priority_blend_exact() {
    // 0.4 * (1 - 0.5) + 0.4 * 0.7 + 0.2 * 0.3 = 0.54
    assert_eq!(calculate_priority(500, 700, 300), 540);
    // 0.4 * (1 - 0.65) + 0.4 * 0.7 + 0.2 * 0.3 = 0.48
    assert_eq!(calculate_priority(650, 700, 300), 480);
    // Components clamp before blending.
    assert_eq!(calculate_priority(-100, 1500, 500), 900);
    assert_eq!(calculate_priority(2000, -10, -10), 0);
}

#[test]
fn card_defaults_derive_priority() {
    let draft = MemoryCardDraft {
        skill_point_id: None,
        title: String::from("t"),
        body: String::from("b"),
        card_type: CardType::Concept,
        stability: None,
        relevance: None,
        novelty: None,
        priority: None,
        next_due: None,
    };
    let c = MemoryCard::new(7, 9, draft, 1000);
    assert_eq!(c.stability, 100);
    assert_eq!(c.relevance, 700);
    assert_eq!(c.novelty, 500);
    // 0.4 * 0.9 + 0.4 * 0.7 + 0.2 * 0.5 = 0.74
    assert_eq!(c.priority, 740);
    assert_eq!(c.created_at, 1000);
}

#[test]
fn pass_moves_stability_and_due() {
    // stability 0.5, relevance 0.7, novelty 0.3, passed at `now`.
    let now: i64 = 1_000_000;
    let mut c = card(1, 500, 700, 300);
    let o = apply_result(&mut c, WorkoutResultKind::Pass, now);
    assert_eq!(c.stability, 650);
    assert_eq!(c.priority, 480);
    // 24h * (1 + 0.65) * (1 - 0.35) = 25.74h = 92664 s.
    assert_eq!(c.next_due, Some(now + 92_664));
    assert_eq!(o.previous_stability, 500);
    assert_eq!(o.stability_delta, 150);
    assert_eq!(o.progress.stability, 650);
    assert_eq!(o.progress.priority, 480);
    // A pass never schedules the next review under six hours away.
    assert!(c.next_due.unwrap() >= now + 21_600);
}

#[test]
fn fail_halves_stability_and_shortens_due() {
    let now: i64 = 1_000_000;
    let mut c = card(1, 500, 700, 300);
    let o = apply_result(&mut c, WorkoutResultKind::Fail, now);
    assert_eq!(c.stability, 250);
    // 6h * (1 - 0.35) = 3.9h = 14040 s.
    assert_eq!(c.next_due, Some(now + 14_040));
    assert!(o.stability_delta < 0);
    // A fail reschedules well within a day.
    assert!(c.next_due.unwrap() < now + 86_400);
}

#[test]
fn pass_caps_and_fail_floors_stability() {
    let now: i64 = 0;
    let mut high = card(1, 980, 0, 0);
    apply_result(&mut high, WorkoutResultKind::Pass, now);
    assert_eq!(high.stability, 990);

    let mut low = card(2, 60, 0, 0);
    apply_result(&mut low, WorkoutResultKind::Fail, now);
    assert_eq!(low.stability, 50);
}

#[test]
fn segment_targets_nominal_and_scaled() {
    assert_eq!(calculate_segment_targets(0), (0, 0, 0));
    assert_eq!(calculate_segment_targets(25), (5, 10, 5));
    assert_eq!(calculate_segment_targets(20), (5, 10, 5));
    // One or two cards fill from the quiz phase on.
    assert_eq!(calculate_segment_targets(1), (1, 0, 0));
    assert_eq!(calculate_segment_targets(2), (1, 1, 0));
    // From three cards on, every phase gets at least one.
    let (q, a, r) = calculate_segment_targets(3);
    assert!(q >= 1 && a >= 1 && r >= 1);
    assert_eq!(q + a + r, 3);
    for n in 1..20 {
        let (q, a, r) = calculate_segment_targets(n);
        assert_eq!(q + a + r, n);
        if n >= 3 {
            assert!(q >= 1 && a >= 1 && r >= 1);
        }
    }
}

#[test]
fn review_stats_rebuild() {
    let events = vec![
        ReviewEvent { card_id: 1, result: WorkoutResultKind::Fail, occurred_at: 100 },
        ReviewEvent { card_id: 1, result: WorkoutResultKind::Pass, occurred_at: 200 },
        ReviewEvent { card_id: 2, result: WorkoutResultKind::Fail, occurred_at: 250 },
        ReviewEvent { card_id: 1, result: WorkoutResultKind::Pass, occurred_at: 300 },
    ];
    let stats = review_stats_from_history(&events);
    assert_eq!(stats.len(), 2);

    let one = stats_of(&events, 1);
    assert_eq!(one.pass_count, 2);
    assert_eq!(one.fail_count, 1);
    assert_eq!(one.last_seen, Some(300));
    assert_eq!(one.last_pass_at, Some(300));
    assert_eq!(one.last_fail_at, Some(100));
    assert_eq!(one.consecutive_passes, 2);
    assert_eq!(one.consecutive_fails, 0);
    // Newest first.
    assert_eq!(
        one.recent_results,
        vec![WorkoutResultKind::Pass, WorkoutResultKind::Pass, WorkoutResultKind::Fail]
    );
    // One fail out of three reviews.
    assert_eq!(fail_rate(&one), 333);

    let two = stats_of(&events, 2);
    assert_eq!(two.consecutive_fails, 1);
    assert_eq!(fail_rate(&two), 1000);
}

#[test]
fn recent_results_keep_at_most_eight() {
    let mut events = Vec::new();
    for i in 0..12 {
        events.push(ReviewEvent { card_id: 5, result: WorkoutResultKind::Pass, occurred_at: i });
    }
    let s = stats_of(&events, 5);
    assert_eq!(s.recent_results.len(), 8);
    assert_eq!(s.pass_count, 12);
    assert_eq!(s.consecutive_passes, 8);
}
