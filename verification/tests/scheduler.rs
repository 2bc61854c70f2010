//! The scheduler façade end to end: idempotent daily planning, segment
//! allocation, completion, analytics and recommendations.

use study_scheduler::card::{calculate_priority, CardType, MemoryCard};
use study_scheduler::completion::{recommend_neglected_direction, recommend_skill_gap};
use study_scheduler::direction::{Direction, DirectionStage};
use study_scheduler::engine::{list_for_today, TodayScheduler};
use study_scheduler::error::AppError;
use study_scheduler::skill::{SkillLevel, SkillPoint};
use study_scheduler::stats::review_stats_from_history;
use study_scheduler::workout::{
    Insight, RecommendedFocus, WorkoutItemResultInput, WorkoutResultKind, WorkoutStatus,
};

const NOW: i64 = 1_700_000_000;

fn card(id: u128, direction_id: u128, skill: Option<u128>, next_due: Option<i64>) -> MemoryCard {
    MemoryCard {
        id,
        direction_id,
        skill_point_id: skill,
        title: String::from("card"),
        body: String::from("body"),
        card_type: CardType::Fact,
        stability: 500,
        relevance: 700,
        novelty: 300,
        priority: calculate_priority(500, 700, 300),
        next_due,
        created_at: 0,
        updated_at: 0,
    }
}

fn direction(id: u128) -> Direction {
    Direction {
        id,
        name: String::from("a direction"),
        stage: DirectionStage::Explore,
        quarterly_goal: None,
        created_at: 0,
        updated_at: 0,
    }
}

fn scheduler_with(cards: Vec<MemoryCard>, skills: Vec<SkillPoint>) -> TodayScheduler {
    TodayScheduler::new(cards, vec![direction(1)], skills, Vec::new(), Vec::new())
}

fn plan_item_ids(plan: &study_scheduler::workout::TodayWorkoutPlan) -> Vec<u128> {
    let mut ids = Vec::new();
    for seg in &plan.segments {
        for item in &seg.items {
            ids.push(item.item_id);
        }
    }
    ids
}

fn plan_card_ids(plan: &study_scheduler::workout::TodayWorkoutPlan) -> Vec<u128> {
    let mut ids = Vec::new();
    for seg in &plan.segments {
        for item in &seg.items {
            ids.push(item.card.id);
        }
    }
    ids
}

#[test]
fn empty_pool_schedules_nothing() {
    let mut s = scheduler_with(Vec::new(), Vec::new());
    assert!(s.get_or_schedule(NOW).is_none());
    assert_eq!(s.workouts.len(), 0);
}

#[test]
fn three_overdue_cards_fill_every_phase() {
    // Pool of exactly three cards, all overdue, none previously reviewed:
    // one card lands in each of quiz, apply and review.
    let cards = vec![
        card(1, 1, None, Some(NOW - 3_600)),
        card(2, 1, None, Some(NOW - 3_600)),
        card(3, 1, None, Some(NOW - 3_600)),
    ];
    let mut s = scheduler_with(cards, Vec::new());
    let plan = s.get_or_schedule(NOW).expect("a plan");
    assert_eq!(plan.totals.quiz, 1);
    assert_eq!(plan.totals.apply, 1);
    assert_eq!(plan.totals.review, 1);
    assert_eq!(plan.totals.total_cards, 3);
    assert_eq!(plan.segments.len(), 3);
    for seg in &plan.segments {
        assert_eq!(seg.items.len(), 1);
        assert!(seg.focus_details.is_some());
        let focus = seg.focus_details.as_ref().unwrap();
        assert_eq!(focus.counts.total, 1);
        // Never-reviewed cards count as new.
        assert_eq!(focus.counts.new_count, 1);
    }
}

#[test]
fn large_pool_gets_nominal_split_without_duplicates() {
    let mut cards = Vec::new();
    for i in 0..25u128 {
        cards.push(card(i + 1, 1, None, Some(NOW - 60 * i as i64)));
    }
    let mut s = scheduler_with(cards, Vec::new());
    let plan = s.get_or_schedule(NOW).expect("a plan");
    assert_eq!(plan.totals.quiz, 5);
    assert_eq!(plan.totals.apply, 10);
    assert_eq!(plan.totals.review, 5);
    assert_eq!(plan.totals.total_cards, 20);
    // No card appears in more than one segment.
    let ids = plan_card_ids(&plan);
    for i in 0..ids.len() {
        for j in (i + 1)..ids.len() {
            assert_ne!(ids[i], ids[j]);
        }
    }
    // Item identities are fresh, never zero.
    for item_id in plan_item_ids(&plan) {
        assert_ne!(item_id, 0);
    }
    assert_ne!(plan.workout_id, 0);
}

#[test]
fn same_day_scheduling_is_idempotent() {
    let cards = vec![card(1, 1, None, Some(NOW - 3_600))];
    let mut s = scheduler_with(cards, Vec::new());
    let first = s.get_or_schedule(NOW).expect("a plan");
    let second = s.get_or_schedule(NOW + 60).expect("the cached plan");
    assert_eq!(first.workout_id, second.workout_id);
    assert_eq!(first.totals.total_cards, second.totals.total_cards);
    assert_eq!(s.workouts.len(), 1);
}

#[test]
fn empty_results_are_rejected_without_state_change() {
    let cards = vec![card(1, 1, None, Some(NOW - 3_600))];
    let mut s = scheduler_with(cards, Vec::new());
    let plan = s.get_or_schedule(NOW).expect("a plan");
    let r = s.complete_workout(plan.workout_id, &Vec::new(), NOW);
    assert!(matches!(r, Err(AppError::Validation(_))));
    assert!(matches!(s.workouts[0].status, WorkoutStatus::Pending));
    assert_eq!(s.cards[0].stability, 500);
    assert_eq!(s.history.len(), 0);
}

#[test]
fn unknown_workout_is_not_found() {
    let cards = vec![card(1, 1, None, Some(NOW - 3_600))];
    let mut s = scheduler_with(cards, Vec::new());
    s.get_or_schedule(NOW).expect("a plan");
    let inputs = vec![WorkoutItemResultInput { item_id: 12345, result: WorkoutResultKind::Pass }];
    let r = s.complete_workout(999_999, &inputs, NOW);
    assert!(matches!(r, Err(AppError::NotFound)));
}

#[test]
fn unknown_item_is_a_validation_error() {
    let cards = vec![card(1, 1, None, Some(NOW - 3_600))];
    let mut s = scheduler_with(cards, Vec::new());
    let plan = s.get_or_schedule(NOW).expect("a plan");
    let inputs = vec![WorkoutItemResultInput { item_id: 424_242, result: WorkoutResultKind::Pass }];
    let r = s.complete_workout(plan.workout_id, &inputs, NOW);
    assert!(matches!(r, Err(AppError::Validation(_))));
    assert!(matches!(s.workouts[0].status, WorkoutStatus::Pending));
    assert_eq!(s.history.len(), 0);
}

#[test]
fn single_pass_updates_card_and_metrics() {
    // One card: stability 0.5, relevance 0.7, novelty 0.3, marked Pass.
    let cards = vec![card(1, 1, None, Some(NOW - 3_600))];
    let mut s = scheduler_with(cards, Vec::new());
    let plan = s.get_or_schedule(NOW).expect("a plan");
    let item_ids = plan_item_ids(&plan);
    assert_eq!(item_ids.len(), 1);

    let inputs = vec![WorkoutItemResultInput { item_id: item_ids[0], result: WorkoutResultKind::Pass }];
    let summary = s.complete_workout(plan.workout_id, &inputs, NOW).expect("a summary");

    // New stability 0.65, new priority 0.48, next due about 25.74h out.
    assert_eq!(summary.updates.len(), 1);
    assert_eq!(summary.updates[0].card_id, 1);
    assert_eq!(summary.updates[0].stability, 650);
    assert_eq!(summary.updates[0].priority, 480);
    assert_eq!(summary.updates[0].next_due, Some(NOW + 92_664));
    assert_eq!(s.cards[0].stability, 650);
    assert_eq!(s.cards[0].priority, 480);
    assert_eq!(s.cards[0].next_due, Some(NOW + 92_664));

    assert_eq!(summary.metrics.total_items, 1);
    assert_eq!(summary.metrics.pass_count, 1);
    assert_eq!(summary.metrics.fail_count, 0);
    assert_eq!(summary.metrics.pass_rate, 1000);
    // 0.08 * 0.48 in millionths.
    assert_eq!(summary.metrics.kv_delta, 38_400);
    // Uncertainty before 0.5, stability gained 0.15: drop rate 0.3.
    assert_eq!(summary.metrics.udr, 300_000);
    assert_eq!(
        summary.insights,
        vec![Insight::PassRateHigh, Insight::UncertaintyDrop { udr: 300_000 }]
    );
    // No failure: apply the freshest success next.
    assert!(matches!(
        summary.metrics.recommended_focus,
        Some(RecommendedFocus::ApplyCard { card_id: 1, .. })
    ));

    assert!(matches!(s.workouts[0].status, WorkoutStatus::Completed));
    assert_eq!(s.workouts[0].completed_at, Some(NOW));
    assert_eq!(s.history.len(), 1);
    assert_eq!(s.history[0].card_id, 1);
}

#[test]
fn single_fail_shortens_the_schedule() {
    // The same card marked Fail: stability halves, review within hours.
    let cards = vec![card(1, 1, None, Some(NOW - 3_600))];
    let mut s = scheduler_with(cards, Vec::new());
    let plan = s.get_or_schedule(NOW).expect("a plan");
    let item_ids = plan_item_ids(&plan);

    let inputs = vec![WorkoutItemResultInput { item_id: item_ids[0], result: WorkoutResultKind::Fail }];
    let summary = s.complete_workout(plan.workout_id, &inputs, NOW).expect("a summary");

    assert_eq!(summary.updates[0].stability, 250);
    assert_eq!(summary.updates[0].next_due, Some(NOW + 14_040));
    assert_eq!(s.cards[0].stability, 250);
    assert_eq!(summary.metrics.fail_count, 1);
    assert!(matches!(
        summary.metrics.recommended_focus,
        Some(RecommendedFocus::RetryCard { card_id: 1, .. })
    ));
    assert!(summary.insights.contains(&Insight::FailedCards { count: 1 }));
}

#[test]
fn completion_is_terminal() {
    // A second completion of the same workout is refused, and nothing
    // moves a second time.
    let cards = vec![card(1, 1, None, Some(NOW - 3_600))];
    let mut s = scheduler_with(cards, Vec::new());
    let plan = s.get_or_schedule(NOW).expect("a plan");
    let item_ids = plan_item_ids(&plan);
    let inputs = vec![WorkoutItemResultInput { item_id: item_ids[0], result: WorkoutResultKind::Pass }];
    s.complete_workout(plan.workout_id, &inputs, NOW).expect("a summary");
    assert_eq!(s.cards[0].stability, 650);

    let again = s.complete_workout(plan.workout_id, &inputs, NOW + 60);
    assert!(matches!(again, Err(AppError::Validation(_))));
    assert_eq!(s.cards[0].stability, 650);
    assert_eq!(s.history.len(), 1);
    assert!(matches!(s.workouts[0].status, WorkoutStatus::Completed));
}

#[test]
fn mixed_session_aggregates_per_direction() {
    let cards = vec![
        card(1, 1, None, Some(NOW - 3_600)),
        card(2, 1, None, Some(NOW - 3_600)),
        card(3, 1, None, Some(NOW - 3_600)),
    ];
    let mut s = scheduler_with(cards, Vec::new());
    let plan = s.get_or_schedule(NOW).expect("a plan");
    let item_ids = plan_item_ids(&plan);
    assert_eq!(item_ids.len(), 3);

    let inputs = vec![
        WorkoutItemResultInput { item_id: item_ids[0], result: WorkoutResultKind::Pass },
        WorkoutItemResultInput { item_id: item_ids[1], result: WorkoutResultKind::Fail },
        WorkoutItemResultInput { item_id: item_ids[2], result: WorkoutResultKind::Pass },
    ];
    let summary = s.complete_workout(plan.workout_id, &inputs, NOW).expect("a summary");
    assert_eq!(summary.metrics.total_items, 3);
    assert_eq!(summary.metrics.pass_count, 2);
    assert_eq!(summary.metrics.fail_count, 1);
    assert_eq!(summary.metrics.pass_rate, 666);

    assert_eq!(summary.metrics.direction_breakdown.len(), 1);
    let d = &summary.metrics.direction_breakdown[0];
    assert_eq!(d.direction_id, 1);
    assert_eq!(d.name, "a direction");
    assert_eq!(d.total, 3);
    assert_eq!(d.pass_count, 2);
    assert_eq!(d.fail_count, 1);
    assert_eq!(d.share, 1000);
    assert_eq!(summary.metrics.skill_breakdown.len(), 0);
    assert_eq!(s.history.len(), 3);
}

#[test]
fn skill_gap_recommendation_gates_on_growth_pressure() {
    let cards = vec![card(1, 1, Some(42), None)];
    let skills = vec![SkillPoint {
        id: 42,
        direction_id: 1,
        name: String::from("a skill"),
        summary: None,
        level: SkillLevel::Emerging,
        created_at: 0,
        updated_at: 0,
    }];
    let stats = review_stats_from_history(&Vec::new());
    let r = recommend_skill_gap(&cards, &stats, NOW, &skills).expect("a recommendation");
    match r {
        RecommendedFocus::SkillGap { skill_point_id, name, level, growth, count, share } => {
            assert_eq!(skill_point_id, 42);
            assert_eq!(name, "a skill");
            assert_eq!(level, SkillLevel::Emerging);
            // 0.5 * 0.75 + 0.2 * 0 + 0.2 * 1 + 0.1 * 1 = 0.675.
            assert_eq!(growth, 675);
            assert_eq!(count, 1);
            assert_eq!(share, 1000);
        },
        _ => panic!("expected a skill-gap recommendation"),
    }
}

#[test]
fn neglected_direction_recommendation_counts_stale_cards() {
    let cards = vec![card(1, 1, None, None)];
    let stats = review_stats_from_history(&Vec::new());
    let directions = vec![direction(1)];
    let r = recommend_neglected_direction(&cards, &stats, NOW, &directions)
        .expect("a recommendation");
    match r {
        RecommendedFocus::NeglectedDirection { direction_id, name, neglect, stale_cards } => {
            assert_eq!(direction_id, 1);
            assert_eq!(name, "a direction");
            // Never practiced: maximal neglect, one stale card.
            assert_eq!(neglect, 1000);
            assert_eq!(stale_cards, 1);
        },
        _ => panic!("expected a neglected-direction recommendation"),
    }
}

#[test]
fn focus_summaries_break_down_by_skill() {
    let skills = vec![SkillPoint {
        id: 42,
        direction_id: 1,
        name: String::from("a skill"),
        summary: None,
        level: SkillLevel::Working,
        created_at: 0,
        updated_at: 0,
    }];
    let cards = vec![card(1, 1, Some(42), Some(NOW - 3_600))];
    let mut s = scheduler_with(cards, skills);
    let plan = s.get_or_schedule(NOW).expect("a plan");
    let focus = plan.segments[0].focus_details.as_ref().expect("a focus");
    assert_eq!(focus.direction_breakdown.len(), 1);
    assert_eq!(focus.direction_breakdown[0].direction_id, 1);
    assert_eq!(focus.direction_breakdown[0].count, 1);
    assert_eq!(focus.direction_breakdown[0].share, 1000);
    assert_eq!(focus.skill_breakdown.len(), 1);
    let sk = &focus.skill_breakdown[0];
    assert_eq!(sk.skill_point_id, 42);
    assert_eq!(sk.name, "a skill");
    assert_eq!(sk.level, SkillLevel::Working);
    assert_eq!(sk.share, 1000);
    // The leading highlight names the segment's primary skill.
    assert!(matches!(
        focus.highlights.first(),
        Some(study_scheduler::workout::FocusHighlight::PrimarySkill { skill_point_id: 42, .. })
    ));
}

#[test]
fn a_new_day_gets_a_new_plan() {
    let cards = vec![card(1, 1, None, Some(NOW - 3_600))];
    let mut s = scheduler_with(cards, Vec::new());
    let first = s.get_or_schedule(NOW).expect("a plan");
    let next_day = NOW + 86_400;
    let second = s.get_or_schedule(next_day).expect("a plan");
    assert_ne!(first.scheduled_for, second.scheduled_for);
    assert_eq!(s.workouts.len(), 2);
}

#[test]
fn todays_pool_puts_due_cards_first() {
    let cards = vec![
        card(1, 1, None, Some(NOW + 86_400)),
        card(2, 1, None, Some(NOW - 60)),
        card(3, 1, None, None),
    ];
    let pool = list_for_today(&cards, NOW, 2);
    assert_eq!(pool.len(), 2);
    // The unscheduled card counts as earliest-due, then the overdue one.
    assert_eq!(pool[0].id, 3);
    assert_eq!(pool[1].id, 2);
}
