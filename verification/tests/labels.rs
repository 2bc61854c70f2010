//! Stable string labels and small enum helpers.

use study_scheduler::card::CardType;
use study_scheduler::direction::DirectionStage;
use study_scheduler::entity::SyncEntity;
use study_scheduler::error::AppError;
use study_scheduler::notify::ReminderTarget;
use study_scheduler::skill::SkillLevel;
use study_scheduler::workout::{WorkoutPhase, WorkoutResultKind, WorkoutStatus};

#[test]
fn card_type_labels() {
    assert_eq!(CardType::Fact.as_str(), "fact");
    assert_eq!(CardType::Concept.as_str(), "concept");
    assert_eq!(CardType::Procedure.as_str(), "procedure");
    assert_eq!(CardType::Claim.as_str(), "claim");
}

#[test]
fn workout_phase_labels() {
    assert_eq!(WorkoutPhase::Quiz.as_str(), "quiz");
    assert_eq!(WorkoutPhase::Apply.as_str(), "apply");
    assert_eq!(WorkoutPhase::Review.as_str(), "review");
}

#[test]
fn workout_status_labels() {
    assert_eq!(WorkoutStatus::Pending.as_str(), "pending");
    assert_eq!(WorkoutStatus::Completed.as_str(), "completed");
}

#[test]
fn workout_result_labels() {
    assert_eq!(WorkoutResultKind::Pass.as_str(), "pass");
    assert_eq!(WorkoutResultKind::Fail.as_str(), "fail");
}

#[test]
fn direction_stage_labels() {
    assert_eq!(DirectionStage::Explore.as_str(), "explore");
    assert_eq!(DirectionStage::Shape.as_str(), "shape");
    assert_eq!(DirectionStage::Attack.as_str(), "attack");
    assert_eq!(DirectionStage::Stabilize.as_str(), "stabilize");
}

#[test]
fn skill_level_labels_and_ranks() {
    assert_eq!(SkillLevel::Unknown.as_str(), "unknown");
    assert_eq!(SkillLevel::Emerging.as_str(), "emerging");
    assert_eq!(SkillLevel::Working.as_str(), "working");
    assert_eq!(SkillLevel::Fluent.as_str(), "fluent");
    assert_eq!(SkillLevel::Unknown.as_i32(), 0);
    assert_eq!(SkillLevel::Emerging.as_i32(), 1);
    assert_eq!(SkillLevel::Working.as_i32(), 2);
    assert_eq!(SkillLevel::Fluent.as_i32(), 3);
}

#[test]
fn skill_level_clamp() {
    assert_eq!(SkillLevel::clamp(-5), SkillLevel::Unknown);
    assert_eq!(SkillLevel::clamp(0), SkillLevel::Unknown);
    assert_eq!(SkillLevel::clamp(1), SkillLevel::Emerging);
    assert_eq!(SkillLevel::clamp(2), SkillLevel::Working);
    assert_eq!(SkillLevel::clamp(3), SkillLevel::Fluent);
    assert_eq!(SkillLevel::clamp(9), SkillLevel::Fluent);
}

#[test]
fn reminder_target_labels() {
    assert_eq!(ReminderTarget::Today.as_str(), "today");
    assert_eq!(ReminderTarget::Review.as_str(), "review");
}

#[test]
fn sync_entity_labels_round_trip() {
    assert_eq!(SyncEntity::Direction.as_str(), "direction");
    assert_eq!(SyncEntity::SkillPoint.as_str(), "skill_point");
    assert_eq!(SyncEntity::MemoryCard.as_str(), "memory_card");
    assert_eq!(SyncEntity::from_str("direction"), Some(SyncEntity::Direction));
    assert_eq!(SyncEntity::from_str("skill_point"), Some(SyncEntity::SkillPoint));
    assert_eq!(SyncEntity::from_str("memory_card"), Some(SyncEntity::MemoryCard));
    assert_eq!(SyncEntity::from_str("evidence"), None);
}

#[test]
fn error_codes() {
    assert_eq!(AppError::NotFound.code(), "not_found");
    assert_eq!(AppError::Validation(String::from("boom")).code(), "validation_error");
    assert_eq!(AppError::Other(String::from("boom")).code(), "internal_error");
}
