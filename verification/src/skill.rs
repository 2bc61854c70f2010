//! Skill points: finer-grained competencies under a direction, each with a
//! mastery level.

use vstd::prelude::*;

verus! {

/// Mastery level of a skill point, from unassessed to fluent.
#[derive(Debug, Clone, Copy, PartialEq, Eq, Structural)]
pub enum SkillLevel {
    Unknown,
    Emerging,
    Working,
    Fluent,
}

impl SkillLevel {
    /// Map an arbitrary integer onto the nearest valid level.
    pub fn clamp(value: i32) -> (r: SkillLevel)
        ensures
            value <= 0 ==> r is Unknown,
            value == 1 ==> r is Emerging,
            value == 2 ==> r is Working,
            value >= 3 ==> r is Fluent,
    {
        if value <= 0 {
            SkillLevel::Unknown
        } else if value == 1 {
            SkillLevel::Emerging
        } else if value == 2 {
            SkillLevel::Working
        } else {
            SkillLevel::Fluent
        }
    }

    /// The numeric rank of this level.
    pub fn as_i32(self) -> (r: i32)
        ensures
            r == self.spec_rank(),
    {
        match self {
            SkillLevel::Unknown => 0,
            SkillLevel::Emerging => 1,
            SkillLevel::Working => 2,
            SkillLevel::Fluent => 3,
        }
    }

    /// The numeric rank of this level, in specifications.
    pub open spec fn spec_rank(self) -> int {
        match self {
            SkillLevel::Unknown => 0,
            SkillLevel::Emerging => 1,
            SkillLevel::Working => 2,
            SkillLevel::Fluent => 3,
        }
    }

    /// The stable string label for this level.
    pub fn as_str(self) -> (r: &'static str)
        ensures
            self is Unknown ==> r@ == "unknown"@,
            self is Emerging ==> r@ == "emerging"@,
            self is Working ==> r@ == "working"@,
            self is Fluent ==> r@ == "fluent"@,
    {
        match self {
            SkillLevel::Unknown => "unknown",
            SkillLevel::Emerging => "emerging",
            SkillLevel::Working => "working",
            SkillLevel::Fluent => "fluent",
        }
    }

    /// How much room the skill has to grow, in thousandths: unassessed
    /// skills leave the most room, fluent ones the least.
    pub open spec fn spec_level_gap(self) -> int {
        match self {
            SkillLevel::Unknown => 900,
            SkillLevel::Emerging => 750,
            SkillLevel::Working => 500,
            SkillLevel::Fluent => 250,
        }
    }

    /// How much room the skill has to grow, in thousandths.
    pub fn level_gap(self) -> (r: i64)
        ensures
            r == self.spec_level_gap(),
    {
        match self {
            SkillLevel::Unknown => 900,
            SkillLevel::Emerging => 750,
            SkillLevel::Working => 500,
            SkillLevel::Fluent => 250,
        }
    }
}

/// Error raised when a stored level label is not recognised.
#[derive(Debug)]
pub struct SkillLevelParseError(pub String);

/// A skill point.
#[derive(Debug)]
pub struct SkillPoint {
    pub id: u128,
    pub direction_id: u128,
    pub name: String,
    pub summary: Option<String>,
    pub level: SkillLevel,
    /// Seconds.
    pub created_at: i64,
    /// Seconds.
    pub updated_at: i64,
}

impl SkillPoint {
    /// Build a skill point from a draft at time `now`.
    pub fn new(id: u128, direction_id: u128, draft: SkillPointDraft, now: i64) -> (s: SkillPoint)
        ensures
            s.id == id,
            s.direction_id == direction_id,
            s.name == draft.name,
            s.summary == draft.summary,
            draft.level matches Some(l) ==> s.level == l,
            draft.level is None ==> s.level is Unknown,
            s.created_at == now,
            s.updated_at == now,
    {
        let level = match draft.level {
            Some(l) => l,
            None => SkillLevel::Unknown,
        };
        SkillPoint {
            id,
            direction_id,
            name: draft.name,
            summary: draft.summary,
            level,
            created_at: now,
            updated_at: now,
        }
    }
}

/// The caller-supplied fields of a new skill point.
#[derive(Debug)]
pub struct SkillPointDraft {
    pub name: String,
    pub summary: Option<String>,
    pub level: Option<SkillLevel>,
}

/// A partial update of a skill point; `None` leaves a field unchanged.
#[derive(Debug)]
pub struct SkillPointUpdate {
    pub name: Option<String>,
    pub summary: Option<Option<String>>,
    pub level: Option<SkillLevel>,
}

} // verus!
