//! The kinds of records the store exchanges with clients, with their
//! stable labels.

use vstd::prelude::*;
use vstd::string::StringExecFns;

verus! {

/// A synchronisable record kind.
#[derive(Debug, Clone, Copy, PartialEq, Eq, Structural)]
pub enum SyncEntity {
    Direction,
    SkillPoint,
    MemoryCard,
}

impl SyncEntity {
    /// The stable string label for this entity kind.
    pub fn as_str(&self) -> (r: &'static str)
        ensures
            *self is Direction ==> r@ == "direction"@,
            *self is SkillPoint ==> r@ == "skill_point"@,
            *self is MemoryCard ==> r@ == "memory_card"@,
    {
        match self {
            SyncEntity::Direction => "direction",
            SyncEntity::SkillPoint => "skill_point",
            SyncEntity::MemoryCard => "memory_card",
        }
    }

    /// Parse a stable label back into an entity kind.
    pub fn from_str(value: &str) -> (r: Option<SyncEntity>)
        ensures
            value@ == "direction"@ ==> r == Some(SyncEntity::Direction),
            value@ == "skill_point"@ ==> r == Some(SyncEntity::SkillPoint),
            value@ == "memory_card"@ ==> r == Some(SyncEntity::MemoryCard),
    {
        proof {
            reveal_strlit("direction");
            reveal_strlit("skill_point");
            reveal_strlit("memory_card");
            assert("direction"@.len() == 9);
            assert("skill_point"@.len() == 11);
            assert("memory_card"@.len() == 11);
            assert("skill_point"@[0] != "memory_card"@[0]);
        }
        let v = String::from_str(value);
        if v.eq(&String::from_str("direction")) {
            Some(SyncEntity::Direction)
        } else if v.eq(&String::from_str("skill_point")) {
            Some(SyncEntity::SkillPoint)
        } else if v.eq(&String::from_str("memory_card")) {
            Some(SyncEntity::MemoryCard)
        } else {
            None
        }
    }
}

} // verus!
