//! Learning directions: top-level goals a card belongs to, each in a
//! lifecycle stage that biases which workout phase its cards prefer.

use vstd::prelude::*;

verus! {

/// The lifecycle stage of a direction.
#[derive(Debug, Clone, Copy, PartialEq, Eq, Structural)]
pub enum DirectionStage {
    Explore,
    Shape,
    Attack,
    Stabilize,
}

impl DirectionStage {
    /// The stable string label for this stage.
    pub fn as_str(&self) -> (r: &'static str)
        ensures
            *self is Explore ==> r@ == "explore"@,
            *self is Shape ==> r@ == "shape"@,
            *self is Attack ==> r@ == "attack"@,
            *self is Stabilize ==> r@ == "stabilize"@,
    {
        match self {
            DirectionStage::Explore => "explore",
            DirectionStage::Shape => "shape",
            DirectionStage::Attack => "attack",
            DirectionStage::Stabilize => "stabilize",
        }
    }
}

/// Error raised when a stored stage label is not recognised.
#[derive(Debug)]
pub struct StageParseError {
    pub unknown: String,
}

/// A learning direction.
#[derive(Debug)]
pub struct Direction {
    pub id: u128,
    pub name: String,
    pub stage: DirectionStage,
    pub quarterly_goal: Option<String>,
    /// Seconds.
    pub created_at: i64,
    /// Seconds.
    pub updated_at: i64,
}

impl Direction {
    /// Build a direction from a draft at time `now`.
    pub fn new(id: u128, draft: DirectionDraft, now: i64) -> (d: Direction)
        ensures
            d.id == id,
            d.name == draft.name,
            d.stage == draft.stage,
            d.quarterly_goal == draft.quarterly_goal,
            d.created_at == now,
            d.updated_at == now,
    {
        Direction {
            id,
            name: draft.name,
            stage: draft.stage,
            quarterly_goal: draft.quarterly_goal,
            created_at: now,
            updated_at: now,
        }
    }
}

/// The lifecycle stage recorded for direction `id`, exploring when the
/// direction is unknown.
pub open spec fn spec_stage_for(directions: Seq<Direction>, id: u128) -> DirectionStage
    decreases directions.len(),
{
    if directions.len() == 0 {
        DirectionStage::Explore
    } else if directions[0].id == id {
        directions[0].stage
    } else {
        spec_stage_for(directions.drop_first(), id)
    }
}

/// Look up the lifecycle stage of direction `id`.
pub fn stage_for(directions: &Vec<Direction>, id: u128) -> (r: DirectionStage)
    ensures
        r == spec_stage_for(directions@, id),
{
    proof {
        assert(directions@.skip(0) =~= directions@);
    }
    let mut i: usize = 0;
    while i < directions.len()
        invariant
            i <= directions.len(),
            spec_stage_for(directions@, id) == spec_stage_for(directions@.skip(i as int), id),
        decreases directions.len() - i,
    {
        proof {
            assert(directions@.skip(i as int)[0] == directions@[i as int]);
            assert(directions@.skip(i as int).drop_first() =~= directions@.skip(i + 1));
        }
        if directions[i].id == id {
            return directions[i].stage;
        }
        i = i + 1;
    }
    proof {
        assert(directions@.skip(directions@.len() as int).len() == 0);
    }
    DirectionStage::Explore
}

/// The caller-supplied fields of a new direction.
#[derive(Debug)]
pub struct DirectionDraft {
    pub name: String,
    pub stage: DirectionStage,
    pub quarterly_goal: Option<String>,
}

/// A partial update of a direction; `None` leaves a field unchanged.
#[derive(Debug)]
pub struct DirectionUpdate {
    pub name: Option<String>,
    pub stage: Option<DirectionStage>,
    pub quarterly_goal: Option<Option<String>>,
}

} // verus!
