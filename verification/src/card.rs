//! Memory cards: atomic learning items with a decaying stability estimate.

use vstd::prelude::*;

use crate::units::{clamp_unit, opt_time_ok, spec_clamp_unit, time_ok};

verus! {

/// The kind of knowledge a card holds.
#[derive(Debug, Clone, Copy, PartialEq, Eq, Structural)]
pub enum CardType {
    Fact,
    Concept,
    Procedure,
    Claim,
}

impl CardType {
    /// The stable string label for this card type.
    pub fn as_str(&self) -> (r: &'static str)
        ensures
            *self is Fact ==> r@ == "fact"@,
            *self is Concept ==> r@ == "concept"@,
            *self is Procedure ==> r@ == "procedure"@,
            *self is Claim ==> r@ == "claim"@,
    {
        match self {
            CardType::Fact => "fact",
            CardType::Concept => "concept",
            CardType::Procedure => "procedure",
            CardType::Claim => "claim",
        }
    }
}

/// A card's priority, derived from its other scalars: cards that are
/// unstable, relevant and novel come first. All arguments and the result
/// are in thousandths.
pub open spec fn spec_priority(stability: int, relevance: int, novelty: int) -> int {
    (400 * spec_clamp_unit(1000 - stability) + 400 * spec_clamp_unit(relevance) + 200
        * spec_clamp_unit(novelty)) / 1000
}

/// Derive a card's priority from stability, relevance and novelty (all in
/// thousandths): `0.4 * (1 - stability) + 0.4 * relevance + 0.2 * novelty`,
/// each component clamped to the unit interval.
pub fn calculate_priority(stability: i64, relevance: i64, novelty: i64) -> (p: i64)
    ensures
        p == spec_priority(stability as int, relevance as int, novelty as int),
        0 <= p <= 1000,
{
    let stability_component: i64 = if stability < 0 {
        1000
    } else if stability > 1000 {
        0
    } else {
        1000 - stability
    };
    let relevance_component = clamp_unit(relevance);
    let novelty_component = clamp_unit(novelty);
    (400 * stability_component + 400 * relevance_component + 200 * novelty_component) / 1000
}

/// A memory card. Scalars (`stability`, `relevance`, `novelty`, `priority`)
/// are in thousandths of the unit interval; timestamps are seconds.
#[derive(Debug)]
pub struct MemoryCard {
    pub id: u128,
    pub direction_id: u128,
    pub skill_point_id: Option<u128>,
    pub title: String,
    pub body: String,
    pub card_type: CardType,
    pub stability: i64,
    pub relevance: i64,
    pub novelty: i64,
    pub priority: i64,
    /// When the card is next due for review, if scheduled.
    pub next_due: Option<i64>,
    pub created_at: i64,
    pub updated_at: i64,
}

impl MemoryCard {
    /// All of the card's timestamps lie within the supported range.
    pub open spec fn times_ok(&self) -> bool {
        &&& opt_time_ok(self.next_due)
        &&& time_ok(self.created_at as int)
        &&& time_ok(self.updated_at as int)
    }

    /// Build a card from a draft at time `now`. Absent scalars default to
    /// a fresh card (low stability, fairly relevant, somewhat novel), and
    /// an absent priority is derived from the other three.
    pub fn new(id: u128, direction_id: u128, draft: MemoryCardDraft, now: i64) -> (c: MemoryCard)
        ensures
            c.id == id,
            c.direction_id == direction_id,
            c.skill_point_id == draft.skill_point_id,
            c.title == draft.title,
            c.body == draft.body,
            c.card_type == draft.card_type,
            c.stability == match draft.stability {
                Some(v) => v as int,
                None => 100int,
            },
            c.relevance == match draft.relevance {
                Some(v) => v as int,
                None => 700int,
            },
            c.novelty == match draft.novelty {
                Some(v) => v as int,
                None => 500int,
            },
            c.priority == match draft.priority {
                Some(p) => p as int,
                None => spec_priority(
                    c.stability as int,
                    c.relevance as int,
                    c.novelty as int,
                ),
            },
            c.next_due == draft.next_due,
            c.created_at == now,
            c.updated_at == now,
    {
        let stability = match draft.stability {
            Some(v) => v,
            None => 100,
        };
        let relevance = match draft.relevance {
            Some(v) => v,
            None => 700,
        };
        let novelty = match draft.novelty {
            Some(v) => v,
            None => 500,
        };
        let priority = match draft.priority {
            Some(v) => v,
            None => calculate_priority(stability, relevance, novelty),
        };
        MemoryCard {
            id,
            direction_id,
            skill_point_id: draft.skill_point_id,
            title: draft.title,
            body: draft.body,
            card_type: draft.card_type,
            stability,
            relevance,
            novelty,
            priority,
            next_due: draft.next_due,
            created_at: now,
            updated_at: now,
        }
    }
}

impl Clone for MemoryCard {
    fn clone(&self) -> (c: Self)
        ensures
            c == *self,
    {
        MemoryCard {
            id: self.id,
            direction_id: self.direction_id,
            skill_point_id: self.skill_point_id,
            title: self.title.clone(),
            body: self.body.clone(),
            card_type: self.card_type,
            stability: self.stability,
            relevance: self.relevance,
            novelty: self.novelty,
            priority: self.priority,
            next_due: self.next_due,
            created_at: self.created_at,
            updated_at: self.updated_at,
        }
    }
}

/// Every card's timestamps lie within the supported range.
pub open spec fn cards_times_ok(cards: Seq<MemoryCard>) -> bool {
    forall|i: int| 0 <= i < cards.len() ==> (#[trigger] cards[i]).times_ok()
}

/// No two cards share an identifier.
pub open spec fn unique_card_ids(cards: Seq<MemoryCard>) -> bool {
    forall|i: int, j: int| 0 <= i < j < cards.len() ==> cards[i].id != cards[j].id
}

/// The caller-supplied fields of a new card; absent scalars get defaults.
#[derive(Debug)]
pub struct MemoryCardDraft {
    pub skill_point_id: Option<u128>,
    pub title: String,
    pub body: String,
    pub card_type: CardType,
    pub stability: Option<i64>,
    pub relevance: Option<i64>,
    pub novelty: Option<i64>,
    pub priority: Option<i64>,
    pub next_due: Option<i64>,
}

/// A partial update of a card; `None` leaves a field unchanged.
#[derive(Debug)]
pub struct MemoryCardUpdate {
    pub skill_point_id: Option<Option<u128>>,
    pub title: Option<String>,
    pub body: Option<String>,
    pub card_type: Option<CardType>,
    pub stability: Option<i64>,
    pub relevance: Option<i64>,
    pub novelty: Option<i64>,
    pub priority: Option<i64>,
    pub next_due: Option<Option<i64>>,
}

} // verus!
