//! Reminder targets: which daily notification a preference refers to.

use vstd::prelude::*;

verus! {

/// What a reminder points the learner at: today's workout, or the
/// evening review.
#[derive(Debug, Clone, Copy, PartialEq, Eq, Structural)]
pub enum ReminderTarget {
    Today,
    Review,
}

impl ReminderTarget {
    /// The stable string label for this target.
    pub fn as_str(&self) -> (r: &'static str)
        ensures
            *self is Today ==> r@ == "today"@,
            *self is Review ==> r@ == "review"@,
    {
        match self {
            ReminderTarget::Today => "today",
            ReminderTarget::Review => "review",
        }
    }
}

} // verus!
