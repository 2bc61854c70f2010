//! The error taxonomy of the scheduler.

use vstd::prelude::*;

verus! {

/// A typed domain error surfaced to callers.
///
/// `NotFound` marks an unknown workout/card reference, `Validation` a
/// malformed request (empty result set, unknown item id, already-completed
/// workout), and `Other` an internal failure.
#[derive(Debug)]
pub enum AppError {
    NotFound,
    Validation(String),
    Other(String),
}

impl AppError {
    /// A stable machine-readable code for the error, as the HTTP layer
    /// reports it.
    pub fn code(&self) -> (r: &'static str)
        ensures
            self is NotFound ==> r@ == "not_found"@,
            self is Validation ==> r@ == "validation_error"@,
            self is Other ==> r@ == "internal_error"@,
    {
        match self {
            AppError::NotFound => "not_found",
            AppError::Validation(_) => "validation_error",
            AppError::Other(_) => "internal_error",
        }
    }
}

} // verus!
