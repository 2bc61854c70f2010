//! A personal spaced-repetition study scheduler.
//!
//! Given a pool of memory cards, the library assembles a bounded daily
//! practice workout (quiz / apply / review phases), and after the session
//! applies pass/fail outcomes to each card's memory-strength estimate,
//! producing session analytics.
//!
//! All fractional quantities (stability, relevance, pressures, scores,
//! rates) are fixed-point integers scaled by 1000, and all timestamps are
//! seconds; see [`units`].

pub mod allocator;
pub mod card;
pub mod completion;
pub mod direction;
pub mod engine;
pub mod entity;
pub mod error;
pub mod focus;
pub mod skill;
pub mod laws;
pub mod notify;
pub mod plan;
pub mod scoring;
pub mod signals;
pub mod stats;
pub mod units;
pub mod vecs;
pub mod workout;
