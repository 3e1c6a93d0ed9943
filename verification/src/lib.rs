//! Range equity engine for Texas hold'em.
//!
//! Given a hero hand (two cards), a community board (three to five cards) and
//! the set of cards known to be held elsewhere, the engine enumerates every
//! possible opponent hand, classifies each one as a win, a loss or a tie for
//! the hero, and aggregates the outcomes both as global totals and as a 13x13
//! matrix of starting-hand shapes.  Hand strength itself comes from the
//! `poker` crate's evaluator, reached through a small trusted boundary.

pub mod card;
pub mod classify;
pub mod engine;
pub mod enumerate;
pub mod eval;

pub use card::Card;
pub use classify::{CellCounts, CellState};
pub use engine::{compute, CellResult, EngineOutput, EngineStatus, Totals};
pub use enumerate::Shape;
pub use eval::Verdict;
