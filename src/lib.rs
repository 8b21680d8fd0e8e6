//! Rule engine of a falling-ball merge game: contact tracking, merge
//! resolution, growth animation, drop gating and game-state bookkeeping.
//!
//! Lengths are in thousandths of a world unit and time in microseconds, so
//! that every rule is integer arithmetic.

pub mod ball;
pub mod rng;
pub mod world;
pub mod growth;
pub mod game;
pub mod dropper;
pub mod lemmas;
pub mod layout;
