//! A turn-budgeted grid puzzle: a single token moves on a bounded grid,
//! deposits a permanent trail wall at every directional bend, and must reach
//! goal cells before its supply of direction changes runs out. After each
//! attempt the level is re-validated: when no goal is reachable from the
//! start cell any more, the game is over.
//!
//! The crate holds the movement/trail state machine and the reachability
//! validation engine, each with a verified contract; rendering and input
//! sampling live outside.

pub mod direction;
pub mod grid;
pub mod token;
pub mod trail;
pub mod reach;
pub mod game;
pub mod levels;
