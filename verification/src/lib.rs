//! The simulation core of a match-3 tile puzzle: a rectangular board of typed
//! tiles that the player swaps, which then resolves matches, clears them,
//! lets tiles fall under gravity and refills empty top-row slots — all driven
//! one tick at a time through a two-phase lifecycle (initial de-duplication,
//! then steady-state play). Rendering and input stay outside: a presentation
//! layer reads the board and feeds cell selections back in.

pub mod tile;
pub mod board;
pub mod matcher;
pub mod swap;
pub mod gravity;
pub mod spawn;
pub mod engine;
mod rng;
