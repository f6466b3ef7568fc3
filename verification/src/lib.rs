//! Core mechanics of the 2048 tile-sliding puzzle: a 4x4 grid of
//! power-of-two tiles, directional compact-and-merge slides with scoring,
//! random tile spawning, and a fullness-based terminal check.

use vstd::prelude::*;

pub mod game;
pub mod grid;
pub mod laws;
pub mod model;
mod rng;

pub use game::Game;
pub use grid::GameState;

verus! {

/// Cap on the total value a well-formed grid may carry. Play from the two
/// starting tiles can never approach it (a full board of the largest tile
/// reachable on 16 cells sums to about 2^21), yet it keeps every merge and
/// every score sum exact even where `usize` is 32 bits wide.
pub const SUM_CAP: usize = 0x0100_0000;

/// Cap on a session's cumulative score under which one more turn's score
/// sum is exact even where `usize` is 32 bits wide.
pub const SCORE_CAP: usize = 0x7000_0000;

/// A slide direction: selects which of the four compact-and-merge
/// transformations runs.
#[derive(Debug, Clone, Copy, PartialEq, Eq, Structural)]
pub enum Direction {
    Up,
    Down,
    Left,
    Right,
}

} // verus!
