//! Tile values: the closed set of tile kinds, the tile record that lives on
//! the board, and the error kinds shared by the whole engine.

use vstd::prelude::*;

verus! {

/// Number of tile kinds. Random draws are uniform over `0..KIND_COUNT`.
pub const KIND_COUNT: u8 = 5;

/// The closed set of tile kinds.
#[derive(Clone, Copy, Debug, PartialEq, Eq, Structural)]
pub enum TileType {
    Red,
    Green,
    Pink,
    Tea,
    Cookie,
}

/// Maps a kind index drawn from `0..KIND_COUNT` to its tile kind.
pub fn kind_of_index(i: u8) -> (k: TileType)
    requires
        i < KIND_COUNT,
    ensures
        k == kind_of_index_spec(i),
{
    if i == 0 {
        TileType::Red
    } else if i == 1 {
        TileType::Green
    } else if i == 2 {
        TileType::Pink
    } else if i == 3 {
        TileType::Tea
    } else {
        TileType::Cookie
    }
}

pub open spec fn kind_of_index_spec(i: u8) -> TileType {
    if i == 0 {
        TileType::Red
    } else if i == 1 {
        TileType::Green
    } else if i == 2 {
        TileType::Pink
    } else if i == 3 {
        TileType::Tea
    } else {
        TileType::Cookie
    }
}

/// One game piece. Its identity is its index in the board's tile table and is
/// stable across moves; only position, kind and the two transient tags mutate.
#[derive(Clone, Copy, Debug, PartialEq, Eq, Structural)]
pub struct Tile {
    /// Column of the cell this tile occupies.
    pub col: usize,
    /// Row of the cell this tile occupies; row 0 is the bottom, tiles fall
    /// toward it.
    pub row: usize,
    /// The tile's kind.
    pub kind: TileType,
    /// Set by the match scan, cleared when the match is handled.
    pub matched: bool,
    /// Set by the input collaborator, cleared by the swap step.
    pub selected: bool,
}

/// Errors of the grid engine's boundary checks.
#[derive(Clone, Copy, Debug, PartialEq, Eq, Structural)]
pub enum GridError {
    /// A coordinate lies outside `[0, cols) x [0, rows)`.
    OutOfBounds,
    /// A placement or move targeted a non-empty cell.
    OccupiedCell,
}

/// The two-phase lifecycle: matches found while `Initializing` are rerolled in
/// place; once a scan comes back clean the engine flips to `Playing`, forever,
/// and matches are destructively cleared instead.
#[derive(Clone, Copy, Debug, PartialEq, Eq, Structural)]
pub enum GridState {
    Initializing,
    Playing,
}

} // verus!
