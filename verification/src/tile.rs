//! The content of one cell of the board.

use vstd::prelude::*;

verus! {

/// What one cell holds: a numbered tile, or nothing.
#[derive(Debug, Clone, Copy, PartialEq, Eq, Structural)]
pub struct Tile {
    /// The tile's number; `None` for the empty cell.
    pub value: Option<u8>,
}

impl Tile {
    /// The content of the empty cell.
    pub fn empty() -> (tile: Tile)
        ensures
            tile.value.is_none(),
    {
        Tile { value: None }
    }

    /// The tile that carries the number `value`.
    pub fn new(value: u8) -> (tile: Tile)
        ensures
            tile.value == Some(value),
    {
        Tile { value: Some(value) }
    }

    /// Whether this is the content of the empty cell.
    pub fn is_empty(&self) -> (empty: bool)
        ensures
            empty == self.value.is_none(),
    {
        self.value.is_none()
    }
}

} // verus!
