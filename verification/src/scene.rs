//! What a user interface shows of a puzzle: a description of the widgets,
//! free of any toolkit.

use vstd::prelude::*;
use crate::controller::Message;
use crate::puzzle::Puzzle;
use crate::state::{GRID_SIZE, State, in_grid};
use crate::tile::Tile;

verus! {

/// The status line.
#[derive(Debug, Clone, Copy, PartialEq, Eq)]
pub enum Status {
    /// The puzzle is solved.
    Solved,
    /// The puzzle is not solved, after this many moves.
    Moves(u32),
}

/// The button that stands for one cell.
#[derive(Debug, Clone, Copy, PartialEq, Eq)]
pub struct Button {
    /// The number shown on it; `None` for a blank button.
    pub label: Option<u8>,
    /// The event that a press raises; `None` for a button that does nothing.
    pub on_press: Option<Message>,
}

/// All that is shown.
#[derive(Debug, Clone, Copy, PartialEq, Eq)]
pub struct Scene {
    /// The status line.
    pub status: Status,
    /// One button for each cell, laid out as the board is.
    pub grid: [[Button; GRID_SIZE]; GRID_SIZE],
    /// The event that the control below the board raises.
    pub shuffle: Message,
}

/// The button for a cell at `(row, col)` that holds `tile`: a numbered tile
/// shows its number and reports its own coordinates when pressed, the empty
/// cell is blank and does nothing.
pub open spec fn button_for(tile: Tile, row: int, col: int) -> Button {
    Button {
        label: tile.value,
        on_press: if tile.value is Some {
            Some(Message::TilePressed(row as usize, col as usize))
        } else {
            None
        },
    }
}

/// The status line for a state: solved, or the number of moves so far.
pub open spec fn status_of(state: State) -> Status {
    if state.is_solved() {
        Status::Solved
    } else {
        Status::Moves(state.moves as u32)
    }
}

impl Scene {
    /// Whether this scene shows `state`.
    pub open spec fn shows(self, state: State) -> bool {
        &&& self.status == status_of(state)
        &&& self.shuffle == Message::Shuffle
        &&& forall|row: int, col: int|
            in_grid(row, col) ==> #[trigger] self.grid[row][col] == button_for(state.at(row, col), row, col)
    }
}

impl Puzzle {
    /// Describes what to show of the puzzle as it is now. The puzzle is not
    /// changed.
    pub fn render(&self) -> (scene: Scene)
        ensures
            scene.shows(self@),
    {
        let blank = Button { label: None, on_press: None };
        let mut grid = [[blank; GRID_SIZE]; GRID_SIZE];
        proof {
            self.lemma_shape();
        }
        for i in 0..GRID_SIZE
            invariant
                forall|r: int, c: int|
                    0 <= r < i && 0 <= c < GRID_SIZE ==> #[trigger] grid[r][c] == button_for(self@.at(r, c), r, c),
        {
            for j in 0..GRID_SIZE
                invariant
                    i < GRID_SIZE,
                    forall|r: int, c: int|
                        0 <= r < i && 0 <= c < GRID_SIZE ==> #[trigger] grid[r][c] == button_for(self@.at(r, c), r, c),
                    forall|c: int|
                        0 <= c < j ==> #[trigger] grid[i as int][c] == button_for(self@.at(i as int, c), i as int, c),
            {
                let tile = self.tile(i, j);
                grid[i][j] = if tile.is_empty() {
                    Button { label: None, on_press: None }
                } else {
                    Button { label: tile.value, on_press: Some(Message::TilePressed(i, j)) }
                };
            }
        }
        let status = if self.is_solved() {
            Status::Solved
        } else {
            Status::Moves(self.moves())
        };
        Scene { status, grid, shuffle: Message::Shuffle }
    }
}

} // verus!
