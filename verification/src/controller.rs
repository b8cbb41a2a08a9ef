//! The events that a user interface sends to the puzzle, and what the puzzle
//! does on each.

use vstd::prelude::*;
use crate::puzzle::Puzzle;
use crate::state::{State, in_grid};

verus! {

/// An event from the user interface.
#[derive(Debug, Clone, Copy, PartialEq, Eq)]
pub enum Message {
    /// The tile at this row and column was pressed.
    TilePressed(usize, usize),
    /// A shuffle was asked for.
    Shuffle,
}

impl State {
    /// Whether the puzzle can take `message` in this state: a pressed tile
    /// lies on the board, and the counter has room for the move if the tile
    /// may move.
    pub open spec fn admits(self, message: Message) -> bool {
        match message {
            Message::TilePressed(row, col) => {
                &&& in_grid(row as int, col as int)
                &&& self.can_move(row as int, col as int) ==> self.moves < u32::MAX
            },
            Message::Shuffle => true,
        }
    }

    /// Whether `next` may be the state after `message` arrives in this
    /// state. A pressed tile moves if it may and is ignored if not; a shuffle
    /// leads to some shuffled state.
    pub open spec fn leads_to(self, message: Message, next: State) -> bool {
        match message {
            Message::TilePressed(row, col) => next == self.after_move(row as int, col as int),
            Message::Shuffle => next.is_shuffled(),
        }
    }
}

impl Puzzle {
    /// Handles one event: a pressed tile is moved if the move is legal, and
    /// silently left alone if not; a request to shuffle shuffles.
    pub fn update(&mut self, message: Message)
        requires
            old(self).wf(),
            old(self)@.admits(message),
        ensures
            old(self)@.leads_to(message, final(self)@),
            final(self).wf(),
    {
        match message {
            Message::TilePressed(row, col) => {
                self.move_tile(row, col);
            },
            Message::Shuffle => {
                self.shuffle();
            },
        }
    }
}

} // verus!
