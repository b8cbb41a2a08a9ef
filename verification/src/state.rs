//! The mathematical model of the puzzle: a grid of tiles and a move counter,
//! with the rules of the game stated over them.

use vstd::prelude::*;
use crate::tile::Tile;

verus! {

/// Side length of the board.
pub const GRID_SIZE: usize = 4;

/// The number of moves that a shuffle makes.
pub const SHUFFLE_STEPS: usize = 100;

/// The largest number on a tile: one less than the number of cells.
pub open spec fn top_number() -> int {
    GRID_SIZE * GRID_SIZE - 1
}

/// Whether `(row, col)` names a cell of the board.
pub open spec fn in_grid(row: int, col: int) -> bool {
    0 <= row < GRID_SIZE && 0 <= col < GRID_SIZE
}

/// Whether two coordinates are neighbours: in one row and one column apart,
/// or in one column and one row apart. No diagonals, no wrapping round.
pub open spec fn adjacent(a: (int, int), b: (int, int)) -> bool {
    ||| a.0 == b.0 && (a.1 - b.1 == 1 || b.1 - a.1 == 1)
    ||| a.1 == b.1 && (a.0 - b.0 == 1 || b.0 - a.0 == 1)
}

/// Whether `tile` may lie on the board: empty, or numbered from 1 to
/// `top_number()`.
pub open spec fn is_content(tile: Tile) -> bool {
    tile.value matches Some(v) ==> 1 <= v <= top_number()
}

/// What the cell `(row, col)` holds when the puzzle is solved: its position
/// in row-major order, counted from 1, and nothing in the last cell.
pub open spec fn solved_tile(row: int, col: int) -> Tile {
    if row == GRID_SIZE - 1 && col == GRID_SIZE - 1 {
        Tile { value: None }
    } else {
        Tile { value: Some((row * GRID_SIZE + col + 1) as u8) }
    }
}

/// A puzzle as a mathematical value.
pub struct State {
    /// The rows of the board, top to bottom, each left to right.
    pub cells: Seq<Seq<Tile>>,
    /// Successful moves since the last reset.
    pub moves: nat,
}

impl State {
    /// The content of the cell `(row, col)`.
    pub open spec fn at(self, row: int, col: int) -> Tile {
        self.cells[row][col]
    }

    /// The board has `GRID_SIZE` rows of `GRID_SIZE` cells.
    pub open spec fn is_square(self) -> bool {
        &&& self.cells.len() == GRID_SIZE
        &&& forall|row: int| 0 <= row < GRID_SIZE ==> (#[trigger] self.cells[row]).len() == GRID_SIZE
    }

    /// Some cell holds `tile`.
    pub open spec fn has(self, tile: Tile) -> bool {
        exists|row: int, col: int| in_grid(row, col) && #[trigger] self.at(row, col) == tile
    }

    /// Every cell holds an allowed content, no two cells hold the same, and
    /// each allowed content lies somewhere: the board is a permutation of the
    /// numbers 1 to `top_number()` and one empty cell.
    pub open spec fn is_permutation(self) -> bool {
        &&& forall|row: int, col: int| in_grid(row, col) ==> is_content(#[trigger] self.at(row, col))
        &&& forall|r1: int, c1: int, r2: int, c2: int|
            in_grid(r1, c1) && in_grid(r2, c2) && #[trigger] self.at(r1, c1) == #[trigger] self.at(r2, c2)
                ==> r1 == r2 && c1 == c2
        &&& forall|tile: Tile| is_content(tile) ==> #[trigger] self.has(tile)
    }

    /// Well-formedness: a square board that is a permutation.
    pub open spec fn wf(self) -> bool {
        self.is_square() && self.is_permutation()
    }

    /// The coordinates of the empty cell.
    pub open spec fn empty_cell(self) -> (int, int) {
        choose|p: (int, int)| in_grid(p.0, p.1) && (#[trigger] self.at(p.0, p.1)).value is None
    }

    /// Whether `(row, col)` is a neighbour of the empty cell.
    pub open spec fn adjacent_to_empty(self, row: int, col: int) -> bool {
        adjacent((row, col), self.empty_cell())
    }

    /// Whether the tile at `(row, col)` may move: it lies on the board, beside
    /// the empty cell.
    pub open spec fn can_move(self, row: int, col: int) -> bool {
        in_grid(row, col) && self.adjacent_to_empty(row, col)
    }

    /// The board with `tile` put into the cell `(row, col)`.
    pub open spec fn put(self, row: int, col: int, tile: Tile) -> State {
        State { cells: self.cells.update(row, self.cells[row].update(col, tile)), moves: self.moves }
    }

    /// The state after the tile at `(row, col)` has slid into the empty cell:
    /// the two cells have exchanged their contents and the move is counted.
    pub open spec fn slide(self, row: int, col: int) -> State {
        let (empty_row, empty_col) = self.empty_cell();
        let swapped = self.put(empty_row, empty_col, self.at(row, col)).put(row, col, Tile { value: None });
        State { cells: swapped.cells, moves: self.moves + 1 }
    }

    /// The state after an attempt to move the tile at `(row, col)`: slid if it
    /// may move, unchanged if not.
    pub open spec fn after_move(self, row: int, col: int) -> State {
        if self.can_move(row, col) {
            self.slide(row, col)
        } else {
            self
        }
    }

    /// The solved puzzle with no move counted.
    pub open spec fn solved() -> State {
        State {
            cells: Seq::new(GRID_SIZE as nat, |row: int| Seq::new(GRID_SIZE as nat, |col: int| solved_tile(row, col))),
            moves: 0,
        }
    }

    /// Whether the board is in the solved layout.
    pub open spec fn is_solved(self) -> bool {
        self.cells == State::solved().cells
    }

    /// The neighbours of the empty cell that lie on the board, in the order
    /// above, below, left, right.
    pub open spec fn neighbors(self) -> Seq<(int, int)> {
        let (row, col) = self.empty_cell();
        let above = if row > 0 { seq![(row - 1, col)] } else { Seq::empty() };
        let below = if row < GRID_SIZE - 1 { seq![(row + 1, col)] } else { Seq::empty() };
        let left = if col > 0 { seq![(row, col - 1)] } else { Seq::empty() };
        let right = if col < GRID_SIZE - 1 { seq![(row, col + 1)] } else { Seq::empty() };
        above + below + left + right
    }

    /// The state after an attempt to move each cell of `steps` in turn.
    pub open spec fn walk(self, steps: Seq<(int, int)>) -> State
        decreases steps.len(),
    {
        if steps.len() == 0 {
            self
        } else {
            self.walk(steps.drop_last()).after_move(steps.last().0, steps.last().1)
        }
    }

    /// Whether every cell of `steps` may move when its turn comes.
    pub open spec fn is_legal_walk(self, steps: Seq<(int, int)>) -> bool
        decreases steps.len(),
    {
        steps.len() == 0 || {
            &&& self.is_legal_walk(steps.drop_last())
            &&& self.walk(steps.drop_last()).can_move(steps.last().0, steps.last().1)
        }
    }

    /// The walk that undoes the legal walk `steps` from this state: it moves
    /// the tiles back one by one, the last moved first, by naming the cell
    /// that was empty before each step.
    pub open spec fn way_back(self, steps: Seq<(int, int)>) -> Seq<(int, int)>
        decreases steps.len(),
    {
        if steps.len() == 0 {
            Seq::empty()
        } else {
            seq![self.walk(steps.drop_last()).empty_cell()] + self.way_back(steps.drop_last())
        }
    }

    /// Whether legal moves can solve the puzzle from this state.
    pub open spec fn is_solvable(self) -> bool {
        exists|steps: Seq<(int, int)>| self.is_legal_walk(steps) && self.walk(steps).is_solved()
    }

    /// Whether `steps` is a walk that a shuffle may have taken to this
    /// state: `SHUFFLE_STEPS` legal moves from the solved puzzle to this
    /// board, and the counter back at zero.
    pub open spec fn is_shuffle_by(self, steps: Seq<(int, int)>) -> bool {
        &&& steps.len() == SHUFFLE_STEPS
        &&& State::solved().is_legal_walk(steps)
        &&& self.cells == State::solved().walk(steps).cells
        &&& self.moves == 0
    }

    /// Whether a shuffle may end in this state.
    pub open spec fn is_shuffled(self) -> bool {
        exists|steps: Seq<(int, int)>| self.is_shuffle_by(steps)
    }
}

} // verus!
