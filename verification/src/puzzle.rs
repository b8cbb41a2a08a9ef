//! The puzzle itself: the board in memory and the operations on it.

use vstd::prelude::*;
use crate::tile::Tile;
use crate::random::random_index;
use crate::laws::{lemma_empty_cell, lemma_neighbors, lemma_slide, lemma_solved, lemma_wf_ignores_moves};
use crate::state::{GRID_SIZE, SHUFFLE_STEPS, State, in_grid, solved_tile};

verus! {

/// A board of `GRID_SIZE` by `GRID_SIZE` cells and a counter of moves.
#[derive(Debug)]
pub struct Puzzle {
    tiles: [[Tile; GRID_SIZE]; GRID_SIZE],
    moves: u32,
}

impl View for Puzzle {
    type V = State;

    closed spec fn view(&self) -> State {
        State {
            cells: Seq::new(GRID_SIZE as nat, |row: int| Seq::new(GRID_SIZE as nat, |col: int| self.tiles[row][col])),
            moves: self.moves as nat,
        }
    }
}

impl Default for Puzzle {
    /// The solved puzzle, with no move counted.
    fn default() -> (puzzle: Puzzle)
        ensures
            puzzle@ == State::solved(),
            puzzle@.is_solved(),
            puzzle.wf(),
    {
        let mut tiles = [[Tile::empty(); GRID_SIZE]; GRID_SIZE];
        let mut value: u8 = 1;
        for i in 0..GRID_SIZE
            invariant
                value == if i == GRID_SIZE { i * GRID_SIZE } else { i * GRID_SIZE + 1 },
                forall|r: int, c: int| 0 <= r < i && 0 <= c < GRID_SIZE ==> #[trigger] tiles[r][c] == solved_tile(r, c),
        {
            for j in 0..GRID_SIZE
                invariant
                    i < GRID_SIZE,
                    value == if i == GRID_SIZE - 1 && j == GRID_SIZE { i * GRID_SIZE + j } else { i * GRID_SIZE + j + 1 },
                    forall|r: int, c: int| 0 <= r < i && 0 <= c < GRID_SIZE ==> #[trigger] tiles[r][c] == solved_tile(r, c),
                    forall|c: int| 0 <= c < j ==> #[trigger] tiles[i as int][c] == solved_tile(i as int, c),
            {
                if i == GRID_SIZE - 1 && j == GRID_SIZE - 1 {
                    tiles[i][j] = Tile::empty();
                } else {
                    tiles[i][j] = Tile::new(value);
                    value += 1;
                }
            }
        }
        let puzzle = Puzzle { tiles, moves: 0 };
        proof {
            lemma_solved();
            assert(puzzle@.cells =~~= State::solved().cells);
        }
        puzzle
    }
}

impl Puzzle {
    /// Well-formedness: the board is a permutation of the numbered tiles and
    /// one empty cell. Every operation keeps it.
    pub open spec fn wf(&self) -> bool {
        self@.wf()
    }

    /// Whatever a puzzle holds, its board is square, and its counter fits
    /// in a `u32`.
    pub proof fn lemma_shape(&self)
        ensures
            self@.is_square(),
            self@.moves <= u32::MAX,
    {
    }

    /// The content of the cell `(row, col)`.
    pub fn tile(&self, row: usize, col: usize) -> (tile: Tile)
        requires
            row < GRID_SIZE,
            col < GRID_SIZE,
        ensures
            tile == self@.at(row as int, col as int),
    {
        self.tiles[row][col]
    }

    /// The number of successful moves since the last reset.
    pub fn moves(&self) -> (moves: u32)
        ensures
            moves == self@.moves,
    {
        self.moves
    }

    /// The coordinates of the empty cell, found by a scan in row-major order.
    /// A well-formed board has one, so the result is never `None`.
    pub fn find_empty(&self) -> (found: Option<(usize, usize)>)
        requires
            self.wf(),
        ensures
            found == Some((self@.empty_cell().0 as usize, self@.empty_cell().1 as usize)),
            in_grid(self@.empty_cell().0, self@.empty_cell().1),
    {
        for i in 0..GRID_SIZE
            invariant
                self.wf(),
                forall|r: int, c: int| 0 <= r < i && 0 <= c < GRID_SIZE ==> (#[trigger] self@.at(r, c)).value is Some,
        {
            for j in 0..GRID_SIZE
                invariant
                    self.wf(),
                    i < GRID_SIZE,
                    forall|r: int, c: int| 0 <= r < i && 0 <= c < GRID_SIZE ==> (#[trigger] self@.at(r, c)).value is Some,
                    forall|c: int| 0 <= c < j ==> (#[trigger] self@.at(i as int, c)).value is Some,
            {
                if self.tiles[i][j].is_empty() {
                    proof {
                        lemma_empty_cell(self@);
                        assert(self@.at(i as int, j as int).value is None);
                    }
                    return Some((i, j));
                }
            }
        }
        proof {
            lemma_empty_cell(self@);
        }
        None
    }

    /// Whether `(row, col)` is a neighbour of the empty cell: beside it in its
    /// row, or above or below it in its column.
    pub fn is_adjacent_to_empty(&self, row: usize, col: usize) -> (adjacent: bool)
        requires
            self.wf(),
        ensures
            adjacent == self@.adjacent_to_empty(row as int, col as int),
    {
        if let Some((empty_row, empty_col)) = self.find_empty() {
            (row == empty_row && distance(col, empty_col) == 1)
                || (col == empty_col && distance(row, empty_row) == 1)
        } else {
            false
        }
    }

    /// Moves the tile at `(row, col)` into the empty cell if it lies beside
    /// it, and counts the move; otherwise changes nothing. Says whether the
    /// tile moved. The empty cell itself never moves.
    pub fn move_tile(&mut self, row: usize, col: usize) -> (moved: bool)
        requires
            old(self).wf(),
            row < GRID_SIZE,
            col < GRID_SIZE,
            old(self)@.can_move(row as int, col as int) ==> old(self)@.moves < u32::MAX,
        ensures
            moved == old(self)@.can_move(row as int, col as int),
            final(self)@ == old(self)@.after_move(row as int, col as int),
            final(self).wf(),
            moved ==> final(self)@.moves == old(self)@.moves + 1,
            moved ==> final(self)@.empty_cell() == (row as int, col as int),
            !moved ==> *final(self) == *old(self),
    {
        if self.is_adjacent_to_empty(row, col) {
            if let Some((empty_row, empty_col)) = self.find_empty() {
                proof {
                    lemma_slide(self@, row as int, col as int);
                }
                let temp = self.tiles[row][col];
                self.tiles[row][col] = self.tiles[empty_row][empty_col];
                self.tiles[empty_row][empty_col] = temp;
                self.moves += 1;
                proof {
                    lemma_empty_cell(old(self)@);
                    assert(self@.cells =~~= old(self)@.slide(row as int, col as int).cells);
                }
                return true;
            }
        }
        false
    }

    /// The cells whose tile may move: the neighbours of the empty cell that
    /// lie on the board, in the order above, below, left, right.
    pub fn valid_moves(&self) -> (cells: Vec<(usize, usize)>)
        requires
            self.wf(),
        ensures
            cells@.len() == self@.neighbors().len(),
            forall|k: int| 0 <= k < cells@.len() ==> position(#[trigger] cells@[k]) == self@.neighbors()[k],
    {
        let mut valid_moves: Vec<(usize, usize)> = Vec::new();
        if let Some((empty_row, empty_col)) = self.find_empty() {
            if empty_row > 0 {
                valid_moves.push((empty_row - 1, empty_col));
            }
            if empty_row < GRID_SIZE - 1 {
                valid_moves.push((empty_row + 1, empty_col));
            }
            if empty_col > 0 {
                valid_moves.push((empty_row, empty_col - 1));
            }
            if empty_col < GRID_SIZE - 1 {
                valid_moves.push((empty_row, empty_col + 1));
            }
        }
        valid_moves
    }

    /// One step of a walk: moves the tile of the cell that `valid_moves`
    /// lists at index `pick`, which is always a legal move, and counts it.
    pub fn walk_step(&mut self, pick: usize)
        requires
            old(self).wf(),
            pick < old(self)@.neighbors().len(),
            old(self)@.moves < u32::MAX,
        ensures
            final(self)@ == old(self)@.slide(old(self)@.neighbors()[pick as int].0, old(self)@.neighbors()[pick as int].1),
            old(self)@.can_move(old(self)@.neighbors()[pick as int].0, old(self)@.neighbors()[pick as int].1),
            final(self)@.empty_cell() == old(self)@.neighbors()[pick as int],
            final(self)@.moves == old(self)@.moves + 1,
            final(self).wf(),
    {
        proof {
            lemma_neighbors(self@);
        }
        let valid_moves = self.valid_moves();
        assert(position(valid_moves@[pick as int]) == self@.neighbors()[pick as int]);
        let (row, col) = valid_moves[pick];
        self.move_tile(row, col);
    }

    /// Shuffles the puzzle: starts again from the solved puzzle, makes
    /// `SHUFFLE_STEPS` legal moves, each picked at random among the tiles
    /// that may move, and sets the counter back to zero. Which moves are
    /// made is left to chance; what they lead to is always a well-formed
    /// board that legal moves can solve again.
    pub fn shuffle(&mut self)
        ensures
            final(self)@.is_shuffled(),
            final(self)@.moves == 0,
            final(self).wf(),
    {
        *self = Self::default();
        let mut rng = rand::thread_rng();
        let ghost mut steps: Seq<(int, int)> = Seq::empty();
        for n in 0..SHUFFLE_STEPS
            invariant
                self.wf(),
                steps.len() == n,
                State::solved().is_legal_walk(steps),
                self@ == State::solved().walk(steps),
                self@.moves == n,
        {
            proof {
                lemma_neighbors(self@);
            }
            let count = self.valid_moves().len();
            let pick = random_index(&mut rng, count);
            let ghost step = self@.neighbors()[pick as int];
            self.walk_step(pick);
            proof {
                let longer = steps.push(step);
                assert(longer.drop_last() == steps);
                assert(longer.last() == step);
                steps = longer;
            }
        }
        self.moves = 0;
        proof {
            lemma_wf_ignores_moves(State::solved().walk(steps), self@);
            assert(self@.is_shuffle_by(steps));
        }
    }

    /// Whether the puzzle is solved: every cell but the last holds its
    /// position in row-major order, counted from 1, and the last is empty.
    pub fn is_solved(&self) -> (solved: bool)
        ensures
            solved == self@.is_solved(),
    {
        let mut expected_value: u8 = 1;
        for i in 0..GRID_SIZE
            invariant
                expected_value == if i == GRID_SIZE { i * GRID_SIZE } else { i * GRID_SIZE + 1 },
                forall|r: int, c: int| 0 <= r < i && 0 <= c < GRID_SIZE ==> #[trigger] self@.at(r, c) == solved_tile(r, c),
        {
            for j in 0..GRID_SIZE
                invariant
                    i < GRID_SIZE,
                    expected_value == if i == GRID_SIZE - 1 && j == GRID_SIZE {
                        i * GRID_SIZE + j
                    } else {
                        i * GRID_SIZE + j + 1
                    },
                    forall|r: int, c: int| 0 <= r < i && 0 <= c < GRID_SIZE ==> #[trigger] self@.at(r, c) == solved_tile(r, c),
                    forall|c: int| 0 <= c < j ==> #[trigger] self@.at(i as int, c) == solved_tile(i as int, c),
            {
                if i == GRID_SIZE - 1 && j == GRID_SIZE - 1 {
                    if !self.tiles[i][j].is_empty() {
                        proof {
                            lemma_solved();
                            assert(self@.at(i as int, j as int) != State::solved().at(i as int, j as int));
                        }
                        return false;
                    }
                } else {
                    if self.tiles[i][j].value != Some(expected_value) {
                        proof {
                            lemma_solved();
                            assert(self@.at(i as int, j as int) != State::solved().at(i as int, j as int));
                        }
                        return false;
                    }
                    expected_value += 1;
                }
            }
        }
        proof {
            lemma_solved();
            assert forall|r: int| 0 <= r < GRID_SIZE implies #[trigger] self@.cells[r] =~= State::solved().cells[r] by {
                assert forall|c: int| 0 <= c < GRID_SIZE implies #[trigger] self@.cells[r][c] == solved_tile(r, c) by {
                    assert(self@.at(r, c) == solved_tile(r, c));
                }
            }
            assert(self@.cells =~= State::solved().cells);
        }
        true
    }
}

impl Clone for Puzzle {
    /// A copy with the same board and the same counter.
    fn clone(&self) -> (copy: Puzzle)
        ensures
            copy == *self,
    {
        Puzzle { tiles: self.tiles, moves: self.moves }
    }
}

/// The coordinates of `cell` as mathematical integers.
pub open spec fn position(cell: (usize, usize)) -> (int, int) {
    (cell.0 as int, cell.1 as int)
}

/// How far apart two indices are.
fn distance(a: usize, b: usize) -> (d: usize)
    ensures
        d == if a >= b { a - b } else { b - a },
{
    if a >= b {
        a - b
    } else {
        b - a
    }
}

} // verus!
