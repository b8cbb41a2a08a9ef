//! What holds of the model: the facts that the operations on the puzzle
//! rest on, and the laws of the game.

use vstd::prelude::*;
use crate::state::{GRID_SIZE, State, in_grid, is_content, solved_tile};
use crate::tile::Tile;

verus! {

/// The solved puzzle is well formed and solved, and its empty cell is the
/// last one.
pub proof fn lemma_solved()
    ensures
        State::solved().wf(),
        State::solved().is_solved(),
        State::solved().moves == 0,
        State::solved().empty_cell() == (GRID_SIZE - 1, GRID_SIZE - 1),
        forall|row: int, col: int| in_grid(row, col) ==> #[trigger] State::solved().at(row, col) == solved_tile(row, col),
{
    let s = State::solved();
    assert forall|row: int, col: int| in_grid(row, col) implies #[trigger] s.at(row, col) == solved_tile(row, col) by {}
    assert forall|tile: Tile| is_content(tile) implies #[trigger] s.has(tile) by {
        match tile.value {
            None => {
                assert(s.at(GRID_SIZE - 1, GRID_SIZE - 1) == tile);
            },
            Some(v) => {
                let row = (v - 1) / (GRID_SIZE as int);
                let col = (v - 1) % (GRID_SIZE as int);
                assert(in_grid(row, col));
                assert(s.at(row, col) == tile);
            },
        }
    }
    assert(s.is_permutation());
    lemma_empty_cell(s);
    assert(s.at(GRID_SIZE - 1, GRID_SIZE - 1).value is None);
}

/// A well-formed board has exactly one empty cell, and `empty_cell` names it.
pub proof fn lemma_empty_cell(s: State)
    requires
        s.wf(),
    ensures
        in_grid(s.empty_cell().0, s.empty_cell().1),
        s.at(s.empty_cell().0, s.empty_cell().1).value is None,
        forall|row: int, col: int|
            in_grid(row, col) && (#[trigger] s.at(row, col)).value is None ==> (row, col) == s.empty_cell(),
{
    let nothing = Tile { value: None };
    assert(s.has(nothing));
    let (row, col) = choose|row: int, col: int| in_grid(row, col) && #[trigger] s.at(row, col) == nothing;
    let p = (row, col);
    assert(in_grid(p.0, p.1) && s.at(p.0, p.1).value is None);
}

/// A slide exchanges the contents of the moved cell and the empty cell,
/// leaves every other cell alone, and keeps the board well formed; the
/// moved cell is the new empty cell.
pub proof fn lemma_slide(s: State, row: int, col: int)
    requires
        s.wf(),
        s.can_move(row, col),
    ensures
        s.slide(row, col).wf(),
        s.slide(row, col).moves == s.moves + 1,
        s.slide(row, col).empty_cell() == (row, col),
        s.slide(row, col).at(s.empty_cell().0, s.empty_cell().1) == s.at(row, col),
        forall|r: int, c: int|
            in_grid(r, c) && (r, c) != (row, col) && (r, c) != s.empty_cell()
                ==> #[trigger] s.slide(row, col).at(r, c) == s.at(r, c),
{
    lemma_empty_cell(s);
    let (er, ec) = s.empty_cell();
    let t = s.slide(row, col);
    assert(t.is_square()) by {
        assert forall|r: int| 0 <= r < GRID_SIZE implies (#[trigger] t.cells[r]).len() == GRID_SIZE by {
            assert(s.cells[r].len() == GRID_SIZE);
        }
    }
    assert(t.at(row, col).value is None);
    assert(t.at(er, ec) == s.at(row, col));
    assert forall|r: int, c: int| in_grid(r, c) && (r, c) != (row, col) && (r, c) != (er, ec)
        implies #[trigger] t.at(r, c) == s.at(r, c) by {}
    assert forall|r: int, c: int| in_grid(r, c) implies is_content(#[trigger] t.at(r, c)) by {
        assert(is_content(s.at(r, c)));
        assert(is_content(s.at(row, col)));
    }
    assert forall|r1: int, c1: int, r2: int, c2: int|
        in_grid(r1, c1) && in_grid(r2, c2) && #[trigger] t.at(r1, c1) == #[trigger] t.at(r2, c2)
        implies r1 == r2 && c1 == c2 by {
        let a = if (r1, c1) == (row, col) { (er, ec) } else if (r1, c1) == (er, ec) { (row, col) } else { (r1, c1) };
        let b = if (r2, c2) == (row, col) { (er, ec) } else if (r2, c2) == (er, ec) { (row, col) } else { (r2, c2) };
        assert(t.at(r1, c1) == s.at(a.0, a.1));
        assert(t.at(r2, c2) == s.at(b.0, b.1));
    }
    assert forall|tile: Tile| is_content(tile) implies #[trigger] t.has(tile) by {
        assert(s.has(tile));
        let (r, c) = choose|r: int, c: int| in_grid(r, c) && #[trigger] s.at(r, c) == tile;
        let a = if (r, c) == (row, col) { (er, ec) } else if (r, c) == (er, ec) { (row, col) } else { (r, c) };
        assert(in_grid(a.0, a.1) && t.at(a.0, a.1) == tile);
    }
    lemma_empty_cell(t);
}

/// The neighbours listed by `neighbors` are exactly the cells that may move:
/// two of them in a corner, three on an edge, four inside, none twice.
pub proof fn lemma_neighbors(s: State)
    requires
        s.wf(),
    ensures
        2 <= s.neighbors().len() <= 4,
        s.neighbors().no_duplicates(),
        forall|k: int| 0 <= k < s.neighbors().len() ==> s.can_move((#[trigger] s.neighbors()[k]).0, s.neighbors()[k].1),
        forall|row: int, col: int| #[trigger] s.can_move(row, col) ==> s.neighbors().contains((row, col)),
{
    lemma_empty_cell(s);
    let (er, ec) = s.empty_cell();
    let n = s.neighbors();
    assert forall|row: int, col: int| #[trigger] s.can_move(row, col) implies n.contains((row, col)) by {
        let k = if row == er - 1 {
            0int
        } else if row == er + 1 {
            if er > 0 { 1int } else { 0int }
        } else if col == ec - 1 {
            (if er > 0 { 1int } else { 0int }) + (if er < GRID_SIZE - 1 { 1int } else { 0int })
        } else {
            n.len() - 1
        };
        assert(0 <= k < n.len() && n[k] == (row, col));
    }
}

/// The empty cell is no neighbour of itself: an attempt to move it fails.
pub proof fn lemma_empty_cell_stays(s: State)
    ensures
        !s.can_move(s.empty_cell().0, s.empty_cell().1),
        s.after_move(s.empty_cell().0, s.empty_cell().1) == s,
{
}

/// Moving a tile and then moving the tile that now lies where the empty cell
/// was puts every tile back where it was, with two moves counted.
pub proof fn lemma_move_back(s: State, row: int, col: int)
    requires
        s.wf(),
        s.can_move(row, col),
    ensures
        s.after_move(row, col).empty_cell() == (row, col),
        s.after_move(row, col).can_move(s.empty_cell().0, s.empty_cell().1),
        s.after_move(row, col).after_move(s.empty_cell().0, s.empty_cell().1).cells == s.cells,
        s.after_move(row, col).after_move(s.empty_cell().0, s.empty_cell().1).moves == s.moves + 2,
{
    lemma_empty_cell(s);
    lemma_slide(s, row, col);
    let (er, ec) = s.empty_cell();
    let t = s.after_move(row, col);
    lemma_slide(t, er, ec);
    let u = t.after_move(er, ec);
    assert forall|r: int| 0 <= r < GRID_SIZE implies #[trigger] u.cells[r] =~= s.cells[r] by {
        assert(s.cells[r].len() == GRID_SIZE);
        assert(u.cells[r].len() == GRID_SIZE);
        assert forall|c: int| 0 <= c < GRID_SIZE implies #[trigger] u.cells[r][c] == s.cells[r][c] by {
            assert(u.at(r, c) == s.at(r, c)) by {
                if (r, c) == (row, col) {
                } else if (r, c) == (er, ec) {
                } else {
                    assert(t.at(r, c) == s.at(r, c));
                }
            }
        }
    }
    assert(u.cells =~= s.cells);
}

/// Attempts to move keep a board well formed, whatever cells they name, and
/// count no more moves than attempts.
pub proof fn lemma_walk_wf(s: State, steps: Seq<(int, int)>)
    requires
        s.wf(),
    ensures
        s.walk(steps).wf(),
        s.moves <= s.walk(steps).moves <= s.moves + steps.len(),
        s.is_legal_walk(steps) ==> s.walk(steps).moves == s.moves + steps.len(),
    decreases steps.len(),
{
    if steps.len() > 0 {
        lemma_walk_wf(s, steps.drop_last());
        let t = s.walk(steps.drop_last());
        if t.can_move(steps.last().0, steps.last().1) {
            lemma_slide(t, steps.last().0, steps.last().1);
        }
    }
}

/// Every board reached from the solved puzzle by attempts to move holds each
/// number from 1 to `top_number()` in exactly one cell and is empty in
/// exactly one cell.
pub proof fn lemma_reachable_is_permutation(steps: Seq<(int, int)>, tile: Tile)
    requires
        is_content(tile),
    ensures
        State::solved().walk(steps).wf(),
        State::solved().walk(steps).has(tile),
        forall|r1: int, c1: int, r2: int, c2: int|
            in_grid(r1, c1) && in_grid(r2, c2) && #[trigger] State::solved().walk(steps).at(r1, c1) == tile
                && #[trigger] State::solved().walk(steps).at(r2, c2) == tile ==> (r1, c1) == (r2, c2),
        forall|row: int, col: int| in_grid(row, col) ==> is_content(#[trigger] State::solved().walk(steps).at(row, col)),
{
    lemma_solved();
    lemma_walk_wf(State::solved(), steps);
}

/// A square board is solved exactly when each cell holds what `solved_tile`
/// gives for it.
pub proof fn lemma_is_solved(s: State)
    requires
        s.is_square(),
    ensures
        s.is_solved() <==> forall|row: int, col: int| in_grid(row, col) ==> #[trigger] s.at(row, col) == solved_tile(row, col),
{
    lemma_solved();
    let t = State::solved();
    if forall|row: int, col: int| in_grid(row, col) ==> #[trigger] s.at(row, col) == solved_tile(row, col) {
        assert forall|r: int| 0 <= r < GRID_SIZE implies #[trigger] s.cells[r] =~= t.cells[r] by {
            assert forall|c: int| 0 <= c < GRID_SIZE implies #[trigger] s.cells[r][c] == t.cells[r][c] by {
                assert(s.at(r, c) == solved_tile(r, c));
            }
        }
        assert(s.cells =~= t.cells);
    }
    if s.is_solved() {
        assert forall|row: int, col: int| in_grid(row, col) implies #[trigger] s.at(row, col) == solved_tile(row, col) by {
            assert(t.at(row, col) == solved_tile(row, col));
        }
    }
}

/// Well-formedness is a matter of the board alone, not of the counter.
pub proof fn lemma_wf_ignores_moves(s: State, t: State)
    requires
        s.wf(),
        s.cells == t.cells,
    ensures
        t.wf(),
{
    assert forall|row: int, col: int| in_grid(row, col) implies is_content(#[trigger] t.at(row, col)) by {
        assert(t.at(row, col) == s.at(row, col));
    }
    assert forall|r1: int, c1: int, r2: int, c2: int|
        in_grid(r1, c1) && in_grid(r2, c2) && #[trigger] t.at(r1, c1) == #[trigger] t.at(r2, c2)
        implies r1 == r2 && c1 == c2 by {
        assert(t.at(r1, c1) == s.at(r1, c1));
        assert(t.at(r2, c2) == s.at(r2, c2));
    }
    assert forall|tile: Tile| is_content(tile) implies #[trigger] t.has(tile) by {
        assert(s.has(tile));
        let (r, c) = choose|r: int, c: int| in_grid(r, c) && #[trigger] s.at(r, c) == tile;
        assert(t.at(r, c) == tile);
    }
}

/// A walk in two parts leads where the second part leads from the end of the
/// first, and is legal exactly when both parts are.
pub proof fn lemma_walk_in_parts(s: State, first: Seq<(int, int)>, second: Seq<(int, int)>)
    ensures
        s.walk(first + second) == s.walk(first).walk(second),
        s.is_legal_walk(first + second) <==> s.is_legal_walk(first) && s.walk(first).is_legal_walk(second),
    decreases second.len(),
{
    if second.len() == 0 {
        assert(first + second =~= first);
    } else {
        lemma_walk_in_parts(s, first, second.drop_last());
        assert((first + second).drop_last() =~= first + second.drop_last());
        assert((first + second).last() == second.last());
    }
}

/// Where a walk leads on the board, and whether it is legal, depends on the
/// board alone, not on the counter.
pub proof fn lemma_walk_ignores_moves(s: State, t: State, steps: Seq<(int, int)>)
    requires
        s.wf(),
        s.cells == t.cells,
    ensures
        s.walk(steps).cells == t.walk(steps).cells,
        s.is_legal_walk(steps) <==> t.is_legal_walk(steps),
    decreases steps.len(),
{
    if steps.len() > 0 {
        let front = steps.drop_last();
        lemma_walk_ignores_moves(s, t, front);
        lemma_wf_ignores_moves(s, t);
        lemma_walk_wf(s, front);
        lemma_walk_wf(t, front);
        lemma_same_empty_cell(s.walk(front), t.walk(front));
    }
}

/// Two well-formed states with the same board have the same empty cell.
pub proof fn lemma_same_empty_cell(s: State, t: State)
    requires
        s.wf(),
        s.cells == t.cells,
    ensures
        s.empty_cell() == t.empty_cell(),
{
    lemma_wf_ignores_moves(s, t);
    lemma_empty_cell(s);
    lemma_empty_cell(t);
    let (row, col) = t.empty_cell();
    assert(s.at(row, col) == t.at(row, col));
}

/// Every legal walk can be undone: from its end, `way_back` is a legal walk
/// of the same length that puts every tile back where it was.
pub proof fn lemma_way_back(s: State, steps: Seq<(int, int)>)
    requires
        s.wf(),
        s.is_legal_walk(steps),
    ensures
        s.way_back(steps).len() == steps.len(),
        s.walk(steps).is_legal_walk(s.way_back(steps)),
        s.walk(steps).walk(s.way_back(steps)).cells == s.cells,
    decreases steps.len(),
{
    if steps.len() > 0 {
        let front = steps.drop_last();
        let (row, col) = steps.last();
        let before = s.walk(front);
        let after = s.walk(steps);
        let (empty_row, empty_col) = before.empty_cell();
        lemma_way_back(s, front);
        lemma_walk_wf(s, front);
        lemma_move_back(before, row, col);
        let undone = after.after_move(empty_row, empty_col);
        let first = seq![before.empty_cell()];
        assert(first.drop_last() =~= Seq::<(int, int)>::empty());
        assert(after.walk(first.drop_last()) == after);
        assert(after.walk(first) == undone);
        assert(after.is_legal_walk(first.drop_last()));
        assert(after.can_move(first.last().0, first.last().1));
        assert(after.is_legal_walk(first));
        lemma_slide(before, row, col);
        lemma_slide(after, empty_row, empty_col);
        lemma_walk_ignores_moves(before, undone, s.way_back(front));
        lemma_walk_in_parts(after, first, s.way_back(front));
    }
}

/// Whatever a shuffle ends in can be solved by legal moves, and is well
/// formed.
pub proof fn lemma_shuffled_is_solvable(s: State)
    requires
        s.is_shuffled(),
    ensures
        s.is_solvable(),
        s.wf(),
        s.moves == 0,
{
    let steps = choose|steps: Seq<(int, int)>| s.is_shuffle_by(steps);
    let start = State::solved();
    let end = start.walk(steps);
    let back = start.way_back(steps);
    lemma_solved();
    lemma_walk_wf(start, steps);
    lemma_wf_ignores_moves(end, s);
    lemma_way_back(start, steps);
    lemma_walk_ignores_moves(end, s, back);
    assert(s.is_legal_walk(back) && s.walk(back).is_solved());
}

} // verus!
