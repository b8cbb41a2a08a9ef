use fifteen_puzzle::{Puzzle, Tile, GRID_SIZE};

fn layout(puzzle: &Puzzle) -> Vec<Option<u8>> {
    let mut cells = Vec::new();
    for row in 0..GRID_SIZE {
        for col in 0..GRID_SIZE {
            cells.push(puzzle.tile(row, col).value);
        }
    }
    cells
}

fn solved_layout() -> Vec<Option<u8>> {
    let mut cells: Vec<Option<u8>> = (1..=15u8).map(Some).collect();
    cells.push(None);
    cells
}

fn assert_permutation(puzzle: &Puzzle) {
    let mut cells = layout(puzzle);
    assert_eq!(cells.len(), GRID_SIZE * GRID_SIZE);
    assert_eq!(cells.iter().filter(|cell| cell.is_none()).count(), 1);
    cells.sort();
    let mut expected: Vec<Option<u8>> = vec![None];
    expected.extend((1..=15u8).map(Some));
    assert_eq!(cells, expected);
}

/// A board with the empty cell at (1, 1), reached by legal moves.
fn empty_in_the_middle() -> Puzzle {
    let mut puzzle = Puzzle::default();
    assert!(puzzle.move_tile(2, 3));
    assert!(puzzle.move_tile(1, 3));
    assert!(puzzle.move_tile(1, 2));
    assert!(puzzle.move_tile(1, 1));
    puzzle
}

#[test]
fn grid_is_four_by_four() {
    assert_eq!(GRID_SIZE, 4);
}

#[test]
fn empty_tile_has_no_value() {
    let tile = Tile::empty();
    assert_eq!(tile.value, None);
    assert!(tile.is_empty());
}

#[test]
fn numbered_tile_keeps_its_value() {
    let tile = Tile::new(7);
    assert_eq!(tile.value, Some(7));
    assert!(!tile.is_empty());
    assert_eq!(tile, Tile::new(7));
    assert_ne!(tile, Tile::new(8));
    assert_ne!(tile, Tile::empty());
}

#[test]
fn new_puzzle_has_the_solved_layout() {
    let puzzle = Puzzle::default();
    assert_eq!(layout(&puzzle), solved_layout());
    assert_eq!(puzzle.tile(0, 0), Tile::new(1));
    assert_eq!(puzzle.tile(0, 3), Tile::new(4));
    assert_eq!(puzzle.tile(1, 0), Tile::new(5));
    assert_eq!(puzzle.tile(3, 2), Tile::new(15));
    assert_eq!(puzzle.tile(3, 3), Tile::empty());
    assert_eq!(puzzle.moves(), 0);
}

#[test]
fn new_puzzle_is_solved() {
    assert!(Puzzle::default().is_solved());
}

#[test]
fn new_puzzle_is_a_permutation() {
    assert_permutation(&Puzzle::default());
}

#[test]
fn empty_cell_of_a_new_puzzle_is_the_last() {
    assert_eq!(Puzzle::default().find_empty(), Some((3, 3)));
}

#[test]
fn find_empty_follows_the_moves() {
    let mut puzzle = Puzzle::default();
    assert!(puzzle.move_tile(2, 3));
    assert_eq!(puzzle.find_empty(), Some((2, 3)));
    assert!(puzzle.move_tile(2, 2));
    assert_eq!(puzzle.find_empty(), Some((2, 2)));
    assert_eq!(empty_in_the_middle().find_empty(), Some((1, 1)));
}

#[test]
fn neighbours_of_the_corner() {
    let puzzle = Puzzle::default();
    assert!(puzzle.is_adjacent_to_empty(3, 2));
    assert!(puzzle.is_adjacent_to_empty(2, 3));
}

#[test]
fn diagonal_is_not_adjacent() {
    let puzzle = Puzzle::default();
    assert!(!puzzle.is_adjacent_to_empty(2, 2));
    let middle = empty_in_the_middle();
    assert!(!middle.is_adjacent_to_empty(0, 0));
    assert!(!middle.is_adjacent_to_empty(0, 2));
    assert!(!middle.is_adjacent_to_empty(2, 0));
    assert!(!middle.is_adjacent_to_empty(2, 2));
}

#[test]
fn empty_cell_is_not_adjacent_to_itself() {
    let puzzle = Puzzle::default();
    assert!(!puzzle.is_adjacent_to_empty(3, 3));
    assert!(!empty_in_the_middle().is_adjacent_to_empty(1, 1));
}

#[test]
fn distant_cells_are_not_adjacent() {
    let puzzle = Puzzle::default();
    assert!(!puzzle.is_adjacent_to_empty(0, 0));
    assert!(!puzzle.is_adjacent_to_empty(3, 1));
    assert!(!puzzle.is_adjacent_to_empty(1, 3));
    assert!(!puzzle.is_adjacent_to_empty(3, 0));
}

#[test]
fn adjacency_does_not_wrap_round() {
    let mut puzzle = Puzzle::default();
    assert!(puzzle.move_tile(3, 2));
    assert!(puzzle.move_tile(3, 1));
    assert!(puzzle.move_tile(3, 0));
    assert_eq!(puzzle.find_empty(), Some((3, 0)));
    assert!(!puzzle.is_adjacent_to_empty(3, 3));
    assert!(!puzzle.is_adjacent_to_empty(2, 3));
    assert!(!puzzle.is_adjacent_to_empty(0, 0));
    assert!(puzzle.is_adjacent_to_empty(2, 0));
    assert!(puzzle.is_adjacent_to_empty(3, 1));
}

#[test]
fn four_neighbours_in_the_middle() {
    let puzzle = empty_in_the_middle();
    let mut adjacent = Vec::new();
    for row in 0..GRID_SIZE {
        for col in 0..GRID_SIZE {
            if puzzle.is_adjacent_to_empty(row, col) {
                adjacent.push((row, col));
            }
        }
    }
    assert_eq!(adjacent, vec![(0, 1), (1, 0), (1, 2), (2, 1)]);
}

#[test]
fn legal_move_on_a_solved_board() {
    let mut puzzle = Puzzle::default();
    assert!(puzzle.move_tile(3, 2));
    assert_eq!(puzzle.find_empty(), Some((3, 2)));
    assert_eq!(puzzle.tile(3, 2), Tile::empty());
    assert_eq!(puzzle.tile(3, 3), Tile::new(15));
    assert_eq!(puzzle.moves(), 1);
    assert!(!puzzle.is_solved());
}

#[test]
fn illegal_move_on_a_solved_board() {
    let mut puzzle = Puzzle::default();
    assert!(!puzzle.move_tile(0, 0));
    assert_eq!(layout(&puzzle), solved_layout());
    assert_eq!(puzzle.moves(), 0);
    assert!(puzzle.is_solved());
}

#[test]
fn move_only_exchanges_two_cells() {
    let mut puzzle = Puzzle::default();
    assert!(puzzle.move_tile(2, 3));
    let mut expected = solved_layout();
    expected[15] = Some(12);
    expected[11] = None;
    assert_eq!(layout(&puzzle), expected);
}

#[test]
fn moving_the_empty_cell_fails() {
    let mut puzzle = Puzzle::default();
    assert!(!puzzle.move_tile(3, 3));
    assert_eq!(puzzle.moves(), 0);
    let mut middle = empty_in_the_middle();
    let before = layout(&middle);
    assert!(!middle.move_tile(1, 1));
    assert_eq!(layout(&middle), before);
    assert_eq!(middle.moves(), 4);
}

#[test]
fn move_succeeds_exactly_beside_the_empty_cell() {
    for start in [Puzzle::default(), empty_in_the_middle()] {
        let (empty_row, empty_col) = start.find_empty().unwrap();
        for row in 0..GRID_SIZE {
            for col in 0..GRID_SIZE {
                let beside = (row == empty_row && col.abs_diff(empty_col) == 1)
                    || (col == empty_col && row.abs_diff(empty_row) == 1);
                let mut puzzle = start.clone();
                assert_eq!(puzzle.is_adjacent_to_empty(row, col), beside);
                assert_eq!(puzzle.move_tile(row, col), beside);
                if beside {
                    assert_eq!(puzzle.find_empty(), Some((row, col)));
                    assert_eq!(puzzle.tile(empty_row, empty_col), start.tile(row, col));
                    assert_eq!(puzzle.moves(), start.moves() + 1);
                } else {
                    assert_eq!(layout(&puzzle), layout(&start));
                    assert_eq!(puzzle.moves(), start.moves());
                }
                assert_permutation(&puzzle);
            }
        }
    }
}

#[test]
fn counter_counts_successful_moves_only() {
    let mut puzzle = Puzzle::default();
    assert!(puzzle.move_tile(3, 2));
    assert_eq!(puzzle.moves(), 1);
    assert!(!puzzle.move_tile(0, 0));
    assert_eq!(puzzle.moves(), 1);
    assert!(!puzzle.move_tile(3, 2));
    assert_eq!(puzzle.moves(), 1);
    assert!(puzzle.move_tile(2, 2));
    assert_eq!(puzzle.moves(), 2);
    assert!(puzzle.move_tile(2, 1));
    assert_eq!(puzzle.moves(), 3);
}

#[test]
fn moving_back_restores_the_board() {
    let mut puzzle = empty_in_the_middle();
    let before = layout(&puzzle);
    let moves = puzzle.moves();
    assert!(puzzle.move_tile(0, 1));
    assert_ne!(layout(&puzzle), before);
    assert!(puzzle.move_tile(1, 1));
    assert_eq!(layout(&puzzle), before);
    assert_eq!(puzzle.moves(), moves + 2);
}

#[test]
fn solved_again_after_moving_back() {
    let mut puzzle = Puzzle::default();
    assert!(puzzle.move_tile(2, 3));
    assert!(!puzzle.is_solved());
    assert!(puzzle.move_tile(3, 3));
    assert!(puzzle.is_solved());
    assert_eq!(puzzle.moves(), 2);
}

#[test]
fn not_solved_with_only_the_empty_cell_in_place() {
    let mut puzzle = Puzzle::default();
    for (row, col) in [(3, 2), (2, 2), (2, 3), (3, 3)] {
        assert!(puzzle.move_tile(row, col));
    }
    assert_eq!(puzzle.find_empty(), Some((3, 3)));
    assert!(!puzzle.is_solved());
    assert_permutation(&puzzle);
}

#[test]
fn moves_keep_the_board_a_permutation() {
    let mut puzzle = Puzzle::default();
    let presses = [(3, 2), (2, 2), (2, 1), (0, 0), (1, 1), (1, 0), (3, 3), (0, 0), (0, 1), (0, 2), (1, 2)];
    let moved = [true, true, true, false, true, true, false, true, true, true, true];
    for ((row, col), expected) in presses.into_iter().zip(moved) {
        assert_eq!(puzzle.move_tile(row, col), expected);
        assert_permutation(&puzzle);
    }
    assert_eq!(puzzle.moves(), 9);
    assert_eq!(puzzle.find_empty(), Some((1, 2)));
}

#[test]
fn clone_is_an_independent_copy() {
    let mut puzzle = empty_in_the_middle();
    let copy = puzzle.clone();
    assert_eq!(layout(&copy), layout(&puzzle));
    assert_eq!(copy.moves(), puzzle.moves());
    assert!(puzzle.move_tile(1, 0));
    assert_ne!(layout(&copy), layout(&puzzle));
    assert_eq!(copy.moves(), 4);
}
