use tsudoku::container::{Container, ContainerKind, UNKNOWN};
use tsudoku::generate::same_unit_positions;
use tsudoku::grid::Grid;
use tsudoku::menu::{clue_count, DifficultyMenuOption};

fn solved_matrix() -> [[u8; 9]; 9] {
    [
        [1, 2, 3, 4, 5, 6, 7, 8, 9],
        [4, 5, 6, 7, 8, 9, 1, 2, 3],
        [7, 8, 9, 1, 2, 3, 4, 5, 6],
        [2, 3, 1, 5, 6, 4, 8, 9, 7],
        [5, 6, 4, 8, 9, 7, 2, 3, 1],
        [8, 9, 7, 2, 3, 1, 5, 6, 4],
        [3, 1, 2, 6, 4, 5, 9, 7, 8],
        [6, 4, 5, 9, 7, 8, 3, 1, 2],
        [9, 7, 8, 3, 1, 2, 6, 4, 5],
    ]
}

fn known_count(grid: &Grid) -> usize {
    let mut count = 0;
    for p in 0..81 {
        if grid.is_known(p) {
            count += 1;
        }
    }
    count
}

#[test]
fn container_evaluate_full_set() {
    let c = Container::new(ContainerKind::Row, [1, 2, 3, 4, 5, 6, 7, 8, 9]);
    assert!(c.evaluate());
}

#[test]
fn container_evaluate_duplicate() {
    let c = Container::new(ContainerKind::Row, [1, 2, 3, 4, 5, 6, 7, 8, 8]);
    assert!(!c.evaluate());
}

#[test]
fn container_evaluate_with_unknown() {
    let c = Container::new(ContainerKind::Column, [1, 2, 3, 4, UNKNOWN, 6, 7, 8, 9]);
    assert!(!c.evaluate());
}

#[test]
fn container_accessors() {
    let mut c = Container::new(ContainerKind::Box, [UNKNOWN; 9]);
    assert_eq!(c.at(4), UNKNOWN);
    assert!(!c.value_exists(5));
    c.set_value(4, 5);
    assert_eq!(c.at(4), 5);
    assert!(c.value_exists(5));
    assert!(!c.value_exists(6));
}

#[test]
fn position_maps() {
    assert_eq!(Grid::map_row(0), 0);
    assert_eq!(Grid::map_column(0), 0);
    assert_eq!(Grid::map_containers(40), (4, 4, 4));
    assert_eq!(Grid::map_containers(80), (8, 8, 8));
    assert_eq!(Grid::map_containers(5), (0, 5, 1));
    assert_eq!(Grid::map_box(2, 2), 0);
    assert_eq!(Grid::map_box(3, 0), 3);
    assert_eq!(Grid::map_box(8, 8), 8);
    // slots inside the row, column and box containers
    assert_eq!(Grid::get_container_indeces(0), (0, 0, 0));
    assert_eq!(Grid::get_row_index(40), 4);
    assert_eq!(Grid::get_column_index(40), 4);
    assert_eq!(Grid::get_box_index(40), 4);
    assert_eq!(Grid::get_box_index(30), 3 * (3 % 3) + 3 % 3);
}

#[test]
fn set_value_synchronizes_views() {
    // Scenario: value 5 at position 0 appears through the row, column and
    // box views alike, and box 1 stays untouched.
    let mut grid = Grid::init();
    grid.set_value(0, 5);
    assert!(grid.get_row(0).value_exists(5));
    assert!(grid.get_column(0).value_exists(5));
    assert!(grid.get_box(0).value_exists(5));
    assert!(!grid.get_box(1).value_exists(5));
    assert_eq!(grid.at(0), 5);
}

#[test]
fn set_value_sequence_keeps_views_in_sync() {
    let mut grid = Grid::init();
    let writes = [(0u8, 5u8), (40, 7), (80, 1), (40, 2), (13, 9)];
    for &(pos, value) in writes.iter() {
        grid.set_value(pos, value);
    }
    for p in 0u8..81 {
        let (row_no, col_no, box_no) = Grid::map_containers(p);
        let (row_slot, col_slot, box_slot) = Grid::get_container_indeces(p);
        let v = grid.at(p);
        assert_eq!(grid.get_row(row_no).at(row_slot), v);
        assert_eq!(grid.get_column(col_no).at(col_slot), v);
        assert_eq!(grid.get_box(box_no).at(box_slot), v);
    }
}

#[test]
fn from_matrix_restores_values_and_known_flags() {
    let grid = Grid::from_matrix(solved_matrix());
    for p in 0u8..81 {
        let expected = solved_matrix()[(p / 9) as usize][(p % 9) as usize];
        assert_eq!(grid.at(p), expected);
        assert!(grid.is_known(p as usize));
    }
}

#[test]
fn from_matrix_solved_evaluates_true() {
    // Scenario: a hand-solved matrix passes the win check immediately.
    let grid = Grid::from_matrix(solved_matrix());
    assert!(grid.evaluate());
}

#[test]
fn from_matrix_partial_evaluates_false() {
    let mut mat = solved_matrix();
    mat[4][4] = UNKNOWN;
    let grid = Grid::from_matrix(mat);
    assert!(!grid.evaluate());
    assert!(!grid.is_known(40));
}

#[test]
fn evaluate_is_idempotent() {
    let solved = Grid::from_matrix(solved_matrix());
    assert_eq!(solved.evaluate(), solved.evaluate());
    let empty = Grid::init();
    assert_eq!(empty.evaluate(), empty.evaluate());
}

#[test]
fn generated_solved_puzzle_is_legal() {
    // The generator's output, split into rows, columns and boxes, has
    // every container complete.
    let solved = Grid::generate_solved_puzzle();
    assert_eq!(solved.len(), 81);
    let mut mat = [[0u8; 9]; 9];
    for p in 0..81 {
        mat[p / 9][p % 9] = solved[p];
    }
    let grid = Grid::from_matrix(mat);
    for k in 0..9 {
        assert!(grid.get_row(k).evaluate());
        assert!(grid.get_column(k).evaluate());
        assert!(grid.get_box(k).evaluate());
    }
    assert!(grid.evaluate());
}

#[test]
fn clue_count_matches_difficulty() {
    assert_eq!(clue_count(DifficultyMenuOption::Easy), 60);
    assert_eq!(clue_count(DifficultyMenuOption::Medium), 45);
    assert_eq!(clue_count(DifficultyMenuOption::Hard), 30);
    assert_eq!(clue_count(DifficultyMenuOption::Expert), 17);
}

#[test]
fn new_easy_reveals_sixty_clues() {
    let grid = Grid::new(DifficultyMenuOption::Easy);
    assert_eq!(known_count(&grid), 60);
}

#[test]
fn new_medium_reveals_forty_five_clues() {
    let grid = Grid::new(DifficultyMenuOption::Medium);
    assert_eq!(known_count(&grid), 45);
}

#[test]
fn new_hard_reveals_thirty_clues() {
    let grid = Grid::new(DifficultyMenuOption::Hard);
    assert_eq!(known_count(&grid), 30);
}

#[test]
fn new_expert_reveals_seventeen_clues() {
    // Scenario: exactly 17 positions are known, the other 64 unknown.
    let grid = Grid::new(DifficultyMenuOption::Expert);
    assert_eq!(known_count(&grid), 17);
    let mut unknown = 0;
    for p in 0u8..81 {
        if !grid.is_known(p as usize) {
            assert_eq!(grid.at(p), UNKNOWN);
            unknown += 1;
        } else {
            let v = grid.at(p);
            assert!((1..=9).contains(&v));
        }
    }
    assert_eq!(unknown, 64);
}

#[test]
fn revealed_clues_never_conflict() {
    // The generator never marks two positions of one row, column or box
    // known with the same digit: all clues come from one solved board.
    let grid = Grid::new(DifficultyMenuOption::Easy);
    for p in 0u8..81 {
        if !grid.is_known(p as usize) {
            continue;
        }
        for q in 0u8..81 {
            if p == q || !grid.is_known(q as usize) {
                continue;
            }
            if same_unit_positions(p, q) {
                assert_ne!(grid.at(p), grid.at(q));
            }
        }
    }
}

#[test]
fn grid_round_trip_preserves_values_and_flags() {
    // Round trip: a freshly generated puzzle, written out as a matrix and
    // rebuilt, is the same board with the same clue marks.
    let grid = Grid::new(DifficultyMenuOption::Hard);
    let mut mat = [[0u8; 9]; 9];
    for p in 0u8..81 {
        mat[(p / 9) as usize][(p % 9) as usize] = grid.at(p);
    }
    let rebuilt = Grid::from_matrix(mat);
    for p in 0u8..81 {
        assert_eq!(rebuilt.at(p), grid.at(p));
        assert_eq!(rebuilt.is_known(p as usize), grid.is_known(p as usize));
    }
}
