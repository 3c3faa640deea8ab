use tsudoku::container::UNKNOWN;
use tsudoku::display::{color_code, color_of_code, Cell, ColorPair, Input};
use tsudoku::menu::DifficultyMenuOption;
use tsudoku::puzzle::SavedPuzzle;
use tsudoku::saves::{parse_color_file, parse_numeric_file, render_color_file, render_numeric_file};
use tsudoku::sudoku::{
    actual_col_of_offset, actual_row_of_offset, create_maps, display2grid, grid2display,
    is_box_border_cell, map_display_matrix_offset, Sudoku,
};

/// A saved game whose 81 block centers hold the unknown marker and are
/// colored as unknowns: every board cell is open to the player.
fn open_saved_puzzle() -> SavedPuzzle {
    let mut numbers = [[32u8; 27]; 27];
    let mut colors = [[ColorPair::Default; 27]; 27];
    for i in 0..9 {
        for j in 0..9 {
            numbers[1 + 3 * i][1 + 3 * j] = UNKNOWN;
            colors[1 + 3 * i][1 + 3 * j] = ColorPair::Unknown;
        }
    }
    let mut puzzle = SavedPuzzle::new();
    puzzle.set_puzzle(numbers);
    puzzle.set_color_codes(colors);
    puzzle.set_filename("open-board");
    puzzle
}

fn solved_display_matrix() -> [[u8; 27]; 27] {
    let solved: [[u8; 9]; 9] = [
        [1, 2, 3, 4, 5, 6, 7, 8, 9],
        [4, 5, 6, 7, 8, 9, 1, 2, 3],
        [7, 8, 9, 1, 2, 3, 4, 5, 6],
        [2, 3, 1, 5, 6, 4, 8, 9, 7],
        [5, 6, 4, 8, 9, 7, 2, 3, 1],
        [8, 9, 7, 2, 3, 1, 5, 6, 4],
        [3, 1, 2, 6, 4, 5, 9, 7, 8],
        [6, 4, 5, 9, 7, 8, 3, 1, 2],
        [9, 7, 8, 3, 1, 2, 6, 4, 5],
    ];
    let mut numbers = [[32u8; 27]; 27];
    for i in 0..9 {
        for j in 0..9 {
            numbers[1 + 3 * i][1 + 3 * j] = solved[i][j];
        }
    }
    numbers
}

#[test]
fn cell_accessors() {
    let mut c = Cell::new(3, 6);
    assert_eq!(c.y(), 3);
    assert_eq!(c.x(), 6);
    assert_eq!(c.row_no(), 3);
    assert_eq!(c.col_no(), 6);
    c.set(10, 20);
    assert_eq!(c.y(), 10);
    assert_eq!(c.x(), 20);
}

#[test]
fn color_codes_round_trip() {
    let all = [
        ColorPair::Default,
        ColorPair::Unknown,
        ColorPair::Given,
        ColorPair::CandidatesY,
        ColorPair::CandidatesB,
        ColorPair::Guess,
    ];
    for c in all {
        assert_eq!(color_of_code(color_code(c)), c);
    }
    // the menu highlight is never saved; it decodes as the default color
    assert_eq!(
        color_of_code(color_code(ColorPair::MenuSelection)),
        ColorPair::Default
    );
    assert_eq!(color_code(ColorPair::Given), b'r');
    assert_eq!(color_code(ColorPair::Unknown), b'u');
    assert_eq!(color_code(ColorPair::Guess), b'g');
}

#[test]
fn display_mapping_round_trip() {
    for p in 0u8..81 {
        let cell = grid2display(p);
        assert_eq!(cell.y(), 1 + 3 * (p / 9));
        assert_eq!(cell.x(), 1 + 3 * (p % 9));
        assert_eq!(display2grid(cell), Some(p));
    }
    assert_eq!(display2grid(Cell::new(0, 1)), None);
    assert_eq!(display2grid(Cell::new(1, 2)), None);
    assert_eq!(display2grid(Cell::new(27, 1)), None);
}

#[test]
fn create_maps_covers_all_positions() {
    let (grid2display_map, display2grid_map) = create_maps();
    assert_eq!(grid2display_map.len(), 81);
    assert_eq!(display2grid_map.len(), 81);
    assert_eq!(grid2display_map[0], (0, Cell::new(1, 1)));
    assert_eq!(grid2display_map[80], (80, Cell::new(25, 25)));
    assert_eq!(display2grid_map[10], (Cell::new(4, 4), 10));
}

#[test]
fn offset_mapping_round_trip() {
    let (offset2actual, actual2offset) = map_display_matrix_offset();
    assert_eq!(offset2actual.len(), 729);
    assert_eq!(actual2offset.len(), 729);
    assert_eq!(actual2offset[0], (Cell::new(0, 0), Cell::new(3, 6)));
    for k in [0usize, 100, 364, 728] {
        let (actual, offset) = actual2offset[k];
        assert_eq!(offset2actual[k], (offset, actual));
        assert_eq!(actual_row_of_offset(offset.y()), Some(actual.y()));
        assert_eq!(actual_col_of_offset(offset.x()), Some(actual.x()));
    }
    // the border lines between boxes map to no display cell
    assert_eq!(actual_row_of_offset(12), None);
    assert_eq!(actual_row_of_offset(22), None);
    assert_eq!(actual_col_of_offset(15), None);
    assert_eq!(actual_col_of_offset(25), None);
    assert!(is_box_border_cell(Cell::new(12, 7)));
    assert!(is_box_border_cell(Cell::new(5, 25)));
    assert!(!is_box_border_cell(Cell::new(3, 6)));
}

#[test]
fn new_game_display_follows_board() {
    let game = Sudoku::new(None, DifficultyMenuOption::Easy);
    assert_eq!(game.cursor_pos(), Cell::new(3, 6));
    let display = game.display_matrix();
    let colors = game.color_codes();
    let mut givens = 0;
    for i in 0..27 {
        for j in 0..27 {
            if i % 3 == 1 && j % 3 == 1 {
                match colors[i][j] {
                    ColorPair::Given => {
                        assert!((1..=9).contains(&display[i][j]));
                        givens += 1;
                    }
                    ColorPair::Unknown => assert_eq!(display[i][j], UNKNOWN),
                    other => panic!("unexpected center color {:?}", other),
                }
            } else {
                assert_eq!(display[i][j], 32);
                assert_eq!(colors[i][j], ColorPair::Default);
            }
        }
    }
    assert_eq!(givens, 60);
}

#[test]
fn resumed_game_keeps_saved_display() {
    let puzzle = open_saved_puzzle();
    let game = Sudoku::new(Some(puzzle), DifficultyMenuOption::Easy);
    assert_eq!(game.filename(), "open-board");
    let display = game.display_matrix();
    let colors = game.color_codes();
    for i in 0..27 {
        for j in 0..27 {
            if i % 3 == 1 && j % 3 == 1 {
                assert_eq!(display[i][j], UNKNOWN);
                assert_eq!(colors[i][j], ColorPair::Unknown);
            } else {
                assert_eq!(display[i][j], 32);
                assert_eq!(colors[i][j], ColorPair::Default);
            }
        }
    }
    assert!(!game.evaluate());
}

#[test]
fn resumed_solved_game_evaluates_true() {
    let mut puzzle = SavedPuzzle::new();
    puzzle.set_puzzle(solved_display_matrix());
    let mut colors = [[ColorPair::Default; 27]; 27];
    for i in 0..9 {
        for j in 0..9 {
            colors[1 + 3 * i][1 + 3 * j] = ColorPair::Given;
        }
    }
    puzzle.set_color_codes(colors);
    puzzle.set_filename("done");
    let game = Sudoku::new(Some(puzzle), DifficultyMenuOption::Easy);
    assert!(game.evaluate());
}

#[test]
fn move_cursor_steps_and_skips_borders() {
    let game_start = Sudoku::new(Some(open_saved_puzzle()), DifficultyMenuOption::Easy);
    let mut game = game_start;
    // at the top left corner, moving up or left stays in place
    game.move_cursor(Some(Input::KeyUp));
    assert_eq!(game.cursor_pos(), Cell::new(3, 6));
    game.move_cursor(Some(Input::Character('a')));
    assert_eq!(game.cursor_pos(), Cell::new(3, 6));
    // moving right walks one column at a time and hops the border line
    for _ in 0..9 {
        game.move_cursor(Some(Input::KeyRight));
    }
    assert_eq!(game.cursor_pos(), Cell::new(3, 16));
    // moving down hops the horizontal border line the same way
    for _ in 0..9 {
        game.move_cursor(Some(Input::Character('s')));
    }
    assert_eq!(game.cursor_pos(), Cell::new(13, 16));
    // a non-movement input leaves the cursor alone
    game.move_cursor(None);
    assert_eq!(game.cursor_pos(), Cell::new(13, 16));
}

#[test]
fn set_value_places_guess_at_open_cell() {
    let mut game = Sudoku::new(Some(open_saved_puzzle()), DifficultyMenuOption::Easy);
    // the origin is a note cell; one step down and right is the first
    // board cell, display cell (1, 1)
    game.move_cursor(Some(Input::KeyDown));
    game.move_cursor(Some(Input::KeyRight));
    assert_eq!(game.cursor_pos(), Cell::new(4, 7));
    game.set_value(Some(Input::Character('5')));
    let display = game.display_matrix();
    let colors = game.color_codes();
    assert_eq!(display[1][1], 5);
    assert_eq!(colors[1][1], ColorPair::Guess);
    // erase it again: the cell returns to the unknown marker
    game.set_value(Some(Input::KeyBackspace));
    let display = game.display_matrix();
    let colors = game.color_codes();
    assert_eq!(display[1][1], UNKNOWN);
    assert_eq!(colors[1][1], ColorPair::Unknown);
}

#[test]
fn set_value_ignored_next_to_given() {
    let puzzle = open_saved_puzzle();
    let mut numbers = puzzle.puzzle();
    let mut colors = puzzle.color_codes();
    numbers[1][1] = 7;
    colors[1][1] = ColorPair::Given;
    let mut with_given = SavedPuzzle::new();
    with_given.set_puzzle(numbers);
    with_given.set_color_codes(colors);
    with_given.set_filename("given");
    let mut game = Sudoku::new(Some(with_given), DifficultyMenuOption::Easy);
    // the given clue is a neighbor of the starting cursor cell: input
    // changes nothing anywhere
    let display_before = game.display_matrix();
    let colors_before = game.color_codes();
    game.set_value(Some(Input::Character('3')));
    assert_eq!(game.display_matrix(), display_before);
    assert_eq!(game.color_codes(), colors_before);
    // the same holds with the cursor directly on the given clue
    game.move_cursor(Some(Input::KeyDown));
    game.move_cursor(Some(Input::KeyRight));
    assert_eq!(game.cursor_pos(), Cell::new(4, 7));
    game.set_value(Some(Input::Character('3')));
    game.set_value(Some(Input::KeyBackspace));
    assert_eq!(game.display_matrix()[1][1], 7);
    assert_eq!(game.color_codes()[1][1], ColorPair::Given);
    assert_eq!(game.display_matrix(), display_before);
}

#[test]
fn set_value_writes_note_in_candidate_color() {
    let mut game = Sudoku::new(Some(open_saved_puzzle()), DifficultyMenuOption::Easy);
    // one step right of the origin is the note cell right of position 0
    game.move_cursor(Some(Input::KeyRight));
    assert_eq!(game.cursor_pos(), Cell::new(3, 7));
    game.set_value(Some(Input::Character('9')));
    let display = game.display_matrix();
    let colors = game.color_codes();
    assert_eq!(display[0][1], 9);
    // position 0 is even, so its note area uses the yellow candidate color
    assert_eq!(colors[0][1], ColorPair::CandidatesY);
    // the open center cell next to the note is untouched
    assert_eq!(display[1][1], UNKNOWN);
    // erasing the note leaves the cell blank with the default color
    game.set_value(Some(Input::KeyDC));
    assert_eq!(game.display_matrix()[0][1], 32);
    assert_eq!(game.color_codes()[0][1], ColorPair::Default);
}

#[test]
fn placing_value_clears_surrounding_notes() {
    let mut game = Sudoku::new(Some(open_saved_puzzle()), DifficultyMenuOption::Easy);
    game.move_cursor(Some(Input::KeyRight));
    game.set_value(Some(Input::Character('4')));
    assert_eq!(game.display_matrix()[0][1], 4);
    game.move_cursor(Some(Input::KeyDown));
    assert_eq!(game.cursor_pos(), Cell::new(4, 7));
    game.set_value(Some(Input::Character('8')));
    let display = game.display_matrix();
    assert_eq!(display[1][1], 8);
    // the note written next to the cell was wiped by the placement
    assert_eq!(display[0][1], 32);
    assert_eq!(game.color_codes()[0][1], ColorPair::Default);
}

#[test]
fn save_files_round_trip() {
    let numbers = solved_display_matrix();
    let mut colors = [[ColorPair::Default; 27]; 27];
    for i in 0..9 {
        for j in 0..9 {
            colors[1 + 3 * i][1 + 3 * j] =
                if (i + j) % 2 == 0 { ColorPair::Given } else { ColorPair::Guess };
        }
    }
    colors[0][1] = ColorPair::CandidatesY;
    let numeric_bytes = render_numeric_file(&numbers);
    let color_bytes = render_color_file(&colors);
    assert_eq!(numeric_bytes.len(), 2916);
    assert_eq!(color_bytes.len(), 1458);
    // three zero-padded digits then a separator for every cell
    assert_eq!(&numeric_bytes[0..4], &[b'0', b'3', b'2', b','][..]);
    assert_eq!(numeric_bytes[107], b'\n');
    assert_eq!(parse_numeric_file(&numeric_bytes), Some(numbers));
    assert_eq!(parse_color_file(&color_bytes), Some(colors));
}

#[test]
fn corrupt_save_files_are_rejected() {
    let numbers = [[0u8; 27]; 27];
    let mut numeric_bytes = render_numeric_file(&numbers);
    numeric_bytes.truncate(100);
    assert_eq!(parse_numeric_file(&numeric_bytes), None);
    let mut bad_digit = render_numeric_file(&numbers);
    bad_digit[0] = b'x';
    assert_eq!(parse_numeric_file(&bad_digit), None);
    let mut too_large = render_numeric_file(&numbers);
    too_large[0] = b'9';
    too_large[1] = b'9';
    too_large[2] = b'9';
    assert_eq!(parse_numeric_file(&too_large), None);
    let colors = [[ColorPair::Default; 27]; 27];
    let mut bad_sep = render_color_file(&colors);
    bad_sep[1] = b';';
    assert_eq!(parse_color_file(&bad_sep), None);
}

#[test]
fn saved_puzzle_holds_its_data() {
    let mut puzzle = SavedPuzzle::new();
    assert_eq!(puzzle.filename(), "");
    let mut numbers = [[0u8; 27]; 27];
    numbers[13][13] = 9;
    puzzle.set_puzzle(numbers);
    let mut colors = [[ColorPair::Default; 27]; 27];
    colors[13][13] = ColorPair::Guess;
    puzzle.set_color_codes(colors);
    puzzle.set_filename("my-game");
    assert_eq!(puzzle.puzzle()[13][13], 9);
    assert_eq!(puzzle.color_codes()[13][13], ColorPair::Guess);
    assert_eq!(puzzle.filename(), "my-game");
}
