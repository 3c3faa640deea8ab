use tsudoku::display::{ColorPair, Input};
use tsudoku::menu::{
    DifficultyMenu, DifficultyMenuOption, InGameMenu, InGameMenuOption, MainMenuOption,
    SavedGameMenu,
};
use tsudoku::saves::{render_color_file, render_numeric_file};

#[test]
fn main_menu_enumerate_and_steps() {
    let options = MainMenuOption::enumerate();
    assert_eq!(options.len(), 4);
    assert_eq!(options[0], (0, MainMenuOption::NewGame));
    assert_eq!(options[3], (3, MainMenuOption::Exit));
    assert_eq!(MainMenuOption::NewGame.up(), MainMenuOption::NewGame);
    assert_eq!(MainMenuOption::Exit.up(), MainMenuOption::ShowStats);
    assert_eq!(MainMenuOption::NewGame.down(), MainMenuOption::ResumeGame);
    assert_eq!(MainMenuOption::Exit.down(), MainMenuOption::Exit);
}

#[test]
fn difficulty_menu_records_choice() {
    let options = DifficultyMenuOption::enumerate();
    assert_eq!(options.len(), 4);
    assert_eq!(options[1], (1, DifficultyMenuOption::Medium));
    let mut menu = DifficultyMenu::new();
    assert_eq!(menu.get_difficulty_level(), DifficultyMenuOption::Easy);
    menu.set_difficulty_level(DifficultyMenuOption::Expert);
    assert_eq!(menu.get_difficulty_level(), DifficultyMenuOption::Expert);
    assert_eq!(DifficultyMenuOption::Easy.down(), DifficultyMenuOption::Medium);
    assert_eq!(DifficultyMenuOption::Expert.down(), DifficultyMenuOption::Expert);
    assert_eq!(DifficultyMenuOption::Expert.up(), DifficultyMenuOption::Hard);
    assert_eq!(DifficultyMenuOption::Easy.up(), DifficultyMenuOption::Easy);
}

#[test]
fn in_game_menu_enumerate_and_steps() {
    let options = InGameMenuOption::enumerate();
    assert_eq!(options.len(), 4);
    assert_eq!(options[2], (2, InGameMenuOption::SaveGame));
    assert_eq!(InGameMenuOption::Rules.up(), InGameMenuOption::Rules);
    assert_eq!(InGameMenuOption::SaveGame.up(), InGameMenuOption::Manual);
    assert_eq!(InGameMenuOption::Rules.down(), InGameMenuOption::Manual);
    assert_eq!(InGameMenuOption::Manual.down(), InGameMenuOption::SaveGame);
}

#[test]
fn saved_game_menu_selection_steps() {
    let games = vec![
        String::from("alpha"),
        String::from("beta"),
        String::from("gamma"),
    ];
    let mut menu = SavedGameMenu::new(games);
    assert!(menu.selection_ready());
    assert_eq!(menu.selection(), "alpha");
    menu.select_step(Some(Input::KeyDown));
    assert_eq!(menu.selection(), "beta");
    menu.select_step(Some(Input::Character('s')));
    assert_eq!(menu.selection(), "gamma");
    // the selection stops at the bottom of the list
    menu.select_step(Some(Input::KeyDown));
    assert_eq!(menu.selection(), "gamma");
    menu.select_step(Some(Input::KeyUp));
    assert_eq!(menu.selection(), "beta");
    menu.select_step(Some(Input::Character('w')));
    menu.select_step(Some(Input::Character('w')));
    // ... and at the top
    assert_eq!(menu.selection(), "alpha");
    // unrelated keys leave the highlight alone
    menu.select_step(Some(Input::Character('x')));
    assert_eq!(menu.selection(), "alpha");
}

#[test]
fn saved_game_menu_without_saves() {
    let menu = SavedGameMenu::new(Vec::new());
    assert!(!menu.selection_ready());
    assert_eq!(menu.game_list().len(), 0);
}

#[test]
fn saved_game_menu_loads_selected_game() {
    let games = vec![String::from("first"), String::from("second")];
    let mut menu = SavedGameMenu::new(games);
    menu.select_step(Some(Input::KeyDown));
    let mut numbers = [[32u8; 27]; 27];
    numbers[1][1] = 4;
    let mut colors = [[ColorPair::Default; 27]; 27];
    colors[1][1] = ColorPair::Guess;
    menu.read_saved_game(numbers, colors);
    let puzzle = menu.get_saved_game();
    assert_eq!(puzzle.filename(), "second");
    assert_eq!(puzzle.puzzle()[1][1], 4);
    assert_eq!(puzzle.color_codes()[1][1], ColorPair::Guess);
}

#[test]
fn in_game_menu_tracks_state_and_saves() {
    let mut numbers = [[32u8; 27]; 27];
    numbers[1][1] = 6;
    let mut colors = [[ColorPair::Default; 27]; 27];
    colors[1][1] = ColorPair::Guess;
    let mut menu = InGameMenu::new(&numbers, &colors, "running");
    assert_eq!(menu.save_file_name(), "running");
    assert!(!menu.get_window_resized());
    menu.set_window_resized(true);
    assert!(menu.get_window_resized());
    let (numeric_bytes, color_bytes) = menu.save_game_files();
    assert_eq!(numeric_bytes, render_numeric_file(&numbers));
    assert_eq!(color_bytes, render_color_file(&colors));
    menu.record_save_name("renamed");
    assert_eq!(menu.save_file_name(), "renamed");
}
