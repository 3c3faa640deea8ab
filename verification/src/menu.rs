//! Menu data: the option sets the front end navigates, the difficulty
//! choice with its clue counts, and the pure option-stepping rules the
//! interactive menu loops follow.

use vstd::prelude::*;
use crate::display::{spec_color_of_code, color_of_code, ColorPair, Input};
use crate::puzzle::SavedPuzzle;

verus! {

/// A wrapper enum to enforce a certain type of menu option be used.
pub enum MenuOption {
    /// Wrapper to enforce using a MainMenuOption variant
    MainMenu(MainMenuOption),
    /// Wrapper to enforce using a SavedGameMenuOption variant
    SavedGameMenu(SavedGameMenuOption),
    /// Wrapper to enforce using a DifficultyMenuOption variant
    DifficultyMenu(DifficultyMenuOption),
    /// Wrapper to enforce using an InGameMenuOption variant
    InGameMenu(InGameMenuOption),
}

/// Options displayed on the main menu.
#[derive(PartialEq, Eq, Structural, Copy, Clone, Debug)]
pub enum MainMenuOption {
    /// Start a new game
    NewGame,
    /// Resume a previously saved game
    ResumeGame,
    /// Show the number of completed games
    ShowStats,
    /// Exit the program
    Exit,
}

impl MainMenuOption {
    /// The variants in display order, each with its display-line offset.
    pub fn enumerate() -> (r: Vec<(u8, MainMenuOption)>)
        ensures
            r@ == seq![
                (0u8, MainMenuOption::NewGame),
                (1u8, MainMenuOption::ResumeGame),
                (2u8, MainMenuOption::ShowStats),
                (3u8, MainMenuOption::Exit),
            ],
    {
        let mut r: Vec<(u8, MainMenuOption)> = Vec::new();
        r.push((0, MainMenuOption::NewGame));
        r.push((1, MainMenuOption::ResumeGame));
        r.push((2, MainMenuOption::ShowStats));
        r.push((3, MainMenuOption::Exit));
        proof {
            assert(r@ =~= seq![
                (0u8, MainMenuOption::NewGame),
                (1u8, MainMenuOption::ResumeGame),
                (2u8, MainMenuOption::ShowStats),
                (3u8, MainMenuOption::Exit),
            ]);
        }
        r
    }

    /// One step up the main menu list, stopping at the top entry.
    pub fn up(self) -> (r: MainMenuOption)
        ensures
            r == match self {
                MainMenuOption::Exit => MainMenuOption::ShowStats,
                MainMenuOption::ShowStats => MainMenuOption::ResumeGame,
                _ => MainMenuOption::NewGame,
            },
    {
        match self {
            MainMenuOption::Exit => MainMenuOption::ShowStats,
            MainMenuOption::ShowStats => MainMenuOption::ResumeGame,
            _ => MainMenuOption::NewGame,
        }
    }

    /// One step down the main menu list, stopping at the bottom entry.
    pub fn down(self) -> (r: MainMenuOption)
        ensures
            r == match self {
                MainMenuOption::NewGame => MainMenuOption::ResumeGame,
                MainMenuOption::ResumeGame => MainMenuOption::ShowStats,
                _ => MainMenuOption::Exit,
            },
    {
        match self {
            MainMenuOption::NewGame => MainMenuOption::ResumeGame,
            MainMenuOption::ResumeGame => MainMenuOption::ShowStats,
            _ => MainMenuOption::Exit,
        }
    }
}

/// Options displayed on the saved game menu.
pub enum SavedGameMenuOption {
    /// Indicates that a saved game is available and ready to be loaded
    SaveReady,
    /// Indicates that no saved games are available to be resumed
    NoSaves,
    /// Used when a saved game menu option isn't applicable in the current context
    NoSelection,
}

/// Difficulty levels; each determines how many clues the puzzle starts with.
#[derive(PartialEq, Eq, Structural, Copy, Clone, Debug)]
pub enum DifficultyMenuOption {
    /// The puzzle will begin with 60 clues
    Easy,
    /// The puzzle will begin with 45 clues
    Medium,
    /// The puzzle will begin with 30 clues
    Hard,
    /// The puzzle will begin with 17 clues, the minimum number for which a
    /// uniquely solvable puzzle is known to exist
    Expert,
}

/// The number of clue positions revealed for each difficulty level.
pub open spec fn spec_clue_count(diff: DifficultyMenuOption) -> int {
    match diff {
        DifficultyMenuOption::Easy => 60,
        DifficultyMenuOption::Medium => 45,
        DifficultyMenuOption::Hard => 30,
        DifficultyMenuOption::Expert => 17,
    }
}

/// The number of clue positions revealed for a difficulty level.
pub fn clue_count(diff: DifficultyMenuOption) -> (n: usize)
    ensures
        n == spec_clue_count(diff),
        17 <= n <= 60,
{
    match diff {
        DifficultyMenuOption::Easy => 60,
        DifficultyMenuOption::Medium => 45,
        DifficultyMenuOption::Hard => 30,
        DifficultyMenuOption::Expert => 17,
    }
}

impl DifficultyMenuOption {
    /// The variants in display order, each with its display-line offset.
    pub fn enumerate() -> (r: Vec<(u8, DifficultyMenuOption)>)
        ensures
            r@ == seq![
                (0u8, DifficultyMenuOption::Easy),
                (1u8, DifficultyMenuOption::Medium),
                (2u8, DifficultyMenuOption::Hard),
                (3u8, DifficultyMenuOption::Expert),
            ],
    {
        let mut r: Vec<(u8, DifficultyMenuOption)> = Vec::new();
        r.push((0, DifficultyMenuOption::Easy));
        r.push((1, DifficultyMenuOption::Medium));
        r.push((2, DifficultyMenuOption::Hard));
        r.push((3, DifficultyMenuOption::Expert));
        proof {
            assert(r@ =~= seq![
                (0u8, DifficultyMenuOption::Easy),
                (1u8, DifficultyMenuOption::Medium),
                (2u8, DifficultyMenuOption::Hard),
                (3u8, DifficultyMenuOption::Expert),
            ]);
        }
        r
    }

    /// One step up the difficulty list, stopping at the easiest entry.
    pub fn up(self) -> (r: DifficultyMenuOption)
        ensures
            r == match self {
                DifficultyMenuOption::Expert => DifficultyMenuOption::Hard,
                DifficultyMenuOption::Hard => DifficultyMenuOption::Medium,
                _ => DifficultyMenuOption::Easy,
            },
    {
        match self {
            DifficultyMenuOption::Expert => DifficultyMenuOption::Hard,
            DifficultyMenuOption::Hard => DifficultyMenuOption::Medium,
            _ => DifficultyMenuOption::Easy,
        }
    }

    /// One step down the difficulty list, stopping at the hardest entry.
    pub fn down(self) -> (r: DifficultyMenuOption)
        ensures
            r == match self {
                DifficultyMenuOption::Easy => DifficultyMenuOption::Medium,
                DifficultyMenuOption::Medium => DifficultyMenuOption::Hard,
                _ => DifficultyMenuOption::Expert,
            },
    {
        match self {
            DifficultyMenuOption::Easy => DifficultyMenuOption::Medium,
            DifficultyMenuOption::Medium => DifficultyMenuOption::Hard,
            _ => DifficultyMenuOption::Expert,
        }
    }
}

/// Options displayed on the in-game menu.
#[derive(PartialEq, Eq, Structural, Copy, Clone, Debug)]
pub enum InGameMenuOption {
    /// Display the rules of sudoku
    Rules,
    /// Display the game manual
    Manual,
    /// Save the state of the current sudoku game
    SaveGame,
    /// Don't highlight any option
    NoSelection,
}

impl InGameMenuOption {
    /// The variants in display order, each with its display-line offset.
    pub fn enumerate() -> (r: Vec<(u8, InGameMenuOption)>)
        ensures
            r@ == seq![
                (0u8, InGameMenuOption::Rules),
                (1u8, InGameMenuOption::Manual),
                (2u8, InGameMenuOption::SaveGame),
                (3u8, InGameMenuOption::NoSelection),
            ],
    {
        let mut r: Vec<(u8, InGameMenuOption)> = Vec::new();
        r.push((0, InGameMenuOption::Rules));
        r.push((1, InGameMenuOption::Manual));
        r.push((2, InGameMenuOption::SaveGame));
        r.push((3, InGameMenuOption::NoSelection));
        proof {
            assert(r@ =~= seq![
                (0u8, InGameMenuOption::Rules),
                (1u8, InGameMenuOption::Manual),
                (2u8, InGameMenuOption::SaveGame),
                (3u8, InGameMenuOption::NoSelection),
            ]);
        }
        r
    }

    /// One step up the in-game menu list, stopping at the top entry.
    pub fn up(self) -> (r: InGameMenuOption)
        ensures
            r == match self {
                InGameMenuOption::SaveGame => InGameMenuOption::Manual,
                _ => InGameMenuOption::Rules,
            },
    {
        match self {
            InGameMenuOption::SaveGame => InGameMenuOption::Manual,
            _ => InGameMenuOption::Rules,
        }
    }

    /// One step down the in-game menu list, stopping at the bottom entry.
    pub fn down(self) -> (r: InGameMenuOption)
        ensures
            r == match self {
                InGameMenuOption::Rules => InGameMenuOption::Manual,
                _ => InGameMenuOption::SaveGame,
            },
    {
        match self {
            InGameMenuOption::Rules => InGameMenuOption::Manual,
            _ => InGameMenuOption::SaveGame,
        }
    }
}

/// Records the difficulty level the player chooses before a new game.
pub struct DifficultyMenu {
    difficulty_level: DifficultyMenuOption,
}

impl DifficultyMenu {
    /// A difficulty menu starting on the easiest level.
    pub fn new() -> (m: DifficultyMenu)
        ensures
            m.difficulty() == DifficultyMenuOption::Easy,
    {
        DifficultyMenu { difficulty_level: DifficultyMenuOption::Easy }
    }

    /// The recorded difficulty level.
    pub closed spec fn difficulty(self) -> DifficultyMenuOption {
        self.difficulty_level
    }

    /// Records the difficulty level the player has chosen.
    pub fn set_difficulty_level(&mut self, diff: DifficultyMenuOption)
        ensures
            final(self).difficulty() == diff,
    {
        self.difficulty_level = diff;
    }

    /// The difficulty level the player has chosen.
    pub fn get_difficulty_level(&self) -> (r: DifficultyMenuOption)
        ensures
            r == self.difficulty(),
    {
        self.difficulty_level
    }
}

/// Lets the player pick one of the saved games and turns its two parsed
/// save files into a puzzle ready to resume.  Reading the save directory
/// and the files themselves is the front end's job; this menu holds the
/// list, the current selection and the loaded puzzle.
pub struct SavedGameMenu {
    saved_games: Vec<String>,
    saved_game: SavedPuzzle,
    selection: usize,
}

impl SavedGameMenu {
    /// The saved game names offered for selection.
    pub closed spec fn games(self) -> Seq<String> {
        self.saved_games@
    }

    /// The index of the currently highlighted name.
    pub closed spec fn selected(self) -> int {
        self.selection as int
    }

    /// The loaded puzzle.
    pub closed spec fn loaded(self) -> SavedPuzzle {
        self.saved_game
    }

    /// The selection always stays on the list (or at zero for an empty
    /// list).
    pub open spec fn selection_ok(self) -> bool {
        if self.games().len() == 0 {
            self.selected() == 0
        } else {
            0 <= self.selected() < self.games().len()
        }
    }

    /// A menu over the given list of saved game names, preset to the
    /// first entry, with a blank puzzle loaded.
    pub fn new(saved_games: Vec<String>) -> (m: SavedGameMenu)
        ensures
            m.games() == saved_games@,
            m.selected() == 0,
            m.selection_ok(),
            forall|i: int, j: int|
                0 <= i < 27 && 0 <= j < 27 ==> #[trigger] m.loaded().spec_puzzle()@[i]@[j] == 0,
            forall|i: int, j: int|
                0 <= i < 27 && 0 <= j < 27 ==> #[trigger] m.loaded().spec_color_codes()@[i]@[j]
                    == ColorPair::Default,
            m.loaded().spec_filename().len() == 0,
    {
        SavedGameMenu { saved_games, saved_game: SavedPuzzle::new(), selection: 0 }
    }

    /// Whether any saved game is available to resume.
    pub fn selection_ready(&self) -> (r: bool)
        ensures
            r == (self.games().len() > 0),
    {
        self.saved_games.len() > 0
    }

    /// Moves the highlight one entry up or down the list for a
    /// navigation input, stopping at the ends; other inputs leave it in
    /// place.
    pub fn select_step(&mut self, input: Option<Input>)
        requires
            old(self).selection_ok(),
        ensures
            final(self).games() == old(self).games(),
            final(self).loaded() == old(self).loaded(),
            final(self).selection_ok(),
            final(self).selected() == (match input {
                Some(Input::KeyUp) | Some(Input::Character('w')) => if old(self).selected() > 0 {
                    old(self).selected() - 1
                } else {
                    old(self).selected()
                },
                Some(Input::KeyDown) | Some(Input::Character('s')) => if old(self).selected() + 1
                    < old(self).games().len() {
                    old(self).selected() + 1
                } else {
                    old(self).selected()
                },
                _ => old(self).selected(),
            }),
    {
        match input {
            Some(Input::KeyUp) | Some(Input::Character('w')) => {
                if self.selection > 0 {
                    self.selection = self.selection - 1;
                }
            },
            Some(Input::KeyDown) | Some(Input::Character('s')) => {
                if self.saved_games.len() > 0 && self.selection < self.saved_games.len() - 1 {
                    self.selection = self.selection + 1;
                }
            },
            _ => {},
        }
    }

    /// The name of the currently highlighted saved game.
    pub fn selection(&self) -> (r: String)
        requires
            self.selection_ok(),
            self.games().len() > 0,
        ensures
            r@ == self.games()[self.selected()]@,
    {
        self.saved_games[self.selection].as_str().to_string()
    }

    /// The list of saved game names, for display.
    pub fn game_list(&self) -> (r: &Vec<String>)
        ensures
            r@ == self.games(),
    {
        &self.saved_games
    }

    /// Takes the two matrices read from the selected game's save files
    /// and keeps them, with the selected name, as the puzzle to resume.
    pub fn read_saved_game(&mut self, numbers: [[u8; 27]; 27], colors: [[ColorPair; 27]; 27])
        requires
            old(self).selection_ok(),
            old(self).games().len() > 0,
        ensures
            final(self).games() == old(self).games(),
            final(self).selected() == old(self).selected(),
            final(self).selection_ok(),
            final(self).loaded().spec_puzzle() == numbers,
            final(self).loaded().spec_color_codes() == colors,
            final(self).loaded().spec_filename() == old(self).games()[old(self).selected()]@,
    {
        let name = self.selection();
        let mut puzzle = SavedPuzzle::new();
        puzzle.set_puzzle(numbers);
        puzzle.set_color_codes(colors);
        puzzle.set_filename(name.as_str());
        self.saved_game = puzzle;
    }

    /// The puzzle selected to be resumed, as loaded from its save files.
    pub fn get_saved_game(&self) -> (r: SavedPuzzle)
        ensures
            r.spec_puzzle() == self.loaded().spec_puzzle(),
            r.spec_color_codes() == self.loaded().spec_color_codes(),
            r.spec_filename() == self.loaded().spec_filename(),
    {
        let mut r = SavedPuzzle::new();
        r.set_puzzle(self.saved_game.puzzle());
        r.set_color_codes(self.saved_game.color_codes());
        r.set_filename(self.saved_game.filename());
        r
    }
}

/// The data behind the in-game menu: a copy of the current display
/// matrix and colors to save from, the current save name, and whether
/// the window was resized while the menu was open.
pub struct InGameMenu {
    display_matrix: [[u8; 27]; 27],
    color_codes: [[ColorPair; 27]; 27],
    window_resized: bool,
    save_file_name: String,
}

impl InGameMenu {
    /// The tracked display-matrix values.
    pub closed spec fn spec_display(self) -> [[u8; 27]; 27] {
        self.display_matrix
    }

    /// The tracked color states.
    pub closed spec fn spec_colors(self) -> [[ColorPair; 27]; 27] {
        self.color_codes
    }

    /// The name the game is currently saved under.
    pub closed spec fn spec_filename(self) -> Seq<char> {
        self.save_file_name@
    }

    /// Whether the window was resized while the menu was open.
    pub closed spec fn spec_window_resized(self) -> bool {
        self.window_resized
    }

    /// An in-game menu tracking the given game state.
    pub fn new(
        display_matrix: &[[u8; 27]; 27],
        color_codes: &[[ColorPair; 27]; 27],
        save_file_name: &str,
    ) -> (m: InGameMenu)
        ensures
            m.spec_display() == *display_matrix,
            m.spec_colors() == *color_codes,
            m.spec_filename() == save_file_name@,
            !m.spec_window_resized(),
    {
        InGameMenu {
            display_matrix: *display_matrix,
            color_codes: *color_codes,
            window_resized: false,
            save_file_name: save_file_name.to_string(),
        }
    }

    /// Records whether the window was resized during gameplay.
    pub fn set_window_resized(&mut self, window_resized: bool)
        ensures
            final(self).spec_window_resized() == window_resized,
            final(self).spec_display() == old(self).spec_display(),
            final(self).spec_colors() == old(self).spec_colors(),
            final(self).spec_filename() == old(self).spec_filename(),
    {
        self.window_resized = window_resized;
    }

    /// Whether the window was resized while in the in-game menu.
    pub fn get_window_resized(&self) -> (r: bool)
        ensures
            r == self.spec_window_resized(),
    {
        self.window_resized
    }

    /// The two save files for the tracked game state: the numeric half
    /// and the color half, as rendered by the save-file encoding.
    pub fn save_game_files(&self) -> (r: (Vec<u8>, Vec<u8>))
        ensures
            r.0@ == crate::saves::spec_numeric_file(self.spec_display()),
            r.1@ == crate::saves::spec_color_file(self.spec_colors()),
    {
        let numbers = crate::saves::render_numeric_file(&self.display_matrix);
        let colors = crate::saves::render_color_file(&self.color_codes);
        (numbers, colors)
    }

    /// Records the name the game was saved under.
    pub fn record_save_name(&mut self, name: &str)
        ensures
            final(self).spec_filename() == name@,
            final(self).spec_display() == old(self).spec_display(),
            final(self).spec_colors() == old(self).spec_colors(),
            final(self).spec_window_resized() == old(self).spec_window_resized(),
    {
        self.save_file_name = name.to_string();
    }

    /// The name the game is currently saved under.
    pub fn save_file_name(&self) -> (r: String)
        ensures
            r@ == self.spec_filename(),
    {
        self.save_file_name.as_str().to_string()
    }
}

} // verus!
