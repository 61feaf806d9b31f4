//! A library for generating crossword puzzles and playing them.
//!
//! A [`Solution`] is a grid of letters together with the words placed in it; a [`Puzzle`]
//! holds a solution together with the player's answers and the board shown to the player.
//! Three playmodes ([`ClassicPuzzle`], [`PlacedWordPuzzle`], [`PerWordPuzzle`]) answer a
//! player's guesses in different ways, and [`PuzzleContainer`] labels a puzzle with the way
//! it is played.

pub mod types;
pub mod solution;
pub mod rng;
pub mod generate;
pub mod puzzle;
pub mod playmode;
pub mod container;
pub mod laws;

pub use types::{
    CrosswordError, CrosswordInitialPlacement, CrosswordInitialPlacementStrategy, CrosswordReqs,
    Direction, GuessResult, PlacedWord, Placement, SolutionConf, SolutionRow, Word,
    MIN_LETTER_COUNT,
};
pub use solution::{Outcome, Solution};
pub use rng::random_direction;
pub use puzzle::{check_answer, rebuild_board, remove_allowed, AnswerCheck, Puzzle, PuzzleRow, PuzzleSpace};
pub use playmode::{
    classic_guess_allowed, per_word_guess_allowed, placed_word_guess_allowed, ClassicPuzzle, PerWordPuzzle,
    PlacedWordPuzzle, Playmode,
};
pub use container::{
    can_guess, can_remove_answer, guess_word, is_puzzle_complete, new_puzzle, new_solution, remove_answer,
    wrong_answers_and_solutions, PuzzleAndResult, PuzzleCompleteContainer, PuzzleContainer,
    PuzzleType, WrongAnswerPair, WrongAnswersContainer,
};
