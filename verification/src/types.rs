//! The building blocks: words, directions, placements and errors.

use vstd::prelude::*;

verus! {

/// Used to set the minimum size in chars of words that act as solution answers.
/// Callers can provide larger minimums.
pub const MIN_LETTER_COUNT: usize = 3;

/// A record holding a possible answer at `text` along with an optional `clue`.
/// The text is read char by char.
#[derive(Debug)]
pub struct Word {
    /// The literal chars that make up the answer word.
    pub text: String,
    /// The optional clue to be displayed in some crossword game formats.
    pub clue: Option<String>,
}

impl Clone for Word {
    fn clone(&self) -> (res: Self)
        ensures
            res == *self,
    {
        let clue = match &self.clue {
            Some(c) => Some(c.clone()),
            None => None,
        };
        Word { text: self.text.clone(), clue }
    }
}

/// Two words are equal when their texts are: a guess need not carry the solution's clue.
impl PartialEq for Word {
    fn eq(&self, other: &Self) -> (res: bool) {
        self.text == other.text
    }
}

impl vstd::std_specs::cmp::PartialEqSpecImpl for Word {
    open spec fn obeys_eq_spec() -> bool {
        true
    }

    open spec fn eq_spec(&self, other: &Self) -> bool {
        self.text@ == other.text@
    }
}

impl Eq for Word {
}

/// The orientation of a word.
#[derive(Clone, Copy, Debug, PartialEq, Eq, Structural)]
pub enum Direction {
    /// Left to right.
    Horizontal,
    /// Top to bottom.
    Verticle,
}

impl Direction {
    /// The other direction.
    pub fn other(&self) -> (res: Direction)
        ensures
            res == self.flip(),
    {
        match self {
            Direction::Horizontal => Direction::Verticle,
            Direction::Verticle => Direction::Horizontal,
        }
    }

    /// The other direction, as a mathematical function.
    pub open spec fn flip(self) -> Direction {
        match self {
            Direction::Horizontal => Direction::Verticle,
            Direction::Verticle => Direction::Horizontal,
        }
    }
}

} // verus!

verus! {

/// A location on the grid, used to mark where a word begins and how it runs.
#[derive(Clone, Copy, Debug, PartialEq, Eq, Structural)]
pub struct Placement {
    /// The column of the first letter.
    pub x: usize,
    /// The row of the first letter.
    pub y: usize,
    /// The orientation of the word.
    pub direction: Direction,
}

/// A word together with where it stands on the grid.
#[derive(Debug)]
pub struct PlacedWord {
    /// Where the word begins and how it runs.
    pub placement: Placement,
    /// The word itself, with its clue.
    pub word: Word,
}

impl Clone for PlacedWord {
    fn clone(&self) -> (res: Self)
        ensures
            res == *self,
    {
        PlacedWord { placement: self.placement, word: self.word.clone() }
    }
}

/// Two placed words are equal when they stand at the same placement with the same text.
impl PartialEq for PlacedWord {
    fn eq(&self, other: &Self) -> (res: bool) {
        self.placement == other.placement && self.word.text == other.word.text
    }
}

impl vstd::std_specs::cmp::PartialEqSpecImpl for PlacedWord {
    open spec fn obeys_eq_spec() -> bool {
        true
    }

    open spec fn eq_spec(&self, other: &Self) -> bool {
        self.same_as(*other)
    }
}

impl PlacedWord {
    /// Equality of placed words: the placement and the text agree (the clue is ignored).
    pub open spec fn same_as(self, other: PlacedWord) -> bool {
        self.placement == other.placement && self.word.text@ == other.word.text@
    }

    /// The coordinate that stays fixed along the word: the row of a horizontal word,
    /// the column of a vertical one.
    pub open spec fn line(self) -> int {
        match self.placement.direction {
            Direction::Horizontal => self.placement.y as int,
            Direction::Verticle => self.placement.x as int,
        }
    }

    /// The coordinate at which the word begins along its direction.
    pub open spec fn start(self) -> int {
        match self.placement.direction {
            Direction::Horizontal => self.placement.x as int,
            Direction::Verticle => self.placement.y as int,
        }
    }
}

/// One row of a solution: `None` for a blank space, `Some(c)` for a letter of an answer.
#[derive(Clone, Debug, PartialEq)]
pub struct SolutionRow {
    /// The spaces of the row, from left to right.
    pub row: Vec<Option<char>>,
}

impl SolutionRow {
    /// A row of `width` blank spaces.
    pub(crate) fn new(width: usize) -> (res: SolutionRow)
        ensures
            res.row@ == Seq::new(width as nat, |c: int| None::<char>),
    {
        let mut row = Vec::<Option<char>>::new();
        let mut i: usize = 0;
        while i < width
            invariant
                i <= width,
                row@ == Seq::new(i as nat, |c: int| None::<char>),
            decreases width - i,
        {
            row.push(None);
            i += 1;
            assert(row@ =~= Seq::new(i as nat, |c: int| None::<char>));
        }
        SolutionRow { row }
    }
}

/// The errors of generation and play.
#[derive(Clone, Copy, Debug, PartialEq, Eq, Structural)]
pub enum CrosswordError {
    /// A valid puzzle cannot be built from the configuration.
    BadConfig,
    /// A word doesn't fit at a given placement.
    BadFit,
    /// A command was issued for the wrong kind of puzzle.
    BadPuzzleType,
    /// The intersection point was empty for a word that was not the first.
    EmptyIntersection,
    /// The puzzle's grid does not agree with its answers.
    GridStateError,
    /// The generated puzzle fails the given requirements.
    InsufficientPuzzle,
    /// The guess's placement is not one of the solution's.
    InvalidPlayerGuess,
    /// Generation failed as many times as the retries allowed.
    MaxRetries,
    /// There are more answers than words in the solution.
    MoreAnswersThanWords,
    /// No word qualifies as the initial word.
    NoValidInitialWords,
    /// A placement's coordinates lie outside the grid.
    PointOutOfBounds,
    /// The grid does not match the list of words.
    WordMismatch,
}

impl CrosswordError {
    /// The message that describes the error, as chars.
    pub open spec fn message(self) -> Seq<char> {
        match self {
            CrosswordError::BadConfig => "cannot generate valid puzzle from list of words"@,
            CrosswordError::BadFit => "word doesn't fit"@,
            CrosswordError::BadPuzzleType => "invalid operation for given PuzzleType"@,
            CrosswordError::EmptyIntersection => "intersection point was empty on non-first word"@,
            CrosswordError::GridStateError => "grid state doesn't match solutions answer array"@,
            CrosswordError::InsufficientPuzzle => "generated puzzle did not meet requirements"@,
            CrosswordError::InvalidPlayerGuess => "player guess word's placement cannot be found"@,
            CrosswordError::MaxRetries => "could not generate crossword before hitting max retries"@,
            CrosswordError::MoreAnswersThanWords => "more answers than words"@,
            CrosswordError::NoValidInitialWords => "no valid inital words"@,
            CrosswordError::PointOutOfBounds => "point out of bounds"@,
            CrosswordError::WordMismatch => "puzzle doesn't match list of words"@,
        }
    }

    /// The message that describes the error.
    pub fn to_string(&self) -> (res: String)
        ensures
            res@ == self.message(),
    {
        match self {
            CrosswordError::BadConfig => String::from_str("cannot generate valid puzzle from list of words"),
            CrosswordError::BadFit => String::from_str("word doesn't fit"),
            CrosswordError::BadPuzzleType => String::from_str("invalid operation for given PuzzleType"),
            CrosswordError::EmptyIntersection => String::from_str("intersection point was empty on non-first word"),
            CrosswordError::GridStateError => String::from_str("grid state doesn't match solutions answer array"),
            CrosswordError::InsufficientPuzzle => String::from_str("generated puzzle did not meet requirements"),
            CrosswordError::InvalidPlayerGuess => String::from_str("player guess word's placement cannot be found"),
            CrosswordError::MaxRetries => String::from_str("could not generate crossword before hitting max retries"),
            CrosswordError::MoreAnswersThanWords => String::from_str("more answers than words"),
            CrosswordError::NoValidInitialWords => String::from_str("no valid inital words"),
            CrosswordError::PointOutOfBounds => String::from_str("point out of bounds"),
            CrosswordError::WordMismatch => String::from_str("puzzle doesn't match list of words"),
        }
    }
}

/// Requirements that a generated puzzle must meet; when it does not, generation is retried.
#[derive(Clone, Copy, Debug)]
pub struct CrosswordReqs {
    /// How many failed attempts are allowed before giving up.
    pub max_retries: usize,
    /// The smallest word length (values under the minimum of three are raised to it).
    pub min_letters_per_word: Option<usize>,
    /// The least number of words the answer must hold.
    pub min_words: Option<usize>,
    /// The most columns that may be completely empty.
    pub max_empty_columns: Option<usize>,
    /// The most rows that may be completely empty.
    pub max_empty_rows: Option<usize>,
}

/// Where and how to place the first word of the puzzle.
#[derive(Clone, Copy, Debug, PartialEq, Eq, Structural)]
pub enum CrosswordInitialPlacementStrategy {
    /// In the middle of the grid.
    Center(Direction),
    /// At the given placement.
    Custom(Placement),
    /// At the lower left corner.
    LowerLeft(Direction),
    /// At the lower right corner.
    LowerRight(Direction),
    /// At the upper left corner.
    UpperLeft(Direction),
    /// At the upper right corner.
    UpperRight(Direction),
}

impl CrosswordInitialPlacementStrategy {
    /// The direction the strategy places the word in.
    pub fn direction(&self) -> (res: Direction)
        ensures
            res == self.dir(),
    {
        match self {
            CrosswordInitialPlacementStrategy::Center(d)
            | CrosswordInitialPlacementStrategy::LowerLeft(d)
            | CrosswordInitialPlacementStrategy::LowerRight(d)
            | CrosswordInitialPlacementStrategy::UpperLeft(d)
            | CrosswordInitialPlacementStrategy::UpperRight(d) => *d,
            CrosswordInitialPlacementStrategy::Custom(p) => p.direction,
        }
    }

    /// The direction the strategy places the word in.
    pub open spec fn dir(self) -> Direction {
        match self {
            CrosswordInitialPlacementStrategy::Center(d) => d,
            CrosswordInitialPlacementStrategy::LowerLeft(d) => d,
            CrosswordInitialPlacementStrategy::LowerRight(d) => d,
            CrosswordInitialPlacementStrategy::UpperLeft(d) => d,
            CrosswordInitialPlacementStrategy::UpperRight(d) => d,
            CrosswordInitialPlacementStrategy::Custom(p) => p.direction,
        }
    }
}

/// The size and place of the first word.
#[derive(Clone, Copy, Debug)]
pub struct CrosswordInitialPlacement {
    /// The smallest length of the first word (values under three are raised to three).
    pub min_letter_count: Option<usize>,
    /// Where the first word goes; chosen at random when absent.
    pub strategy: Option<CrosswordInitialPlacementStrategy>,
}

/// The configuration of solution generation.
#[derive(Debug)]
pub struct SolutionConf {
    /// The candidate words.
    pub words: Vec<Word>,
    /// The most words the solution may hold; with 0 no solution can be generated.
    pub max_words: usize,
    /// The width of the grid.
    pub width: usize,
    /// The height of the grid.
    pub height: usize,
    /// Requirements the solution must meet, with the number of retries allowed.
    pub requirements: Option<CrosswordReqs>,
    /// How the first word is chosen and placed.
    pub initial_placement: Option<CrosswordInitialPlacement>,
}

/// The possible outcomes of a player's guess.
#[derive(Clone, Copy, Debug, PartialEq, Eq, Structural)]
pub enum GuessResult {
    /// The placement is valid but the word would overwrite other answers, or has the wrong length.
    Conflict,
    /// The guess is correct and completes the puzzle.
    Complete,
    /// The guess is correct.
    Correct,
    /// The word was already guessed.
    Repeat,
    /// The guess fits its placement and is otherwise not checked.
    Unchecked,
    /// The guess is valid but wrong.
    Wrong,
}

} // verus!
