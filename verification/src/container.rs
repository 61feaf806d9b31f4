//! Plain entry points that hand a puzzle back together with the result of each operation,
//! with a label telling which way of playing the puzzle follows.

use vstd::prelude::*;
use crate::generate::{failure_owed, generated, success_owed};
use crate::playmode::{
    classic_guess_allowed, per_word_guess_allowed, placed_word_guess_allowed, ClassicPuzzle, PerWordPuzzle,
    PlacedWordPuzzle, Playmode,
};
use crate::puzzle::{fresh_board, rebuild, remove_allowed, without_placement, wrong_pairs, AnswerCheck, Puzzle};
use crate::solution::Solution;
use crate::types::{CrosswordError, GuessResult, PlacedWord, Placement, SolutionConf};

verus! {

/// Which way of playing a puzzle follows.
#[derive(Clone, Copy, Debug, PartialEq, Eq, Structural)]
pub enum PuzzleType {
    /// See [`ClassicPuzzle`].
    Classic,
    /// See [`PlacedWordPuzzle`].
    PlacedWord,
    /// See [`PerWordPuzzle`].
    PerWord,
}

/// A puzzle labelled with the way it is played.
#[derive(Clone, Debug, PartialEq)]
pub struct PuzzleContainer {
    /// The way the puzzle is played.
    pub puzzle_type: PuzzleType,
    /// The game.
    pub puzzle: Puzzle,
}

/// A puzzle handed back with whether it is complete.
#[derive(Clone, Debug, PartialEq)]
pub struct PuzzleCompleteContainer {
    /// The puzzle that was checked.
    pub puzzle_container: PuzzleContainer,
    /// Whether the puzzle is complete.
    pub is_complete: bool,
}

/// A wrong answer and the solution's word at its placement.
#[derive(Clone, Debug, PartialEq)]
pub struct WrongAnswerPair {
    /// The player's wrong answer.
    pub got: PlacedWord,
    /// The solution's word at that placement.
    pub wanted: PlacedWord,
}

/// A puzzle handed back with its wrong answers.
#[derive(Clone, Debug, PartialEq)]
pub struct WrongAnswersContainer {
    /// The puzzle that was checked.
    pub puzzle_container: PuzzleContainer,
    /// The wrong answers, each with its correction.
    pub wrong_answer_pairs: Vec<WrongAnswerPair>,
}

/// A puzzle handed back with the result of a guess.
#[derive(Clone, Debug, PartialEq)]
pub struct PuzzleAndResult {
    /// The puzzle after the guess.
    pub puzzle_container: PuzzleContainer,
    /// The result of the guess.
    pub guess_result: GuessResult,
}

/// Generates a solution (see [`Solution::new`]).
pub fn new_solution(conf: SolutionConf) -> (res: Result<Solution, CrosswordError>)
    requires
        conf.width <= usize::MAX / 8,
        conf.height <= usize::MAX / 8,
    ensures
        res matches Ok(s) ==> generated(conf, s),
        res matches Err(e) ==> e == CrosswordError::MaxRetries,
        success_owed(conf) ==> res is Ok,
        failure_owed(conf) ==> res is Err,
{
    Solution::new(conf)
}

/// Generates a puzzle (see [`Puzzle::new`]) labelled with the way it is played.
pub fn new_puzzle(conf: SolutionConf, puzzle_type: PuzzleType) -> (res: Result<PuzzleContainer, CrosswordError>)
    requires
        conf.width <= usize::MAX / 8,
        conf.height <= usize::MAX / 8,
    ensures
        res matches Ok(c) ==> c.puzzle_type == puzzle_type && generated(conf, c.puzzle.solution)
            && c.puzzle.player_answers@.len() == 0 && c.puzzle.board() == fresh_board(c.puzzle.solution.cells()),
        res matches Err(e) ==> e == CrosswordError::MaxRetries,
        success_owed(conf) ==> res is Ok,
        failure_owed(conf) ==> res is Err,
{
    Ok(PuzzleContainer { puzzle_type, puzzle: Puzzle::new(conf)? })
}

/// Hands the puzzle back with whether it is complete (see [`Puzzle::is_complete`]).
pub fn is_puzzle_complete(puzzle_container: PuzzleContainer) -> (res: Result<PuzzleCompleteContainer, CrosswordError>)
    ensures
        match puzzle_container.puzzle.completion() {
            Ok(b) => res == Ok::<PuzzleCompleteContainer, CrosswordError>(
                PuzzleCompleteContainer { puzzle_container, is_complete: b },
            ),
            Err(e) => res == Err::<PuzzleCompleteContainer, CrosswordError>(e),
        },
{
    let is_complete = match puzzle_container.puzzle.is_complete() {
        Ok(b) => b,
        Err(e) => {
            return Err(e);
        },
    };
    Ok(PuzzleCompleteContainer { puzzle_container, is_complete })
}

/// Hands the puzzle back with its wrong answers, each with the solution's word at its
/// placement (see [`Puzzle::wrong_answers_and_solutions`]).
pub fn wrong_answers_and_solutions(puzzle_container: PuzzleContainer) -> (res: Result<WrongAnswersContainer, CrosswordError>)
    ensures
        match wrong_pairs(puzzle_container.puzzle.player_answers@, puzzle_container.puzzle.solution.words@) {
            Some(pairs) => res matches Ok(c) && c.puzzle_container == puzzle_container
                && c.wrong_answer_pairs@.len() == pairs.len() && forall|k: int|
                0 <= k < pairs.len() ==> (#[trigger] c.wrong_answer_pairs@[k]).got == pairs[k].0
                && c.wrong_answer_pairs@[k].wanted == pairs[k].1,
            None => res == Err::<WrongAnswersContainer, CrosswordError>(CrosswordError::InvalidPlayerGuess),
        },
{
    let pairs = match puzzle_container.puzzle.wrong_answers_and_solutions() {
        Ok(v) => v,
        Err(e) => {
            return Err(e);
        },
    };
    let mut wrong_answer_pairs: Vec<WrongAnswerPair> = Vec::new();
    let mut k: usize = 0;
    while k < pairs.len()
        invariant
            k <= pairs@.len(),
            wrong_answer_pairs@.len() == k,
            forall|q: int| 0 <= q < k ==> (#[trigger] wrong_answer_pairs@[q]).got == pairs@[q].0 && wrong_answer_pairs@[q].wanted
                == pairs@[q].1,
        decreases pairs@.len() - k,
    {
        let (got, wanted) = (pairs[k].0.clone(), pairs[k].1.clone());
        wrong_answer_pairs.push(WrongAnswerPair { got, wanted });
        k += 1;
    }
    Ok(WrongAnswersContainer { puzzle_container, wrong_answer_pairs })
}

/// Whether the guess `guess` can be answered on the labelled puzzle without reading outside
/// the board (see [`Playmode::guess_allowed`]).
pub open spec fn container_guess_allowed(c: PuzzleContainer, guess: PlacedWord) -> bool {
    match c.puzzle_type {
        PuzzleType::Classic => (ClassicPuzzle { puzzle: c.puzzle }).guess_allowed(guess),
        PuzzleType::PlacedWord => (PlacedWordPuzzle { puzzle: c.puzzle }).guess_allowed(guess),
        PuzzleType::PerWord => (PerWordPuzzle { puzzle: c.puzzle }).guess_allowed(guess),
    }
}

/// How a guess on the labelled puzzle comes out: the guess of its way of playing (see
/// [`Playmode::guess_outcome`]) moves the puzzle to `after` with result `r`; the puzzle is
/// handed back with the result when there is one, and the error is returned otherwise.
pub open spec fn container_guess(
    c: PuzzleContainer,
    guess: PlacedWord,
    after: Puzzle,
    r: Result<GuessResult, CrosswordError>,
) -> bool {
    match c.puzzle_type {
        PuzzleType::Classic => (ClassicPuzzle { puzzle: c.puzzle }).guess_outcome(guess, ClassicPuzzle { puzzle: after }, r),
        PuzzleType::PlacedWord => (PlacedWordPuzzle { puzzle: c.puzzle }).guess_outcome(
            guess,
            PlacedWordPuzzle { puzzle: after },
            r,
        ),
        PuzzleType::PerWord => (PerWordPuzzle { puzzle: c.puzzle }).guess_outcome(guess, PerWordPuzzle { puzzle: after }, r),
    }
}

/// Answers a guess on the labelled puzzle by its way of playing, and hands the puzzle back
/// with the result.
pub fn guess_word(puzzle_container: PuzzleContainer, guess: PlacedWord) -> (res: Result<PuzzleAndResult, CrosswordError>)
    requires
        container_guess_allowed(puzzle_container, guess),
    ensures
        exists|after: Puzzle, r: Result<GuessResult, CrosswordError>| {
            &&& #[trigger] container_guess(puzzle_container, guess, after, r)
            &&& r matches Ok(g) ==> res == Ok::<PuzzleAndResult, CrosswordError>(
                PuzzleAndResult {
                    puzzle_container: PuzzleContainer { puzzle_type: puzzle_container.puzzle_type, puzzle: after },
                    guess_result: g,
                },
            )
            &&& r matches Err(e) ==> res == Err::<PuzzleAndResult, CrosswordError>(e)
        },
{
    let puzzle_type = puzzle_container.puzzle_type;
    let (puzzle, guess_result) = match puzzle_type {
        PuzzleType::Classic => {
            let mut classic = ClassicPuzzle { puzzle: puzzle_container.puzzle };
            let res = classic.guess_word(guess);
            match res {
                Ok(g) => (classic.puzzle, g),
                Err(e) => {
                    assert(container_guess(puzzle_container, guess, classic.puzzle, res));
                    return Err(e);
                },
            }
        },
        PuzzleType::PlacedWord => {
            let mut placed_word = PlacedWordPuzzle { puzzle: puzzle_container.puzzle };
            let res = placed_word.guess_word(guess);
            match res {
                Ok(g) => (placed_word.puzzle, g),
                Err(e) => {
                    assert(container_guess(puzzle_container, guess, placed_word.puzzle, res));
                    return Err(e);
                },
            }
        },
        PuzzleType::PerWord => {
            let mut per_word = PerWordPuzzle { puzzle: puzzle_container.puzzle };
            let res = per_word.guess_word(guess);
            match res {
                Ok(g) => (per_word.puzzle, g),
                Err(e) => {
                    assert(container_guess(puzzle_container, guess, per_word.puzzle, res));
                    return Err(e);
                },
            }
        },
    };
    assert(container_guess(puzzle_container, guess, puzzle, Ok(guess_result)));
    Ok(PuzzleAndResult { puzzle_container: PuzzleContainer { puzzle_type, puzzle }, guess_result })
}

/// Removes the answers at `placement` from a classic puzzle (see [`Puzzle::remove_answer`])
/// and hands it back; other puzzles answer `Err(BadPuzzleType)`.
pub fn remove_answer(puzzle_container: PuzzleContainer, placement: Placement) -> (res: Result<PuzzleContainer, CrosswordError>)
    requires
        puzzle_container.puzzle_type == PuzzleType::Classic ==> rebuild(
            puzzle_container.puzzle.solution,
            without_placement(puzzle_container.puzzle.player_answers@, placement),
        ).0 != AnswerCheck::Faulted,
    ensures
        puzzle_container.puzzle_type != PuzzleType::Classic ==> res == Err::<PuzzleContainer, CrosswordError>(
            CrosswordError::BadPuzzleType,
        ),
        puzzle_container.puzzle_type == PuzzleType::Classic ==> {
            let ans = without_placement(puzzle_container.puzzle.player_answers@, placement);
            let r = rebuild(puzzle_container.puzzle.solution, ans);
            &&& res is Ok <==> r.0 == AnswerCheck::Fits
            &&& res matches Ok(c) ==> c.puzzle_type == PuzzleType::Classic && c.puzzle.solution
                == puzzle_container.puzzle.solution && c.puzzle.player_answers@ == ans && c.puzzle.board() == r.1
            &&& res is Err ==> res == Err::<PuzzleContainer, CrosswordError>(CrosswordError::GridStateError)
        },
{
    if puzzle_container.puzzle_type != PuzzleType::Classic {
        return Err(CrosswordError::BadPuzzleType);
    }
    let mut puzzle_container = puzzle_container;
    match puzzle_container.puzzle.remove_answer(&placement) {
        Ok(()) => {},
        Err(e) => {
            return Err(e);
        },
    }
    Ok(puzzle_container)
}

/// Whether [`guess_word`] can answer `guess` on the labelled puzzle without reading outside
/// the board (what it requires).
pub fn can_guess(puzzle_container: &PuzzleContainer, guess: &PlacedWord) -> (res: bool)
    ensures
        res == container_guess_allowed(*puzzle_container, *guess),
{
    match puzzle_container.puzzle_type {
        PuzzleType::Classic => classic_guess_allowed(&puzzle_container.puzzle, guess),
        PuzzleType::PlacedWord => placed_word_guess_allowed(&puzzle_container.puzzle, guess),
        PuzzleType::PerWord => per_word_guess_allowed(&puzzle_container.puzzle, guess),
    }
}

/// Whether [`remove_answer`] can remove the answers at `placement` without reading outside the
/// board (what it requires).
pub fn can_remove_answer(puzzle_container: &PuzzleContainer, placement: &Placement) -> (res: bool)
    ensures
        res == (puzzle_container.puzzle_type == PuzzleType::Classic ==> rebuild(
            puzzle_container.puzzle.solution,
            without_placement(puzzle_container.puzzle.player_answers@, *placement),
        ).0 != AnswerCheck::Faulted),
{
    match puzzle_container.puzzle_type {
        PuzzleType::Classic => remove_allowed(&puzzle_container.puzzle, placement),
        _ => true,
    }
}

} // verus!
