//! The three ways of playing a puzzle, each answering a player's guess differently.

use vstd::prelude::*;
use crate::generate::{failure_owed, generated, success_owed};
use crate::puzzle::{
    answer_check, answer_result, check_answer, find_placement, find_text, first_at, first_with_text, fresh_board, holds,
    holds_word,
    rebuild, rebuild_board, retain_other_placements, without_placement, lemma_letters_fit_known, write_answer,
    AnswerCheck, Puzzle,
};
use crate::types::{CrosswordError, GuessResult, PlacedWord, Placement, SolutionConf};

verus! {

/// A way of playing: how a player's guess is checked and answered.
pub trait Playmode: Sized {
    /// Whether answering `word` stays inside the board (the guess is answered without reading
    /// outside the board or overflowing an index).
    spec fn guess_allowed(&self, word: PlacedWord) -> bool;

    /// How the guess `word` moves the game from `self` to `after` with the result `res`.
    spec fn guess_outcome(&self, word: PlacedWord, after: Self, res: Result<GuessResult, CrosswordError>) -> bool;

    /// Handles a player's guess. Returns a [`GuessResult`] in most cases, and an error only
    /// when the puzzle is in a bad state or the guess's placement is invalid.
    fn guess_word(&mut self, word: PlacedWord) -> (res: Result<GuessResult, CrosswordError>)
        requires
            old(self).guess_allowed(word),
        ensures
            old(self).guess_outcome(word, *final(self), res),
    ;
}

/// The result of a correct guess that has just been added to the answers of `p`: `Complete`
/// when the answers now complete the puzzle, `Correct` when they do not, and the error of
/// [`Puzzle::is_complete`] when there are now more answers than words.
pub open spec fn after_correct(p: Puzzle) -> Result<GuessResult, CrosswordError> {
    match p.completion() {
        Ok(true) => Ok(GuessResult::Complete),
        Ok(false) => Ok(GuessResult::Correct),
        Err(e) => Err(e),
    }
}

/// A clue-based puzzle: a guess must stand at one of the solution's placements and fit there
/// without overwriting other answers; it replaces any earlier answer at that placement and is
/// not checked against the solution. Answers can be removed.
#[derive(Clone, Debug, PartialEq)]
pub struct ClassicPuzzle {
    /// The underlying game.
    pub puzzle: Puzzle,
}

impl ClassicPuzzle {
    /// A classic puzzle on a newly generated solution (see [`Puzzle::new`]).
    pub fn new(conf: SolutionConf) -> (res: Result<ClassicPuzzle, CrosswordError>)
        requires
            conf.width <= usize::MAX / 8,
            conf.height <= usize::MAX / 8,
        ensures
            res matches Ok(c) ==> generated(conf, c.puzzle.solution) && c.puzzle.player_answers@.len() == 0
                && c.puzzle.board() == fresh_board(c.puzzle.solution.cells()),
            res matches Err(e) ==> e == CrosswordError::MaxRetries,
            success_owed(conf) ==> res is Ok,
            failure_owed(conf) ==> res is Err,
    {
        Ok(ClassicPuzzle { puzzle: Puzzle::new(conf)? })
    }

    /// Removes the answers at `placement` (see [`Puzzle::remove_answer`]).
    pub fn remove_answer(&mut self, placement: &Placement) -> (res: Result<(), CrosswordError>)
        requires
            rebuild(old(self).puzzle.solution, without_placement(old(self).puzzle.player_answers@, *placement)).0
                != AnswerCheck::Faulted,
        ensures
            final(self).puzzle.solution == old(self).puzzle.solution,
            final(self).puzzle.player_answers@ == without_placement(old(self).puzzle.player_answers@, *placement),
            res is Ok <==> rebuild(old(self).puzzle.solution, final(self).puzzle.player_answers@).0 == AnswerCheck::Fits,
            res is Ok ==> final(self).puzzle.board() == rebuild(old(self).puzzle.solution, final(self).puzzle.player_answers@).1,
            res is Err ==> res == Err::<(), CrosswordError>(CrosswordError::GridStateError)
                && final(self).puzzle.board() == fresh_board(old(self).puzzle.solution.cells()),
    {
        self.puzzle.remove_answer(placement)
    }
}

impl Playmode for ClassicPuzzle {
    open spec fn guess_allowed(&self, word: PlacedWord) -> bool {
        let p = self.puzzle;
        first_at(p.solution.words@, word.placement, 0) >= 0 ==> {
            let r = rebuild(p.solution, without_placement(p.player_answers@, word.placement));
            &&& r.0 != AnswerCheck::Faulted
            &&& r.0 == AnswerCheck::Fits ==> answer_check(r.1, p.solution.words@, word) != AnswerCheck::Faulted
        }
    }

    /// A guess at a placement that is not the solution's is an error and changes nothing.
    /// Otherwise the answers at that placement are removed and the board is rebuilt
    /// (`Err(GridStateError)` with a blank board when that fails); then the guess is put on the
    /// board when it fits (`Unchecked`), and answered `Conflict` when it clashes.
    open spec fn guess_outcome(&self, word: PlacedWord, after: Self, res: Result<GuessResult, CrosswordError>) -> bool {
        let p = self.puzzle;
        let ws = p.solution.words@;
        if first_at(ws, word.placement, 0) < 0 {
            res == Err::<GuessResult, CrosswordError>(CrosswordError::InvalidPlayerGuess) && after == *self
        } else {
            let ans1 = without_placement(p.player_answers@, word.placement);
            let r = rebuild(p.solution, ans1);
            &&& after.puzzle.solution == p.solution
            &&& if r.0 != AnswerCheck::Fits {
                &&& res == Err::<GuessResult, CrosswordError>(CrosswordError::GridStateError)
                &&& after.puzzle.player_answers@ == ans1
                &&& after.puzzle.board() == fresh_board(p.solution.cells())
            } else {
                match answer_check(r.1, ws, word) {
                    AnswerCheck::Fits => {
                        &&& res == Ok::<GuessResult, CrosswordError>(GuessResult::Unchecked)
                        &&& after.puzzle.player_answers@ == ans1.push(word)
                        &&& after.puzzle.board() == write_answer(r.1, word)
                    },
                    AnswerCheck::Clash => {
                        &&& res == Ok::<GuessResult, CrosswordError>(GuessResult::Conflict)
                        &&& after.puzzle.player_answers@ == ans1
                        &&& after.puzzle.board() == r.1
                    },
                    _ => {
                        &&& res == Err::<GuessResult, CrosswordError>(CrosswordError::GridStateError)
                        &&& after.puzzle.player_answers@ == ans1
                        &&& after.puzzle.board() == r.1
                    },
                }
            }
        }
    }

    fn guess_word(&mut self, word: PlacedWord) -> (res: Result<GuessResult, CrosswordError>) {
        if find_placement(&self.puzzle.solution.words, &word.placement).is_none() {
            return Err(CrosswordError::InvalidPlayerGuess);
        }
        self.puzzle.player_answers = retain_other_placements(&self.puzzle.player_answers, &word.placement);
        self.puzzle.grid_from_answers()?;
        proof {
            lemma_letters_fit_known(self.puzzle.board(), word, 0);
        }
        match self.puzzle.place_answer(word) {
            Ok(Some(_)) => Ok(GuessResult::Unchecked),
            Ok(None) => Ok(GuessResult::Conflict),
            Err(e) => Err(e),
        }
    }
}

/// A puzzle where a guess gives a placement and a word: only a correct guess is added to the
/// answers, and the guess that completes the puzzle is answered `Complete`.
#[derive(Clone, Debug, PartialEq)]
pub struct PlacedWordPuzzle {
    /// The underlying game.
    pub puzzle: Puzzle,
}

impl PlacedWordPuzzle {
    /// A placed-word puzzle on a newly generated solution (see [`Puzzle::new`]).
    pub fn new(conf: SolutionConf) -> (res: Result<PlacedWordPuzzle, CrosswordError>)
        requires
            conf.width <= usize::MAX / 8,
            conf.height <= usize::MAX / 8,
        ensures
            res matches Ok(c) ==> generated(conf, c.puzzle.solution) && c.puzzle.player_answers@.len() == 0
                && c.puzzle.board() == fresh_board(c.puzzle.solution.cells()),
            res matches Err(e) ==> e == CrosswordError::MaxRetries,
            success_owed(conf) ==> res is Ok,
            failure_owed(conf) ==> res is Err,
    {
        Ok(PlacedWordPuzzle { puzzle: Puzzle::new(conf)? })
    }
}

impl Playmode for PlacedWordPuzzle {
    open spec fn guess_allowed(&self, word: PlacedWord) -> bool {
        let p = self.puzzle;
        let ws = p.solution.words@;
        let i = first_at(ws, word.placement, 0);
        (p.completion() == Ok::<bool, CrosswordError>(false) && i >= 0 && ws[i].same_as(word)) ==> answer_check(
            p.board(),
            ws,
            word,
        ) != AnswerCheck::Faulted
    }

    /// A complete puzzle answers `Complete` and an overfull one is an error, changing nothing.
    /// Otherwise a guess at a placement that is not the solution's is an error, and a guess that
    /// differs from the solution's word at its placement is `Wrong`, and a correct guess already
    /// among the answers is a `Repeat`, changing nothing. A new correct guess is put on the board
    /// when it fits (then `Complete` or `Correct`, see
    /// [`after_correct`]), and answered `Conflict` when it clashes.
    open spec fn guess_outcome(&self, word: PlacedWord, after: Self, res: Result<GuessResult, CrosswordError>) -> bool {
        let p = self.puzzle;
        let ws = p.solution.words@;
        let i = first_at(ws, word.placement, 0);
        match p.completion() {
            Err(e) => res == Err::<GuessResult, CrosswordError>(e) && after == *self,
            Ok(true) => res == Ok::<GuessResult, CrosswordError>(GuessResult::Complete) && after == *self,
            Ok(false) => if i < 0 {
                res == Err::<GuessResult, CrosswordError>(CrosswordError::InvalidPlayerGuess) && after == *self
            } else if !ws[i].same_as(word) {
                res == Ok::<GuessResult, CrosswordError>(GuessResult::Wrong) && after == *self
            } else if holds(p.player_answers@, word) {
                res == Ok::<GuessResult, CrosswordError>(GuessResult::Repeat) && after == *self
            } else {
                match answer_check(p.board(), ws, word) {
                    AnswerCheck::Fits => {
                        &&& after.puzzle.solution == p.solution
                        &&& after.puzzle.player_answers@ == p.player_answers@.push(word)
                        &&& after.puzzle.board() == write_answer(p.board(), word)
                        &&& res == after_correct(after.puzzle)
                    },
                    o => res == match answer_result(o) {
                        Ok(_) => Ok::<GuessResult, CrosswordError>(GuessResult::Conflict),
                        Err(e) => Err(e),
                    } && after == *self,
                }
            },
        }
    }

    fn guess_word(&mut self, word: PlacedWord) -> (res: Result<GuessResult, CrosswordError>) {
        if self.puzzle.is_complete()? {
            return Ok(GuessResult::Complete);
        }
        let correct = if let Some(c) = find_placement(&self.puzzle.solution.words, &word.placement) {
            self.puzzle.solution.words[c].clone()
        } else {
            return Err(CrosswordError::InvalidPlayerGuess);
        };
        if correct == word {
            if holds_word(&self.puzzle.player_answers, &word) {
                return Ok(GuessResult::Repeat);
            }
            match self.puzzle.place_answer(word)? {
                Some(_) => {
                    if self.puzzle.is_complete()? {
                        Ok(GuessResult::Complete)
                    } else {
                        Ok(GuessResult::Correct)
                    }
                },
                None => Ok(GuessResult::Conflict),
            }
        } else {
            Ok(GuessResult::Wrong)
        }
    }
}

/// A puzzle where a guess is only a word: when the word is in the solution and not already
/// answered, the solution's word is added at its placement; the guess that completes the
/// puzzle is answered `Complete`.
#[derive(Clone, Debug, PartialEq)]
pub struct PerWordPuzzle {
    /// The underlying game.
    pub puzzle: Puzzle,
}

impl PerWordPuzzle {
    /// A per-word puzzle on a newly generated solution (see [`Puzzle::new`]).
    pub fn new(conf: SolutionConf) -> (res: Result<PerWordPuzzle, CrosswordError>)
        requires
            conf.width <= usize::MAX / 8,
            conf.height <= usize::MAX / 8,
        ensures
            res matches Ok(c) ==> generated(conf, c.puzzle.solution) && c.puzzle.player_answers@.len() == 0
                && c.puzzle.board() == fresh_board(c.puzzle.solution.cells()),
            res matches Err(e) ==> e == CrosswordError::MaxRetries,
            success_owed(conf) ==> res is Ok,
            failure_owed(conf) ==> res is Err,
    {
        Ok(PerWordPuzzle { puzzle: Puzzle::new(conf)? })
    }
}

impl Playmode for PerWordPuzzle {
    open spec fn guess_allowed(&self, word: PlacedWord) -> bool {
        let p = self.puzzle;
        let ws = p.solution.words@;
        let t = word.word.text@;
        let i = first_with_text(ws, t, 0);
        (p.completion() == Ok::<bool, CrosswordError>(false) && first_with_text(p.player_answers@, t, 0) < 0 && i >= 0)
            ==> answer_check(p.board(), ws, ws[i]) != AnswerCheck::Faulted
    }

    /// A complete puzzle answers `Complete` and an overfull one is an error, changing nothing.
    /// A word already among the answers is a `Repeat`, and a word that is not in the solution
    /// is `Wrong`, changing nothing. Otherwise the first solution word with that text is put on
    /// the board when it fits (then `Complete` or `Correct`, see [`after_correct`]), and the
    /// guess is answered `Conflict` when it clashes.
    open spec fn guess_outcome(&self, word: PlacedWord, after: Self, res: Result<GuessResult, CrosswordError>) -> bool {
        let p = self.puzzle;
        let ws = p.solution.words@;
        let t = word.word.text@;
        let i = first_with_text(ws, t, 0);
        match p.completion() {
            Err(e) => res == Err::<GuessResult, CrosswordError>(e) && after == *self,
            Ok(true) => res == Ok::<GuessResult, CrosswordError>(GuessResult::Complete) && after == *self,
            Ok(false) => if first_with_text(p.player_answers@, t, 0) >= 0 {
                res == Ok::<GuessResult, CrosswordError>(GuessResult::Repeat) && after == *self
            } else if i < 0 {
                res == Ok::<GuessResult, CrosswordError>(GuessResult::Wrong) && after == *self
            } else {
                match answer_check(p.board(), ws, ws[i]) {
                    AnswerCheck::Fits => {
                        &&& after.puzzle.solution == p.solution
                        &&& after.puzzle.player_answers@ == p.player_answers@.push(ws[i])
                        &&& after.puzzle.board() == write_answer(p.board(), ws[i])
                        &&& res == after_correct(after.puzzle)
                    },
                    o => res == match answer_result(o) {
                        Ok(_) => Ok::<GuessResult, CrosswordError>(GuessResult::Conflict),
                        Err(e) => Err(e),
                    } && after == *self,
                }
            },
        }
    }

    fn guess_word(&mut self, word: PlacedWord) -> (res: Result<GuessResult, CrosswordError>) {
        if self.puzzle.is_complete()? {
            return Ok(GuessResult::Complete);
        }
        if find_text(&self.puzzle.player_answers, &word.word.text).is_some() {
            Ok(GuessResult::Repeat)
        } else if let Some(c) = find_text(&self.puzzle.solution.words, &word.word.text) {
            match self.puzzle.place_answer(self.puzzle.solution.words[c].clone())? {
                Some(_) => {
                    if self.puzzle.is_complete()? {
                        Ok(GuessResult::Complete)
                    } else {
                        Ok(GuessResult::Correct)
                    }
                },
                None => Ok(GuessResult::Conflict),
            }
        } else {
            Ok(GuessResult::Wrong)
        }
    }
}

/// Whether an answer check reads only inside the board.
fn in_bounds(o: &AnswerCheck) -> (res: bool)
    ensures
        res == (*o != AnswerCheck::Faulted),
{
    match o {
        AnswerCheck::Faulted => false,
        _ => true,
    }
}

/// Whether the guess `word` on the puzzle `p` played classically is answered without reading
/// outside the board (see [`Playmode::guess_allowed`]).
pub fn classic_guess_allowed(p: &Puzzle, word: &PlacedWord) -> (res: bool)
    ensures
        res == (ClassicPuzzle { puzzle: *p }).guess_allowed(*word),
{
    if find_placement(&p.solution.words, &word.placement).is_none() {
        return true;
    }
    let others = retain_other_placements(&p.player_answers, &word.placement);
    let (outcome, board) = rebuild_board(&p.solution, &others);
    match outcome {
        AnswerCheck::Faulted => false,
        AnswerCheck::Fits => in_bounds(&check_answer(&board, &p.solution.words, word)),
        _ => true,
    }
}

/// Whether the guess `word` on the puzzle `p` played by placed words is answered without
/// reading outside the board (see [`Playmode::guess_allowed`]).
pub fn placed_word_guess_allowed(p: &Puzzle, word: &PlacedWord) -> (res: bool)
    ensures
        res == (PlacedWordPuzzle { puzzle: *p }).guess_allowed(*word),
{
    match p.is_complete() {
        Ok(false) => {},
        _ => {
            return true;
        },
    }
    match find_placement(&p.solution.words, &word.placement) {
        None => true,
        Some(i) => {
            if p.solution.words[i] == *word {
                in_bounds(&check_answer(&p.grid, &p.solution.words, word))
            } else {
                true
            }
        },
    }
}

/// Whether the guess `word` on the puzzle `p` played by words alone is answered without
/// reading outside the board (see [`Playmode::guess_allowed`]).
pub fn per_word_guess_allowed(p: &Puzzle, word: &PlacedWord) -> (res: bool)
    ensures
        res == (PerWordPuzzle { puzzle: *p }).guess_allowed(*word),
{
    match p.is_complete() {
        Ok(false) => {},
        _ => {
            return true;
        },
    }
    if find_text(&p.player_answers, &word.word.text).is_some() {
        return true;
    }
    match find_text(&p.solution.words, &word.word.text) {
        None => true,
        Some(i) => in_bounds(&check_answer(&p.grid, &p.solution.words, &p.solution.words[i])),
    }
}

} // verus!
