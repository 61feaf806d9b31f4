//! The properties that the library keeps across its operations, each stated and proved.

use vstd::prelude::*;
use vstd::std_specs::cmp::PartialEqSpec;
use crate::generate::{fill_step, fits_at, generated};
use crate::playmode::{ClassicPuzzle, PerWordPuzzle, PlacedWordPuzzle, Playmode};
use crate::puzzle::{
    answer_check, answer_covers, answer_offset, first_at, first_with_text, fresh_board, holds, lemma_first_at, letter_pos,
    letters_fit, rebuild, without_placement, write_answer, write_letters, wrong_pairs, AnswerCheck, Board, Puzzle,
};
use crate::solution::{
    at, cell_of, covers, in_grid, lemma_letters_agree, lemma_overlap_disjoint, letters_check, offset, overlap_check,
    replay, write_word, CharGrid, Outcome, Solution, runs_are_words, lemma_replay_inside, lemma_replay_is_direct,
    lemma_runs_painted,
};
use crate::types::{Direction, GuessResult, PlacedWord, Placement, SolutionConf, Word};

verus! {

/// `other` is the logical "not" of directions: it always gives the other direction, and
/// taking it twice gives the direction back.
pub proof fn law_other_is_involution(d: Direction)
    ensures
        d.flip() != d,
        d.flip().flip() == d,
{
}

/// Words are equal exactly when their texts are: the clue plays no part, so a guess need not
/// carry the solution's clue.
pub proof fn law_word_equality_ignores_clue(a: Word, b: Word)
    ensures
        a.eq_spec(&b) <==> a.text@ == b.text@,
{
}

/// Placed words are equal exactly when their placements and texts are, whatever their clues.
pub proof fn law_placed_word_equality_ignores_clue(a: PlacedWord, b: PlacedWord)
    ensures
        a.eq_spec(&b) <==> (a.placement == b.placement && a.word.text@ == b.word.text@),
{
}

/// A generated solution passes validation: replaying its words on a blank grid accepts every
/// one of them and builds exactly its grid, which is what `Solution::is_valid` accepts.
pub proof fn law_generated_solution_is_valid(conf: SolutionConf, s: Solution)
    requires
        generated(conf, s),
    ensures
        replay(s.w(), s.h(), s.words@).0 == Outcome::Accepted,
        replay(s.w(), s.h(), s.words@).1 == s.cells(),
{
}

/// The board always stays the one rebuilt from the answers: when it is, putting an answer
/// that fits keeps it so (rebuilding from the answers with the new one at the end gives the
/// board that `place_answer` leaves).
pub proof fn law_place_answer_keeps_board_rebuilt(p: Puzzle, pw: PlacedWord)
    requires
        rebuild(p.solution, p.player_answers@) == (AnswerCheck::Fits, p.board()),
        answer_check(p.board(), p.solution.words@, pw) == AnswerCheck::Fits,
    ensures
        rebuild(p.solution, p.player_answers@.push(pw)) == (AnswerCheck::Fits, write_answer(p.board(), pw)),
{
    assert(p.player_answers@.push(pw).drop_last() =~= p.player_answers@);
}

/// Removing the answers at a placement leaves no answer there, and keeps every answer at
/// another placement, in order.
pub proof fn law_remove_answer_removes_placement(ans: Seq<PlacedWord>, p: Placement)
    ensures
        forall|k: int| 0 <= k < without_placement(ans, p).len() ==> (#[trigger] without_placement(ans, p)[k]).placement != p,
        forall|k: int| 0 <= k < without_placement(ans, p).len() ==> ans.contains(#[trigger] without_placement(ans, p)[k]),
        forall|k: int| 0 <= k < ans.len() && (#[trigger] ans[k]).placement != p ==> without_placement(ans, p).contains(ans[k]),
    decreases ans.len(),
{
    if ans.len() > 0 {
        law_remove_answer_removes_placement(ans.drop_last(), p);
        let rest = without_placement(ans.drop_last(), p);
        assert forall|k: int| 0 <= k < without_placement(ans, p).len() implies ans.contains(
            #[trigger] without_placement(ans, p)[k],
        ) by {
            if k < rest.len() {
                let j = choose|j: int| 0 <= j < ans.drop_last().len() && ans.drop_last()[j] == rest[k];
                assert(ans[j] == rest[k]);
            } else {
                assert(ans[ans.len() - 1] == ans.last());
            }
        }
        assert forall|k: int| 0 <= k < ans.len() && (#[trigger] ans[k]).placement != p implies without_placement(ans, p).contains(
            ans[k],
        ) by {
            if k < ans.len() - 1 {
                assert(ans.drop_last()[k] == ans[k]);
                let j = choose|j: int| 0 <= j < rest.len() && rest[j] == ans[k];
                assert(without_placement(ans, p)[j] == ans[k]);
            } else {
                assert(without_placement(ans, p)[rest.len() as int] == ans[k]);
            }
        }
    }
}

/// In the placed-word playmode only correct guesses are added: when every answer is a word of
/// the solution, it stays so after any guess, and the solution does not change.
pub proof fn law_placed_word_answers_stay_right(
    pz: PlacedWordPuzzle,
    word: PlacedWord,
    after: PlacedWordPuzzle,
    res: Result<GuessResult, crate::types::CrosswordError>,
)
    requires
        pz.puzzle.all_answers_right(),
        pz.guess_outcome(word, after, res),
    ensures
        after.puzzle.all_answers_right(),
        after.puzzle.solution == pz.puzzle.solution,
{
    let ws = pz.puzzle.solution.words@;
    let i = crate::puzzle::first_at(ws, word.placement, 0);
    crate::puzzle::lemma_first_at(ws, word.placement, 0);
    if after != pz {
        assert(holds(ws, word)) by {
            assert(ws[i].same_as(word));
        }
        assert forall|q: int| 0 <= q < after.puzzle.player_answers@.len() implies holds(
            after.puzzle.solution.words@,
            #[trigger] after.puzzle.player_answers@[q],
        ) by {
            if q < pz.puzzle.player_answers@.len() {
                assert(after.puzzle.player_answers@[q] == pz.puzzle.player_answers@[q]);
            }
        }
    }
}

/// In the per-word playmode only words of the solution are added: when every answer is a word
/// of the solution, it stays so after any guess, and the solution does not change.
pub proof fn law_per_word_answers_stay_right(
    pz: PerWordPuzzle,
    word: PlacedWord,
    after: PerWordPuzzle,
    res: Result<GuessResult, crate::types::CrosswordError>,
)
    requires
        pz.puzzle.all_answers_right(),
        pz.guess_outcome(word, after, res),
    ensures
        after.puzzle.all_answers_right(),
        after.puzzle.solution == pz.puzzle.solution,
{
    let ws = pz.puzzle.solution.words@;
    let i = crate::puzzle::first_with_text(ws, word.word.text@, 0);
    crate::puzzle::lemma_first_with_text(ws, word.word.text@, 0);
    if after != pz {
        assert(holds(ws, ws[i])) by {
            assert(ws[i].same_as(ws[i]));
        }
        assert forall|q: int| 0 <= q < after.puzzle.player_answers@.len() implies holds(
            after.puzzle.solution.words@,
            #[trigger] after.puzzle.player_answers@[q],
        ) by {
            if q < pz.puzzle.player_answers@.len() {
                assert(after.puzzle.player_answers@[q] == pz.puzzle.player_answers@[q]);
            }
        }
    }
}

/// In the per-word playmode the placement and the clue of a guess play no part: two guesses
/// with the same text come out the same.
pub proof fn law_per_word_ignores_placement(
    pz: PerWordPuzzle,
    w1: PlacedWord,
    w2: PlacedWord,
    after: PerWordPuzzle,
    res: Result<GuessResult, crate::types::CrosswordError>,
)
    requires
        w1.word.text@ == w2.word.text@,
    ensures
        pz.guess_outcome(w1, after, res) == pz.guess_outcome(w2, after, res),
{
}

/// A guess answered `Complete` in the placed-word playmode leaves a complete puzzle.
pub proof fn law_placed_word_complete_is_complete(
    pz: PlacedWordPuzzle,
    word: PlacedWord,
    after: PlacedWordPuzzle,
    res: Result<GuessResult, crate::types::CrosswordError>,
)
    requires
        pz.guess_outcome(word, after, res),
        res == Ok::<GuessResult, crate::types::CrosswordError>(GuessResult::Complete),
    ensures
        after.puzzle.completion() == Ok::<bool, crate::types::CrosswordError>(true),
{
}

/// A guess answered `Complete` in the per-word playmode leaves a complete puzzle.
pub proof fn law_per_word_complete_is_complete(
    pz: PerWordPuzzle,
    word: PlacedWord,
    after: PerWordPuzzle,
    res: Result<GuessResult, crate::types::CrosswordError>,
)
    requires
        pz.guess_outcome(word, after, res),
        res == Ok::<GuessResult, crate::types::CrosswordError>(GuessResult::Complete),
    ensures
        after.puzzle.completion() == Ok::<bool, crate::types::CrosswordError>(true),
{
}

/// Whether no two answers stand at the same placement.
pub open spec fn one_per_placement(ans: Seq<PlacedWord>) -> bool {
    forall|j: int, k: int| 0 <= j < k < ans.len() ==> (#[trigger] ans[j]).placement != (#[trigger] ans[k]).placement
}

/// Removing the answers at a placement keeps at most one answer per placement.
pub proof fn lemma_without_keeps_one_per_placement(ans: Seq<PlacedWord>, p: Placement)
    requires
        one_per_placement(ans),
    ensures
        one_per_placement(without_placement(ans, p)),
    decreases ans.len(),
{
    if ans.len() > 0 {
        lemma_without_keeps_one_per_placement(ans.drop_last(), p);
        law_remove_answer_removes_placement(ans.drop_last(), p);
        let rest = without_placement(ans.drop_last(), p);
        if ans.last().placement != p {
            assert forall|j: int, k: int| 0 <= j < k < rest.len() + 1 implies (#[trigger] rest.push(ans.last())[j]).placement
                != (#[trigger] rest.push(ans.last())[k]).placement by {
                if k == rest.len() {
                    let i = choose|i: int| 0 <= i < ans.drop_last().len() && ans.drop_last()[i] == rest[j];
                    assert(ans[i] == rest[j]);
                    assert(ans[ans.len() - 1] == ans.last());
                }
            }
        }
    }
}

/// A classic puzzle keeps at most one answer per placement: a guess replaces the answer at
/// its placement.
pub proof fn law_classic_one_answer_per_placement(
    pz: ClassicPuzzle,
    word: PlacedWord,
    after: ClassicPuzzle,
    res: Result<GuessResult, crate::types::CrosswordError>,
)
    requires
        one_per_placement(pz.puzzle.player_answers@),
        pz.guess_outcome(word, after, res),
    ensures
        one_per_placement(after.puzzle.player_answers@),
{
    let ans1 = without_placement(pz.puzzle.player_answers@, word.placement);
    lemma_without_keeps_one_per_placement(pz.puzzle.player_answers@, word.placement);
    law_remove_answer_removes_placement(pz.puzzle.player_answers@, word.placement);
    if after.puzzle.player_answers@ == ans1.push(word) {
        assert forall|j: int, k: int| 0 <= j < k < ans1.len() + 1 implies (#[trigger] ans1.push(word)[j]).placement
            != (#[trigger] ans1.push(word)[k]).placement by {
            if k == ans1.len() {
                assert(ans1[j].placement != word.placement);
            }
        }
    }
}

/// In the placed-word playmode the clue of a guess plays no part in the result: two guesses
/// with the same placement and text get the same result.
pub proof fn law_placed_word_result_ignores_clue(
    pz: PlacedWordPuzzle,
    w1: PlacedWord,
    w2: PlacedWord,
    a1: PlacedWordPuzzle,
    r1: Result<GuessResult, crate::types::CrosswordError>,
    a2: PlacedWordPuzzle,
    r2: Result<GuessResult, crate::types::CrosswordError>,
)
    requires
        w1.placement == w2.placement,
        w1.word.text@ == w2.word.text@,
        pz.guess_outcome(w1, a1, r1),
        pz.guess_outcome(w2, a2, r2),
    ensures
        r1 == r2,
{
    let p = pz.puzzle;
    let ws = p.solution.words@;
    assert(answer_check(p.board(), ws, w1) == answer_check(p.board(), ws, w2)) by {
        lemma_letters_fit_same_text(p.board(), w1, w2, 0);
    }
    let ans = p.player_answers@;
    assert(holds(ans, w1) == holds(ans, w2)) by {
        if holds(ans, w1) {
            let j = choose|j: int| 0 <= j < ans.len() && #[trigger] ans[j].same_as(w1);
            assert(ans[j].same_as(w2));
        }
        if holds(ans, w2) {
            let j = choose|j: int| 0 <= j < ans.len() && #[trigger] ans[j].same_as(w2);
            assert(ans[j].same_as(w1));
        }
    }
    let i = crate::puzzle::first_at(ws, w1.placement, 0);
    if p.completion() == Ok::<bool, crate::types::CrosswordError>(false) && i >= 0 && ws[i].same_as(w1)
        && !holds(ans, w1) && answer_check(p.board(), ws, w1) == AnswerCheck::Fits {
        assert(ws[i].same_as(w2));
        let n = p.player_answers@.len();
        assert(a1.puzzle.player_answers@ == p.player_answers@.push(w1));
        assert(a2.puzzle.player_answers@ == p.player_answers@.push(w2));
        assert forall|q: int| 0 <= q < n + 1 implies holds(ws, #[trigger] a1.puzzle.player_answers@[q]) == holds(
            ws,
            a2.puzzle.player_answers@[q],
        ) by {
            if q < n {
                assert(a1.puzzle.player_answers@[q] == a2.puzzle.player_answers@[q]);
            } else {
                if holds(ws, w1) {
                    let j = choose|j: int| 0 <= j < ws.len() && #[trigger] ws[j].same_as(w1);
                    assert(ws[j].same_as(w2));
                }
                if holds(ws, w2) {
                    let j = choose|j: int| 0 <= j < ws.len() && #[trigger] ws[j].same_as(w2);
                    assert(ws[j].same_as(w1));
                }
            }
        }
        assert(a1.puzzle.all_answers_right() == a2.puzzle.all_answers_right()) by {
            if a1.puzzle.all_answers_right() {
                assert forall|q: int| 0 <= q < n + 1 implies holds(a2.puzzle.solution.words@, #[trigger] a2.puzzle.player_answers@[q]) by {
                    assert(holds(ws, a1.puzzle.player_answers@[q]));
                }
            }
            if a2.puzzle.all_answers_right() {
                assert forall|q: int| 0 <= q < n + 1 implies holds(a1.puzzle.solution.words@, #[trigger] a1.puzzle.player_answers@[q]) by {
                    assert(holds(ws, a2.puzzle.player_answers@[q]));
                }
            }
        }
    }
}

/// The letter check of an answer depends only on its placement and text.
pub proof fn lemma_letters_fit_same_text(b: crate::puzzle::Board, w1: PlacedWord, w2: PlacedWord, k: int)
    requires
        w1.placement == w2.placement,
        w1.word.text@ == w2.word.text@,
    ensures
        crate::puzzle::letters_fit(b, w1, k) == crate::puzzle::letters_fit(b, w2, k),
    decreases w1.word.text@.len() - k,
{
    if 0 <= k < w1.word.text@.len() {
        lemma_letters_fit_same_text(b, w1, w2, k + 1);
    }
}

} // verus!

verus! {

/// Whether every letter of `pw` stands in the grid `g`, on its space.
pub open spec fn letters_on(g: CharGrid, pw: PlacedWord) -> bool {
    forall|i: int| 0 <= i < pw.word.text@.len() ==> {
        let (r, c) = #[trigger] cell_of(pw, i);
        &&& 0 <= r < g.len()
        &&& 0 <= c < g[r].len()
        &&& g[r][c] == Some(pw.word.text@[i])
    }
}

/// When replaying words accepts them all, every word's letters stand on the grid built, and
/// no two of the words share a placement.
pub proof fn lemma_replay_letters(w: int, h: int, ws: Seq<PlacedWord>)
    requires
        replay(w, h, ws).0 == Outcome::Accepted,
    ensures
        forall|k: int| 0 <= k < ws.len() ==> letters_on(replay(w, h, ws).1, #[trigger] ws[k]),
        forall|j: int, k: int| 0 <= j < k < ws.len() ==> (#[trigger] ws[j]).placement != (#[trigger] ws[k]).placement,
    decreases ws.len(),
{
    if ws.len() > 0 {
        let prev = replay(w, h, ws.drop_last());
        lemma_replay_letters(w, h, ws.drop_last());
        let g = prev.1;
        let pw = ws.last();
        let s = pw.word.text@;
        let d = pw.placement.direction;
        let line = pw.line();
        let start = pw.start();
        let n = s.len() as int;
        let edge = (if d == Direction::Horizontal { h } else { w }) - 1;
        assert(letters_check(g, ws.drop_last(), s, d, line, start, edge, 0) == Outcome::Accepted);
        lemma_letters_agree(g, ws.drop_last(), s, d, line, start, edge, 0);
        lemma_overlap_disjoint(ws.drop_last(), d, line, start, n, 0);
        let g2 = replay(w, h, ws).1;
        assert(g2 == write_word(g, s, d, line, start));
        assert forall|k: int| 0 <= k < ws.len() implies letters_on(g2, #[trigger] ws[k]) by {
            let pk = ws[k];
            assert forall|i: int| 0 <= i < pk.word.text@.len() implies {
                let (r, c) = #[trigger] cell_of(pk, i);
                &&& 0 <= r < g2.len()
                &&& 0 <= c < g2[r].len()
                &&& g2[r][c] == Some(pk.word.text@[i])
            } by {
                let (r, c) = cell_of(pk, i);
                if k < ws.len() - 1 {
                    assert(ws.drop_last()[k] == pk);
                    assert(letters_on(g, ws.drop_last()[k]));
                    if covers(d, line, start, n, r, c) {
                        let o = offset(d, start, r, c);
                        assert(in_grid(g, d, line, start + o));
                    }
                } else {
                    assert(pk == pw);
                    assert(in_grid(g, d, line, start + i));
                    assert(covers(d, line, start, n, r, c));
                }
            }
        }
        assert forall|j: int, k: int| 0 <= j < k < ws.len() implies (#[trigger] ws[j]).placement != (#[trigger] ws[k]).placement by {
            if k < ws.len() - 1 {
                assert(ws.drop_last()[j] == ws[j] && ws.drop_last()[k] == ws[k]);
            } else if ws[j].placement == pw.placement {
                assert(ws.drop_last()[j] == ws[j]);
            }
        }
    }
}

/// Whether the board agrees with the grid: the same shape, a slot exactly where the grid
/// has a letter, and every letter put on the board is the grid's letter there.
pub open spec fn board_agrees(b: Board, g: CharGrid) -> bool {
    &&& b.len() == g.len()
    &&& forall|r: int| 0 <= r < b.len() ==> #[trigger] b[r].len() == g[r].len()
    &&& forall|r: int, c: int| 0 <= r < b.len() && 0 <= c < b[r].len() ==> {
        &&& (#[trigger] b[r][c]).has_char_slot == (g[r][c] is Some)
        &&& b[r][c].char_slot matches Some(ch) ==> g[r][c] == Some(ch)
    }
}

/// Rebuilding the board from answers that are all words of the solution, when every word's
/// letters stand on the grid, gives a board that agrees with the grid.
pub proof fn lemma_rebuild_agrees(sol: Solution, ans: Seq<PlacedWord>)
    requires
        forall|k: int| 0 <= k < sol.words@.len() ==> letters_on(sol.cells(), #[trigger] sol.words@[k]),
        forall|q: int| 0 <= q < ans.len() ==> holds(sol.words@, #[trigger] ans[q]),
    ensures
        board_agrees(rebuild(sol, ans).1, sol.cells()),
    decreases ans.len(),
{
    let g = sol.cells();
    if ans.len() == 0 {
        assert(board_agrees(fresh_board(g), g));
    } else {
        assert forall|q: int| 0 <= q < ans.drop_last().len() implies holds(sol.words@, #[trigger] ans.drop_last()[q]) by {
            assert(ans.drop_last()[q] == ans[q]);
        }
        lemma_rebuild_agrees(sol, ans.drop_last());
        let b = rebuild(sol, ans.drop_last()).1;
        let a = ans.last();
        assert(holds(sol.words@, ans[ans.len() - 1]));
        let j = choose|j: int| 0 <= j < sol.words@.len() && #[trigger] sol.words@[j].same_as(a);
        let wj = sol.words@[j];
        assert(letters_on(g, wj));
        let b2 = write_answer(b, a);
        let n = a.word.text@.len() as int;
        assert forall|r: int, c: int| 0 <= r < b2.len() && 0 <= c < b2[r].len() implies {
            &&& (#[trigger] b2[r][c]).has_char_slot == (g[r][c] is Some)
            &&& b2[r][c].char_slot matches Some(ch) ==> g[r][c] == Some(ch)
        } by {
            if answer_covers(a, n, c, r) {
                let o = answer_offset(a, c, r);
                assert(cell_of(wj, o) == (r, c));
            }
        }
        assert(board_agrees(b2, g));
    }
}

/// On a board that agrees with a grid of side at most `usize::MAX`, the letters of a word
/// that stand on the grid fit from `k` on.
pub proof fn lemma_letters_fit_on(b: Board, g: CharGrid, pw: PlacedWord, k: int, w: int)
    requires
        0 <= k,
        board_agrees(b, g),
        letters_on(g, pw),
        w <= usize::MAX,
        g.len() <= w,
        forall|r: int| 0 <= r < g.len() ==> #[trigger] g[r].len() <= w,
    ensures
        letters_fit(b, pw, k) == AnswerCheck::Fits,
    decreases pw.word.text@.len() - k,
{
    if k < pw.word.text@.len() {
        let (r, c) = cell_of(pw, k);
        assert(letter_pos(pw, k) == (c, r));
        assert(g[r].len() <= w);
        lemma_letters_fit_on(b, g, pw, k + 1, w);
    }
}

impl Puzzle {
    /// A puzzle in play: its solution is in shape and passes validation, every answer is a
    /// word of the solution, and the board is the one rebuilt from the answers.
    pub open spec fn in_play(&self) -> bool {
        &&& self.solution.in_shape()
        &&& self.solution.coherent()
        &&& self.all_answers_right()
        &&& rebuild(self.solution, self.player_answers@) == (AnswerCheck::Fits, self.board())
    }
}

/// On a puzzle in play, every word of the solution fits on the board as an answer: a right
/// answer never clashes with the answers already given, and never lacks a slot.
pub proof fn law_right_answer_fits(p: Puzzle, k: int)
    requires
        p.in_play(),
        0 <= k < p.solution.words@.len(),
    ensures
        answer_check(p.board(), p.solution.words@, p.solution.words@[k]) == AnswerCheck::Fits,
{
    let sol = p.solution;
    let ws = sol.words@;
    let g = sol.cells();
    lemma_replay_letters(sol.w(), sol.h(), ws);
    lemma_rebuild_agrees(sol, p.player_answers@);
    lemma_first_at(ws, ws[k].placement, 0);
    let i = first_at(ws, ws[k].placement, 0);
    if i != k {
        assert(ws[i].placement == ws[k].placement);
        if i < k {
            assert(ws[i].placement != ws[k].placement);
        }
    }
    assert(letters_on(g, ws[k]));
    lemma_letters_fit_on(p.board(), g, ws[k], 0, (usize::MAX / 8) as int);
}

/// A puzzle just built on a generated solution, with no answers and a blank board, is in play.
pub proof fn law_new_puzzle_in_play(conf: SolutionConf, p: Puzzle)
    requires
        generated(conf, p.solution),
        p.player_answers@.len() == 0,
        p.board() == fresh_board(p.solution.cells()),
    ensures
        p.in_play(),
{
}

/// In the per-word playmode a puzzle in play stays in play, whatever the guess.
pub proof fn law_per_word_keeps_play(
    pz: PerWordPuzzle,
    word: PlacedWord,
    after: PerWordPuzzle,
    res: Result<GuessResult, crate::types::CrosswordError>,
)
    requires
        pz.puzzle.in_play(),
        pz.guess_outcome(word, after, res),
    ensures
        after.puzzle.in_play(),
{
    law_per_word_answers_stay_right(pz, word, after, res);
    if after != pz {
        let ws = pz.puzzle.solution.words@;
        let i = first_with_text(ws, word.word.text@, 0);
        law_place_answer_keeps_board_rebuilt(pz.puzzle, ws[i]);
    }
}

/// In the placed-word playmode a puzzle in play stays in play, whatever the guess.
pub proof fn law_placed_word_keeps_play(
    pz: PlacedWordPuzzle,
    word: PlacedWord,
    after: PlacedWordPuzzle,
    res: Result<GuessResult, crate::types::CrosswordError>,
)
    requires
        pz.puzzle.in_play(),
        pz.guess_outcome(word, after, res),
    ensures
        after.puzzle.in_play(),
{
    law_placed_word_answers_stay_right(pz, word, after, res);
    if after != pz {
        law_place_answer_keeps_board_rebuilt(pz.puzzle, word);
    }
}

/// A puzzle whose answers are all right and that is not complete has fewer answers than
/// words.
pub proof fn lemma_unfinished_has_room(p: Puzzle)
    requires
        p.all_answers_right(),
        p.completion() == Ok::<bool, crate::types::CrosswordError>(false),
    ensures
        p.player_answers@.len() < p.solution.words@.len(),
{
}

/// In the per-word playmode, on an unfinished puzzle in play, guessing the text of a word of
/// the solution that is not yet answered adds that word to the answers and is answered
/// `Correct`, or `Complete` when it is the last one: never `Conflict`, never an error.
pub proof fn law_per_word_right_guess_counts(
    pz: PerWordPuzzle,
    word: PlacedWord,
    after: PerWordPuzzle,
    res: Result<GuessResult, crate::types::CrosswordError>,
)
    requires
        pz.puzzle.in_play(),
        pz.puzzle.completion() == Ok::<bool, crate::types::CrosswordError>(false),
        first_with_text(pz.puzzle.player_answers@, word.word.text@, 0) < 0,
        first_with_text(pz.puzzle.solution.words@, word.word.text@, 0) >= 0,
        pz.guess_outcome(word, after, res),
    ensures
        res == Ok::<GuessResult, crate::types::CrosswordError>(GuessResult::Correct) || res == Ok::<
            GuessResult,
            crate::types::CrosswordError,
        >(GuessResult::Complete),
        after.puzzle.player_answers@ == pz.puzzle.player_answers@.push(
            pz.puzzle.solution.words@[first_with_text(pz.puzzle.solution.words@, word.word.text@, 0)],
        ),
{
    let ws = pz.puzzle.solution.words@;
    let i = first_with_text(ws, word.word.text@, 0);
    crate::puzzle::lemma_first_with_text(ws, word.word.text@, 0);
    law_right_answer_fits(pz.puzzle, i);
    lemma_unfinished_has_room(pz.puzzle);
}

/// In the placed-word playmode, on an unfinished puzzle in play, a guess that is the
/// solution's word at its placement, and not yet among the answers, is added to the answers and answered `Correct`, or
/// `Complete` when it is the last one: never `Conflict`, never an error.
pub proof fn law_placed_word_right_guess_counts(
    pz: PlacedWordPuzzle,
    word: PlacedWord,
    after: PlacedWordPuzzle,
    res: Result<GuessResult, crate::types::CrosswordError>,
)
    requires
        pz.puzzle.in_play(),
        pz.puzzle.completion() == Ok::<bool, crate::types::CrosswordError>(false),
        holds(pz.puzzle.solution.words@, word),
        !holds(pz.puzzle.player_answers@, word),
        pz.guess_outcome(word, after, res),
    ensures
        res == Ok::<GuessResult, crate::types::CrosswordError>(GuessResult::Correct) || res == Ok::<
            GuessResult,
            crate::types::CrosswordError,
        >(GuessResult::Complete),
        after.puzzle.player_answers@ == pz.puzzle.player_answers@.push(word),
{
    let p = pz.puzzle;
    let ws = p.solution.words@;
    let k = choose|k: int| 0 <= k < ws.len() && #[trigger] ws[k].same_as(word);
    lemma_replay_letters(p.solution.w(), p.solution.h(), ws);
    lemma_first_at(ws, word.placement, 0);
    let i = first_at(ws, word.placement, 0);
    if i != k {
        assert(ws[i].placement == ws[k].placement);
        if i < k {
            assert(ws[i].placement != ws[k].placement);
        }
    }
    law_right_answer_fits(p, k);
    lemma_letters_fit_same_text(p.board(), ws[k], word, 0);
    lemma_unfinished_has_room(p);
}

/// The classic playmode never judges a guess: it answers `Unchecked`, `Conflict` or an
/// error, never `Correct`, `Complete`, `Wrong` or `Repeat`.
pub proof fn law_classic_never_judges(
    pz: ClassicPuzzle,
    word: PlacedWord,
    after: ClassicPuzzle,
    res: Result<GuessResult, crate::types::CrosswordError>,
)
    requires
        pz.guess_outcome(word, after, res),
    ensures
        res is Ok ==> res == Ok::<GuessResult, crate::types::CrosswordError>(GuessResult::Unchecked) || res == Ok::<
            GuessResult,
            crate::types::CrosswordError,
        >(GuessResult::Conflict),
{
}

/// There are no wrong answers exactly when every answer is a word of the solution.
pub proof fn lemma_no_wrong_pairs(ans: Seq<PlacedWord>, ws: Seq<PlacedWord>)
    ensures
        (wrong_pairs(ans, ws) == Some(Seq::<(PlacedWord, PlacedWord)>::empty())) <==> forall|q: int|
            0 <= q < ans.len() ==> holds(ws, #[trigger] ans[q]),
    decreases ans.len(),
{
    if ans.len() > 0 {
        let prefix = ans.drop_last();
        lemma_no_wrong_pairs(prefix, ws);
        if forall|q: int| 0 <= q < ans.len() ==> holds(ws, #[trigger] ans[q]) {
            assert forall|q: int| 0 <= q < prefix.len() implies holds(ws, #[trigger] prefix[q]) by {
                assert(prefix[q] == ans[q]);
            }
            assert(holds(ws, ans[ans.len() - 1]));
        }
        if wrong_pairs(ans, ws) == Some(Seq::<(PlacedWord, PlacedWord)>::empty()) {
            if !holds(ws, ans.last()) {
                if let Some(prev) = wrong_pairs(prefix, ws) {
                    let i = first_at(ws, ans.last().placement, 0);
                    if i >= 0 {
                        assert(prev.push((ans.last(), ws[i])).len() > 0);
                    }
                }
            }
            assert(holds(ws, ans.last()));
            assert forall|q: int| 0 <= q < ans.len() implies holds(ws, #[trigger] ans[q]) by {
                if q < ans.len() - 1 {
                    assert(prefix[q] == ans[q]);
                }
            }
        }
    }
}

/// Completeness and wrong answers agree: with as many answers as words, the puzzle is
/// complete exactly when it has no wrong answers.
pub proof fn law_complete_iff_no_wrong_answers(p: Puzzle)
    requires
        p.player_answers@.len() == p.solution.words@.len(),
    ensures
        (p.completion() == Ok::<bool, crate::types::CrosswordError>(true)) <==> (wrong_pairs(
            p.player_answers@,
            p.solution.words@,
        ) == Some(Seq::<(PlacedWord, PlacedWord)>::empty())),
{
    lemma_no_wrong_pairs(p.player_answers@, p.solution.words@);
}

/// The words of a valid solution are the runs of letters of its grid: the letters of each word
/// stand on the grid, the spaces just before and after each word are blank (or beyond the
/// edge), and any two letters next to each other in a row lie in one horizontal word, and in a
/// column in one vertical word. So, when every word has two or more chars, the horizontal words
/// are exactly the maximal runs of two or more letters in the rows, and the vertical words
/// those in the columns: no word touches another except where they cross.
pub proof fn law_words_are_runs(sol: Solution)
    requires
        sol.coherent(),
        sol.width <= usize::MAX / 8,
        sol.height <= usize::MAX / 8,
    ensures
        runs_are_words(sol.cells(), sol.words@, sol.w(), sol.h()),
{
    let w = sol.w();
    let h = sol.h();
    let ws = sol.words@;
    lemma_replay_inside(w, h, ws);
    lemma_replay_is_direct(w, h, ws);
    lemma_runs_painted(w, h, ws);
}

/// In the build, a word whose turn comes while fewer than `max` words stand, and that fits
/// somewhere on the grid by one of its letters, is placed: it is added after the words already
/// there, which stay as they were.
pub proof fn law_fitting_word_is_placed(before: Solution, w: Word, max: int, after: Solution)
    requires
        fill_step(before, w, max, after),
        before.words@.len() < max,
        exists|ii: int, x: int, y: int| 0 <= ii < w.text@.len() && #[trigger] fits_at(before, w, x, y, ii),
    ensures
        after.words@.len() == before.words@.len() + 1,
        after.words@.last().word == w,
        after.words@.drop_last() == before.words@,
{
    let (ii, x, y, d) = choose|ii: int, x: int, y: int, d: Direction| {
        &&& 0 <= ii < w.text@.len()
        &&& forall|jj: int, c: int, r: int| 0 <= jj < ii ==> !#[trigger] fits_at(before, w, c, r, jj)
        &&& crate::generate::first_fit(before, w, x, y, ii)
        &&& before.fit(w, x, y, ii, d) == Outcome::Accepted
        &&& #[trigger] before.placed(w, x, y, ii, d, after)
    };
    assert(after.words@.drop_last() =~= before.words@);
}

/// In the build, a word that fits nowhere on the grid at its turn, or whose turn comes when
/// `max` words already stand, leaves the solution as it was.
pub proof fn law_unfitting_word_is_skipped(before: Solution, w: Word, max: int, after: Solution)
    requires
        fill_step(before, w, max, after),
        before.words@.len() >= max || forall|ii: int, x: int, y: int| 0 <= ii < w.text@.len() ==> !#[trigger] fits_at(
            before,
            w,
            x,
            y,
            ii,
        ),
    ensures
        after == before,
{
}

/// In the per-word playmode, on an unfinished puzzle, guessing the text of a word already
/// among the answers is answered `Repeat` and changes nothing.
pub proof fn law_per_word_repeat_of_an_answer(
    pz: PerWordPuzzle,
    word: PlacedWord,
    after: PerWordPuzzle,
    res: Result<GuessResult, crate::types::CrosswordError>,
)
    requires
        pz.guess_outcome(word, after, res),
        pz.puzzle.completion() == Ok::<bool, crate::types::CrosswordError>(false),
        exists|q: int|
            0 <= q < pz.puzzle.player_answers@.len() && (#[trigger] pz.puzzle.player_answers@[q]).word.text@ == word.word.text@,
    ensures
        res == Ok::<GuessResult, crate::types::CrosswordError>(GuessResult::Repeat),
        after == pz,
{
    crate::puzzle::lemma_first_with_text(pz.puzzle.player_answers@, word.word.text@, 0);
}

/// In the per-word playmode a guess is a `Repeat` only when its text is that of an answer
/// already given, and `Wrong` only when no word of the solution has its text.
pub proof fn law_per_word_repeat_and_wrong_are_justified(
    pz: PerWordPuzzle,
    word: PlacedWord,
    after: PerWordPuzzle,
    res: Result<GuessResult, crate::types::CrosswordError>,
)
    requires
        pz.guess_outcome(word, after, res),
    ensures
        res == Ok::<GuessResult, crate::types::CrosswordError>(GuessResult::Repeat) ==> exists|q: int|
            0 <= q < pz.puzzle.player_answers@.len() && (#[trigger] pz.puzzle.player_answers@[q]).word.text@ == word.word.text@,
        res == Ok::<GuessResult, crate::types::CrosswordError>(GuessResult::Wrong) ==> forall|j: int|
            0 <= j < pz.puzzle.solution.words@.len() ==> (#[trigger] pz.puzzle.solution.words@[j]).word.text@ != word.word.text@,
{
    crate::puzzle::lemma_first_with_text(pz.puzzle.player_answers@, word.word.text@, 0);
    crate::puzzle::lemma_first_with_text(pz.puzzle.solution.words@, word.word.text@, 0);
}

/// Whether no two of the answers have the same text.
pub open spec fn distinct_texts(ans: Seq<PlacedWord>) -> bool {
    forall|j: int, k: int| 0 <= j < k < ans.len() ==> (#[trigger] ans[j]).word.text@ != (#[trigger] ans[k]).word.text@
}

/// In the per-word playmode the answers never hold the same text twice: a guess keeps the
/// answers' texts distinct.
pub proof fn law_per_word_answers_stay_distinct(
    pz: PerWordPuzzle,
    word: PlacedWord,
    after: PerWordPuzzle,
    res: Result<GuessResult, crate::types::CrosswordError>,
)
    requires
        pz.guess_outcome(word, after, res),
        distinct_texts(pz.puzzle.player_answers@),
    ensures
        distinct_texts(after.puzzle.player_answers@),
{
    let ans = pz.puzzle.player_answers@;
    let ws = pz.puzzle.solution.words@;
    let t = word.word.text@;
    crate::puzzle::lemma_first_with_text(ans, t, 0);
    crate::puzzle::lemma_first_with_text(ws, t, 0);
    if after != pz {
        let i = first_with_text(ws, t, 0);
        let a2 = after.puzzle.player_answers@;
        assert forall|j: int, k: int| 0 <= j < k < a2.len() implies (#[trigger] a2[j]).word.text@ != (#[trigger] a2[k]).word.text@ by {
            assert(a2[j] == ans[j]);
            if k < ans.len() {
                assert(a2[k] == ans[k]);
            } else {
                assert(a2[k] == ws[i]);
            }
        }
    }
}

/// In the classic playmode a guess at a placement that no word of the solution has is an error
/// and changes nothing; a guess at a placement of the solution removes only the answers at that
/// placement: every earlier answer at another placement is kept, and the answers afterwards are
/// earlier answers at other placements or the guess itself.
pub proof fn law_classic_keeps_other_answers(
    pz: ClassicPuzzle,
    word: PlacedWord,
    after: ClassicPuzzle,
    res: Result<GuessResult, crate::types::CrosswordError>,
)
    requires
        pz.guess_outcome(word, after, res),
    ensures
        (forall|j: int| 0 <= j < pz.puzzle.solution.words@.len() ==> (#[trigger] pz.puzzle.solution.words@[j]).placement
            != word.placement) ==> res == Err::<GuessResult, crate::types::CrosswordError>(
            crate::types::CrosswordError::InvalidPlayerGuess,
        ) && after == pz,
        (exists|j: int| 0 <= j < pz.puzzle.solution.words@.len() && (#[trigger] pz.puzzle.solution.words@[j]).placement
            == word.placement) ==> {
            &&& forall|q: int| 0 <= q < pz.puzzle.player_answers@.len() && (#[trigger] pz.puzzle.player_answers@[q]).placement
                != word.placement ==> after.puzzle.player_answers@.contains(pz.puzzle.player_answers@[q])
            &&& forall|k: int| 0 <= k < after.puzzle.player_answers@.len() ==> #[trigger] after.puzzle.player_answers@[k] == word
                || (pz.puzzle.player_answers@.contains(after.puzzle.player_answers@[k])
                && after.puzzle.player_answers@[k].placement != word.placement)
        },
{
    let ans = pz.puzzle.player_answers@;
    let ws = pz.puzzle.solution.words@;
    lemma_first_at(ws, word.placement, 0);
    law_remove_answer_removes_placement(ans, word.placement);
    let ans1 = without_placement(ans, word.placement);
    if exists|j: int| 0 <= j < ws.len() && (#[trigger] ws[j]).placement == word.placement {
        let j = choose|j: int| 0 <= j < ws.len() && (#[trigger] ws[j]).placement == word.placement;
        assert(first_at(ws, word.placement, 0) >= 0);
        let a2 = after.puzzle.player_answers@;
        assert forall|q: int| 0 <= q < ans.len() && (#[trigger] ans[q]).placement != word.placement implies a2.contains(ans[q]) by {
            assert(ans1.contains(ans[q]));
            let m = choose|m: int| 0 <= m < ans1.len() && ans1[m] == ans[q];
            if a2 != ans1 {
                assert(a2 == ans1.push(word));
                assert(a2[m] == ans1[m]);
            }
        }
        assert forall|k: int| 0 <= k < a2.len() implies #[trigger] a2[k] == word || (ans.contains(a2[k]) && a2[k].placement
            != word.placement) by {
            if k < ans1.len() {
                if a2 != ans1 {
                    assert(a2[k] == ans1[k]);
                }
                assert(ans1[k].placement != word.placement);
                assert(ans.contains(ans1[k]));
            }
        }
    }
}

/// The number of answers that are not words of the solution.
pub open spec fn count_wrong(ans: Seq<PlacedWord>, ws: Seq<PlacedWord>) -> nat
    decreases ans.len(),
{
    if ans.len() == 0 {
        0
    } else {
        count_wrong(ans.drop_last(), ws) + if holds(ws, ans.last()) { 0nat } else { 1nat }
    }
}

/// Every answer that is not a word of the solution is reported with a correction: when the
/// wrong answers can be listed, there is one pair per wrong answer, each such answer appears
/// among them, and each pair listed is a wrong answer with a word of the solution at its
/// placement. The list fails (`None`)
/// exactly when some wrong answer stands at a placement that no word of the solution has.
pub proof fn law_wrong_answers_all_reported(ans: Seq<PlacedWord>, ws: Seq<PlacedWord>)
    ensures
        wrong_pairs(ans, ws) matches Some(v) ==> {
            &&& v.len() == count_wrong(ans, ws)
            &&& forall|q: int| 0 <= q < ans.len() && !holds(ws, #[trigger] ans[q]) ==> exists|k: int|
                0 <= k < v.len() && (#[trigger] v[k]).0 == ans[q]
            &&& forall|k: int| 0 <= k < v.len() ==> {
                &&& !holds(ws, (#[trigger] v[k]).0)
                &&& ans.contains(v[k].0)
                &&& ws.contains(v[k].1)
                &&& v[k].1.placement == v[k].0.placement
            }
        },
        wrong_pairs(ans, ws) is None <==> exists|q: int| 0 <= q < ans.len() && !holds(ws, #[trigger] ans[q]) && forall|j: int|
            0 <= j < ws.len() ==> (#[trigger] ws[j]).placement != ans[q].placement,
    decreases ans.len(),
{
    if ans.len() > 0 {
        let prefix = ans.drop_last();
        let a = ans.last();
        law_wrong_answers_all_reported(prefix, ws);
        lemma_first_at(ws, a.placement, 0);
        let i = first_at(ws, a.placement, 0);
        let n = prefix.len() as int;
        assert(ans[n] == a);
        assert forall|q: int| 0 <= q < n implies #[trigger] ans[q] == prefix[q] by {}
        if let Some(prev) = wrong_pairs(prefix, ws) {
            if let Some(v) = wrong_pairs(ans, ws) {
                assert forall|q: int| 0 <= q < ans.len() && !holds(ws, #[trigger] ans[q]) implies exists|k: int|
                    0 <= k < v.len() && (#[trigger] v[k]).0 == ans[q] by {
                    if q < n {
                        assert(prefix[q] == ans[q]);
                        let k = choose|k: int| 0 <= k < prev.len() && (#[trigger] prev[k]).0 == prefix[q];
                        assert(v[k] == prev[k]);
                    } else {
                        assert(v[prev.len() as int] == (a, ws[i]));
                    }
                }
                assert forall|k: int| 0 <= k < v.len() implies {
                    &&& !holds(ws, (#[trigger] v[k]).0)
                    &&& ans.contains(v[k].0)
                    &&& ws.contains(v[k].1)
                    &&& v[k].1.placement == v[k].0.placement
                } by {
                    if k < prev.len() {
                        assert(v[k] == prev[k]);
                        let q = choose|q: int| 0 <= q < prefix.len() && prefix[q] == prev[k].0;
                        assert(ans[q] == prefix[q]);
                    } else {
                        assert(v[k] == (a, ws[i]));
                        assert(ans[n] == a);
                    }
                }
            }
            if wrong_pairs(ans, ws) is None {
                assert(!holds(ws, ans[n]));
            }
            if exists|q: int| 0 <= q < ans.len() && !holds(ws, #[trigger] ans[q]) && forall|j: int|
                0 <= j < ws.len() ==> (#[trigger] ws[j]).placement != ans[q].placement {
                let q = choose|q: int| 0 <= q < ans.len() && !holds(ws, #[trigger] ans[q]) && forall|j: int|
                    0 <= j < ws.len() ==> (#[trigger] ws[j]).placement != ans[q].placement;
                if q < n {
                    assert(prefix[q] == ans[q]);
                    assert(false);
                }
            }
        } else {
            let q = choose|q: int| 0 <= q < prefix.len() && !holds(ws, #[trigger] prefix[q]) && forall|j: int|
                0 <= j < ws.len() ==> (#[trigger] ws[j]).placement != prefix[q].placement;
            assert(ans[q] == prefix[q]);
        }
    }
}

/// In the placed-word playmode, on an unfinished puzzle, a guess at a placement of the solution
/// whose text differs from the solution's word there is answered `Wrong` and changes nothing.
pub proof fn law_placed_word_wrong_guess(
    pz: PlacedWordPuzzle,
    word: PlacedWord,
    after: PlacedWordPuzzle,
    res: Result<GuessResult, crate::types::CrosswordError>,
)
    requires
        pz.guess_outcome(word, after, res),
        pz.puzzle.completion() == Ok::<bool, crate::types::CrosswordError>(false),
        exists|j: int| 0 <= j < pz.puzzle.solution.words@.len() && (#[trigger] pz.puzzle.solution.words@[j]).placement
            == word.placement,
        forall|j: int| 0 <= j < pz.puzzle.solution.words@.len() && (#[trigger] pz.puzzle.solution.words@[j]).placement
            == word.placement ==> pz.puzzle.solution.words@[j].word.text@ != word.word.text@,
    ensures
        res == Ok::<GuessResult, crate::types::CrosswordError>(GuessResult::Wrong),
        after == pz,
{
    let ws = pz.puzzle.solution.words@;
    lemma_first_at(ws, word.placement, 0);
    let j = choose|j: int| 0 <= j < ws.len() && (#[trigger] ws[j]).placement == word.placement;
    let i = first_at(ws, word.placement, 0);
    assert(i >= 0);
    assert(ws[i].placement == word.placement);
}

/// In the placed-word playmode a guess is a `Repeat` only when the same word, at the same
/// placement, is already among the answers.
pub proof fn law_placed_word_repeat_is_justified(
    pz: PlacedWordPuzzle,
    word: PlacedWord,
    after: PlacedWordPuzzle,
    res: Result<GuessResult, crate::types::CrosswordError>,
)
    requires
        pz.guess_outcome(word, after, res),
    ensures
        res == Ok::<GuessResult, crate::types::CrosswordError>(GuessResult::Repeat) ==> exists|q: int|
            0 <= q < pz.puzzle.player_answers@.len() && (#[trigger] pz.puzzle.player_answers@[q]).placement == word.placement
                && pz.puzzle.player_answers@[q].word.text@ == word.word.text@,
{
    let ans = pz.puzzle.player_answers@;
    if res == Ok::<GuessResult, crate::types::CrosswordError>(GuessResult::Repeat) {
        let q = choose|q: int| 0 <= q < ans.len() && #[trigger] ans[q].same_as(word);
        assert(ans[q].placement == word.placement);
    }
}

} // verus!
