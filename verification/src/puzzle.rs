//! The stateful puzzle: a solution, the player's answers and the board shown to the player.

use vstd::prelude::*;
use crate::generate::{failure_owed, generated, success_owed};
use crate::solution::{rows_cells, text_chars, CharGrid, Solution};
use crate::types::{CrosswordError, Direction, PlacedWord, Placement, SolutionConf, SolutionRow};

verus! {

/// A space of the board: whether a letter belongs there (`has_char_slot`) and the letter the
/// player has put there, if any (`char_slot`).
#[derive(Clone, Copy, Debug, PartialEq, Eq, Structural)]
pub struct PuzzleSpace {
    /// The letter the player has put in the space, if any.
    pub char_slot: Option<char>,
    /// Whether the solution has a letter in the space.
    pub has_char_slot: bool,
}

/// One row of the board.
#[derive(Clone, Debug, PartialEq)]
pub struct PuzzleRow {
    /// The spaces of the row, from left to right.
    pub row: Vec<PuzzleSpace>,
}

/// A game: the solution, the player's answers (right or wrong) and the board built from them.
#[derive(Clone, Debug, PartialEq)]
pub struct Puzzle {
    /// The solution the puzzle is built on.
    pub solution: Solution,
    /// The player's answers, in the order they were given.
    pub player_answers: Vec<PlacedWord>,
    /// The board shown to the player.
    pub grid: Vec<PuzzleRow>,
}

/// The spaces of a board, row by row.
pub type Board = Seq<Seq<PuzzleSpace>>;

/// The spaces of a list of rows.
pub open spec fn rows_board(rows: Seq<PuzzleRow>) -> Board {
    rows.map_values(|r: PuzzleRow| r.row@)
}

/// The blank board of a solution grid: a slot wherever the solution has a letter, and no
/// letter put anywhere.
pub open spec fn fresh_board(g: CharGrid) -> Board {
    Seq::new(
        g.len(),
        |r: int| Seq::new(g[r].len(), |c: int| PuzzleSpace { char_slot: None, has_char_slot: g[r][c] is Some }),
    )
}

/// The index of the first word of `ws`, from `from` on, that stands at placement `p`, or -1.
pub open spec fn first_at(ws: Seq<PlacedWord>, p: Placement, from: int) -> int
    decreases ws.len() - from,
{
    if from < 0 || from >= ws.len() {
        -1
    } else if ws[from].placement == p {
        from
    } else {
        first_at(ws, p, from + 1)
    }
}

/// The index of the first word of `ws`, from `from` on, whose text is `t`, or -1.
pub open spec fn first_with_text(ws: Seq<PlacedWord>, t: Seq<char>, from: int) -> int
    decreases ws.len() - from,
{
    if from < 0 || from >= ws.len() {
        -1
    } else if ws[from].word.text@ == t {
        from
    } else {
        first_with_text(ws, t, from + 1)
    }
}

/// Whether `ws` holds a word equal to `a` (same placement and text).
pub open spec fn holds(ws: Seq<PlacedWord>, a: PlacedWord) -> bool {
    exists|j: int| 0 <= j < ws.len() && #[trigger] ws[j].same_as(a)
}

/// What checking an answer against the board comes to.
#[derive(Clone, Copy, Debug, PartialEq, Eq, Structural)]
pub enum AnswerCheck {
    /// The answer fits its placement.
    Fits,
    /// The answer has the wrong length, or differs from a letter already on the board.
    Clash,
    /// A space of the answer has no slot on the board.
    NoSlot,
    /// No word of the solution stands at the answer's placement.
    Unknown,
    /// The check reads outside the board or overflows an index.
    Faulted,
}

/// The position, as (column, row), of letter `k` of the placed word `pw`.
pub open spec fn letter_pos(pw: PlacedWord, k: int) -> (int, int) {
    match pw.placement.direction {
        Direction::Horizontal => (pw.placement.x + k, pw.placement.y as int),
        Direction::Verticle => (pw.placement.x as int, pw.placement.y + k),
    }
}

/// The check of the letters of `pw` from `k` on against the board.
pub open spec fn letters_fit(b: Board, pw: PlacedWord, k: int) -> AnswerCheck
    decreases pw.word.text@.len() - k,
{
    if k < 0 || k >= pw.word.text@.len() {
        AnswerCheck::Fits
    } else {
        let (x, y) = letter_pos(pw, k);
        if x > usize::MAX || y > usize::MAX {
            AnswerCheck::Faulted
        } else if !(y < b.len() && x < b[y].len()) {
            AnswerCheck::Faulted
        } else if !b[y][x].has_char_slot {
            AnswerCheck::NoSlot
        } else if b[y][x].char_slot matches Some(c) && c != pw.word.text@[k] {
            AnswerCheck::Clash
        } else {
            letters_fit(b, pw, k + 1)
        }
    }
}

/// Checking the answer `pw` on board `b` for a solution with words `ws`: the first solution
/// word at the answer's placement must have the same number of chars, and each letter of the
/// answer must meet a slot that is empty or holds the same letter.
pub open spec fn answer_check(b: Board, ws: Seq<PlacedWord>, pw: PlacedWord) -> AnswerCheck {
    let i = first_at(ws, pw.placement, 0);
    if i < 0 {
        AnswerCheck::Unknown
    } else if ws[i].word.text@.len() != pw.word.text@.len() {
        AnswerCheck::Clash
    } else {
        letters_fit(b, pw, 0)
    }
}

/// Whether every letter of `pw` has a space on the board `b`, at coordinates that fit a `usize`.
pub open spec fn span_on_board(b: Board, pw: PlacedWord) -> bool {
    forall|i: int| 0 <= i < pw.word.text@.len() ==> {
        let (x, y) = #[trigger] letter_pos(pw, i);
        0 <= y < b.len() && 0 <= x < b[y].len() && x <= usize::MAX && y <= usize::MAX
    }
}

/// Whether the space at column `c`, row `r` holds one of the first `n` letters of `pw`.
pub open spec fn answer_covers(pw: PlacedWord, n: int, c: int, r: int) -> bool {
    match pw.placement.direction {
        Direction::Horizontal => r == pw.placement.y && pw.placement.x <= c < pw.placement.x + n,
        Direction::Verticle => c == pw.placement.x && pw.placement.y <= r < pw.placement.y + n,
    }
}

/// The index in `pw` of the letter at column `c`, row `r`.
pub open spec fn answer_offset(pw: PlacedWord, c: int, r: int) -> int {
    match pw.placement.direction {
        Direction::Horizontal => c - pw.placement.x,
        Direction::Verticle => r - pw.placement.y,
    }
}

/// The board `b` with the first `n` letters of `pw` put in their spaces.
pub open spec fn write_letters(b: Board, pw: PlacedWord, n: int) -> Board {
    Seq::new(
        b.len(),
        |r: int|
            Seq::new(
                b[r].len(),
                |c: int|
                    if answer_covers(pw, n, c, r) {
                        PuzzleSpace { char_slot: Some(pw.word.text@[answer_offset(pw, c, r)]), has_char_slot: b[r][c].has_char_slot }
                    } else {
                        b[r][c]
                    },
            ),
    )
}

/// The board `b` with the letters of `pw` put in their spaces.
pub open spec fn write_answer(b: Board, pw: PlacedWord) -> Board {
    write_letters(b, pw, pw.word.text@.len() as int)
}

/// Rebuilding the board of a solution from the answers `ans`: starting from the blank board,
/// each answer is checked and written in turn; the outcome of the first check that does not
/// fit, or `Fits`, with the board built so far.
pub open spec fn rebuild(sol: Solution, ans: Seq<PlacedWord>) -> (AnswerCheck, Board)
    decreases ans.len(),
{
    if ans.len() == 0 {
        (AnswerCheck::Fits, fresh_board(sol.cells()))
    } else {
        let prev = rebuild(sol, ans.drop_last());
        match prev.0 {
            AnswerCheck::Fits => {
                let o = answer_check(prev.1, sol.words@, ans.last());
                match o {
                    AnswerCheck::Fits => (AnswerCheck::Fits, write_answer(prev.1, ans.last())),
                    _ => (o, prev.1),
                }
            },
            _ => prev,
        }
    }
}

/// The answers `ans` without those at placement `p`, in order.
pub open spec fn without_placement(ans: Seq<PlacedWord>, p: Placement) -> Seq<PlacedWord>
    decreases ans.len(),
{
    if ans.len() == 0 {
        ans
    } else {
        let rest = without_placement(ans.drop_last(), p);
        if ans.last().placement == p {
            rest
        } else {
            rest.push(ans.last())
        }
    }
}

/// The pairs (answer, correction) for the answers that are not words of the solution, in
/// order; `None` when such an answer's placement has no word in the solution.
pub open spec fn wrong_pairs(ans: Seq<PlacedWord>, ws: Seq<PlacedWord>) -> Option<Seq<(PlacedWord, PlacedWord)>>
    decreases ans.len(),
{
    if ans.len() == 0 {
        Some(Seq::empty())
    } else {
        match wrong_pairs(ans.drop_last(), ws) {
            None => None,
            Some(prev) => {
                let a = ans.last();
                if holds(ws, a) {
                    Some(prev)
                } else {
                    let i = first_at(ws, a.placement, 0);
                    if i < 0 {
                        None
                    } else {
                        Some(prev.push((a, ws[i])))
                    }
                }
            },
        }
    }
}

/// The first match found from `from` is -1 or an index at or after `from` whose word stands
/// at `p`, with no match between `from` and it.
pub proof fn lemma_first_at(ws: Seq<PlacedWord>, p: Placement, from: int)
    requires
        0 <= from,
    ensures
        first_at(ws, p, from) == -1 || (from <= first_at(ws, p, from) < ws.len() && ws[first_at(ws, p, from)].placement == p),
        forall|j: int| from <= j < ws.len() && (first_at(ws, p, from) == -1 || j < first_at(ws, p, from)) ==> #[trigger] ws[j].placement != p,
    decreases ws.len() - from,
{
    if from < ws.len() && ws[from].placement != p {
        lemma_first_at(ws, p, from + 1);
    }
}

/// The first match by text found from `from` is -1 or an index whose word has text `t`.
pub proof fn lemma_first_with_text(ws: Seq<PlacedWord>, t: Seq<char>, from: int)
    requires
        0 <= from,
    ensures
        first_with_text(ws, t, from) == -1 || (from <= first_with_text(ws, t, from) < ws.len()
            && ws[first_with_text(ws, t, from)].word.text@ == t),
        first_with_text(ws, t, from) == -1 ==> forall|j: int| from <= j < ws.len() ==> #[trigger] ws[j].word.text@ != t,
    decreases ws.len() - from,
{
    if from < ws.len() && ws[from].word.text@ != t {
        lemma_first_with_text(ws, t, from + 1);
    }
}

/// The index of the first word of `ws` at placement `p`.
pub(crate) fn find_placement(ws: &Vec<PlacedWord>, p: &Placement) -> (res: Option<usize>)
    ensures
        match res {
            Some(i) => i as int == first_at(ws@, *p, 0) && i < ws@.len(),
            None => first_at(ws@, *p, 0) == -1,
        },
{
    let mut j: usize = 0;
    while j < ws.len()
        invariant
            j <= ws@.len(),
            first_at(ws@, *p, 0) == first_at(ws@, *p, j as int),
        decreases ws@.len() - j,
    {
        if ws[j].placement == *p {
            return Some(j);
        }
        j += 1;
    }
    None
}

/// The index of the first word of `ws` with the text `t`.
pub(crate) fn find_text(ws: &Vec<PlacedWord>, t: &String) -> (res: Option<usize>)
    ensures
        match res {
            Some(i) => i as int == first_with_text(ws@, t@, 0) && i < ws@.len(),
            None => first_with_text(ws@, t@, 0) == -1,
        },
{
    let mut j: usize = 0;
    while j < ws.len()
        invariant
            j <= ws@.len(),
            first_with_text(ws@, t@, 0) == first_with_text(ws@, t@, j as int),
        decreases ws@.len() - j,
    {
        if ws[j].word.text == *t {
            return Some(j);
        }
        j += 1;
    }
    None
}

/// Whether `ws` holds a word equal to `a`.
pub(crate) fn holds_word(ws: &Vec<PlacedWord>, a: &PlacedWord) -> (res: bool)
    ensures
        res == holds(ws@, *a),
{
    let mut j: usize = 0;
    while j < ws.len()
        invariant
            j <= ws@.len(),
            forall|q: int| 0 <= q < j ==> !(#[trigger] ws@[q].same_as(*a)),
        decreases ws@.len() - j,
    {
        if ws[j] == *a {
            return true;
        }
        j += 1;
    }
    false
}

/// Putting the next letter of an answer on the board that holds its first `k` letters gives
/// the board that holds its first `k + 1` letters.
pub proof fn lemma_answer_step(b: Board, pw: PlacedWord, k: int)
    requires
        0 <= k < pw.word.text@.len(),
        ({
            let (x, y) = letter_pos(pw, k);
            0 <= y < b.len() && 0 <= x < b[y].len()
        }),
    ensures
        ({
            let (x, y) = letter_pos(pw, k);
            let b1 = write_letters(b, pw, k);
            write_letters(b, pw, k + 1) == b1.update(
                y,
                b1[y].update(x, PuzzleSpace { char_slot: Some(pw.word.text@[k]), has_char_slot: b1[y][x].has_char_slot }),
            )
        }),
{
    let (x, y) = letter_pos(pw, k);
    let b1 = write_letters(b, pw, k);
    let b2 = write_letters(b, pw, k + 1);
    let b3 = b1.update(
        y,
        b1[y].update(x, PuzzleSpace { char_slot: Some(pw.word.text@[k]), has_char_slot: b1[y][x].has_char_slot }),
    );
    assert forall|r: int| 0 <= r < b2.len() implies b2[r] =~= b3[r] by {}
    assert(b2 =~= b3);
}

/// When the letter check fits from `k` on, each letter's space from `k` on lies on the board.
pub proof fn lemma_letters_fit_in(b: Board, pw: PlacedWord, k: int)
    requires
        0 <= k,
        letters_fit(b, pw, k) == AnswerCheck::Fits,
    ensures
        forall|i: int| k <= i < pw.word.text@.len() ==> {
            let (x, y) = #[trigger] letter_pos(pw, i);
            0 <= y < b.len() && 0 <= x < b[y].len() && x <= usize::MAX && y <= usize::MAX
        },
    decreases pw.word.text@.len() - k,
{
    if k < pw.word.text@.len() {
        lemma_letters_fit_in(b, pw, k + 1);
    }
}

/// The letter check of an answer never finds its placement unknown.
pub proof fn lemma_letters_fit_known(b: Board, pw: PlacedWord, k: int)
    ensures
        letters_fit(b, pw, k) != AnswerCheck::Unknown,
    decreases pw.word.text@.len() - k,
{
    if 0 <= k < pw.word.text@.len() {
        lemma_letters_fit_known(b, pw, k + 1);
    }
}

/// Once a rebuild stops fitting, rebuilding from more answers does not change its outcome.
pub proof fn lemma_rebuild_stuck(sol: Solution, ans: Seq<PlacedWord>, j: int)
    requires
        0 <= j <= ans.len(),
        rebuild(sol, ans.take(j)).0 != AnswerCheck::Fits,
    ensures
        rebuild(sol, ans) == rebuild(sol, ans.take(j)),
    decreases ans.len(),
{
    if j == ans.len() {
        assert(ans.take(j) =~= ans);
    } else {
        assert(ans.drop_last().take(j) =~= ans.take(j));
        lemma_rebuild_stuck(sol, ans.drop_last(), j);
    }
}

impl Puzzle {
    /// The spaces of the board, row by row.
    pub open spec fn board(&self) -> Board {
        rows_board(self.grid@)
    }

    /// The blank board of a solution grid.
    fn new_grid(grid: &Vec<SolutionRow>) -> (res: Vec<PuzzleRow>)
        ensures
            rows_board(res@) == fresh_board(rows_cells(grid@)),
    {
        let mut result: Vec<PuzzleRow> = Vec::new();
        let mut y: usize = 0;
        while y < grid.len()
            invariant
                y <= grid@.len(),
                result@.len() == y,
                forall|r: int| 0 <= r < y ==> #[trigger] result@[r].row@ == fresh_board(rows_cells(grid@))[r],
            decreases grid@.len() - y,
        {
            let row = &grid[y].row;
            let mut spaces: Vec<PuzzleSpace> = Vec::new();
            let mut c: usize = 0;
            while c < row.len()
                invariant
                    c <= row@.len(),
                    spaces@.len() == c,
                    forall|q: int| 0 <= q < c ==> #[trigger] spaces@[q] == (PuzzleSpace { char_slot: None, has_char_slot: row@[q] is Some }),
                decreases row@.len() - c,
            {
                let next = PuzzleSpace { has_char_slot: row[c].is_some(), char_slot: None };
                spaces.push(next);
                c += 1;
            }
            assert(rows_cells(grid@)[y as int] == row@);
            assert(spaces@ =~= fresh_board(rows_cells(grid@))[y as int]);
            result.push(PuzzleRow { row: spaces });
            y += 1;
        }
        assert(rows_board(result@) =~= fresh_board(rows_cells(grid@)));
        result
    }

    /// Checks an answer against the board (see [`answer_check`]): `Ok(Some(()))` when it fits,
    /// `Ok(None)` when it has the wrong length or differs from letters already there,
    /// `Err(GridStateError)` when one of its spaces has no slot, and `Err(InvalidPlayerGuess)`
    /// when no word of the solution stands at its placement.
    fn check_place_answer(&self, placed_word: &PlacedWord) -> (res: Result<Option<()>, CrosswordError>)
        requires
            answer_check(self.board(), self.solution.words@, *placed_word) != AnswerCheck::Faulted,
        ensures
            res == answer_result(answer_check(self.board(), self.solution.words@, *placed_word)),
    {
        match check_answer(&self.grid, &self.solution.words, placed_word) {
            AnswerCheck::Fits => Ok(Some(())),
            AnswerCheck::Clash => Ok(None),
            AnswerCheck::NoSlot => Err(CrosswordError::GridStateError),
            _ => Err(CrosswordError::InvalidPlayerGuess),
        }
    }

    /// Puts the letters of an answer on the board.
    fn place_answer_on_grid(&mut self, placed_word: &PlacedWord)
        requires
            span_on_board(old(self).board(), *placed_word),
        ensures
            final(self).board() == write_answer(old(self).board(), *placed_word),
            final(self).solution == old(self).solution,
            final(self).player_answers == old(self).player_answers,
    {
        write_answer_on(&mut self.grid, placed_word);
    }
}

impl Puzzle {
    /// Rebuilds the board from the player's answers (see [`rebuild`]), so that an application
    /// can render it again. When an answer does not fit, the board is left blank and the
    /// result is `Err(GridStateError)`.
    pub fn grid_from_answers(&mut self) -> (res: Result<(), CrosswordError>)
        requires
            rebuild(old(self).solution, old(self).player_answers@).0 != AnswerCheck::Faulted,
        ensures
            final(self).solution == old(self).solution,
            final(self).player_answers == old(self).player_answers,
            res is Ok <==> rebuild(old(self).solution, old(self).player_answers@).0 == AnswerCheck::Fits,
            res is Ok ==> final(self).board() == rebuild(old(self).solution, old(self).player_answers@).1,
            res is Err ==> res == Err::<(), CrosswordError>(CrosswordError::GridStateError)
                && final(self).board() == fresh_board(old(self).solution.cells()),
    {
        let ghost sol = self.solution;
        let ghost ans = self.player_answers@;
        self.grid = Puzzle::new_grid(&self.solution.grid);
        assert(ans.take(0) =~= Seq::<PlacedWord>::empty());
        let mut i: usize = 0;
        while i < self.player_answers.len()
            invariant
                self.solution == sol,
                sol == old(self).solution,
                self.player_answers == old(self).player_answers,
                self.player_answers@ == ans,
                i <= ans.len(),
                rebuild(sol, ans).0 != AnswerCheck::Faulted,
                rebuild(sol, ans.take(i as int)) == (AnswerCheck::Fits, self.board()),
            decreases ans.len() - i,
        {
            let word = self.player_answers[i].clone();
            proof {
                assert(ans.take(i + 1).drop_last() =~= ans.take(i as int));
                assert(ans.take(i + 1).last() == ans[i as int]);
                if answer_check(self.board(), sol.words@, word) != AnswerCheck::Fits {
                    lemma_rebuild_stuck(sol, ans, i + 1);
                }
            }
            match self.check_place_answer(&word) {
                Ok(Some(_)) => {
                    proof {
                        lemma_letters_fit_in(self.board(), word, 0);
                    }
                    self.place_answer_on_grid(&word);
                },
                _ => {
                    self.grid = Puzzle::new_grid(&self.solution.grid);
                    return Err(CrosswordError::GridStateError);
                },
            }
            i += 1;
        }
        assert(ans.take(ans.len() as int) =~= ans);
        Ok(())
    }

    /// Builds a puzzle on a newly generated solution (see [`Solution::new`]), with no answers
    /// and a blank board.
    pub fn new(conf: SolutionConf) -> (res: Result<Puzzle, CrosswordError>)
        requires
            conf.width <= usize::MAX / 8,
            conf.height <= usize::MAX / 8,
        ensures
            res matches Ok(p) ==> generated(conf, p.solution) && p.player_answers@.len() == 0
                && p.board() == fresh_board(p.solution.cells()),
            res matches Err(e) ==> e == CrosswordError::MaxRetries,
            success_owed(conf) ==> res is Ok,
            failure_owed(conf) ==> res is Err,
    {
        let solution = Solution::new(conf)?;
        let grid: Vec<PuzzleRow> = Puzzle::new_grid(&solution.grid);
        Ok(Puzzle { solution, player_answers: Vec::new(), grid })
    }

    /// Checks the answer (see [`answer_check`]); when it fits, puts it on the board and adds it
    /// to the player's answers and returns `Ok(Some(()))`. Returns `Ok(None)` when it has the
    /// wrong length or would overwrite other letters, `Err(InvalidPlayerGuess)` when its
    /// placement is not one of the solution's, and `Err(GridStateError)` when the board lacks a
    /// slot for it.
    pub fn place_answer(&mut self, placed_word: PlacedWord) -> (res: Result<Option<()>, CrosswordError>)
        requires
            answer_check(old(self).board(), old(self).solution.words@, placed_word) != AnswerCheck::Faulted,
        ensures
            final(self).solution == old(self).solution,
            res == answer_result(answer_check(old(self).board(), old(self).solution.words@, placed_word)),
            answer_check(old(self).board(), old(self).solution.words@, placed_word) == AnswerCheck::Fits ==> {
                &&& final(self).player_answers@ == old(self).player_answers@.push(placed_word)
                &&& final(self).board() == write_answer(old(self).board(), placed_word)
            },
            answer_check(old(self).board(), old(self).solution.words@, placed_word) != AnswerCheck::Fits ==> *final(self)
                == *old(self),
    {
        match self.check_place_answer(&placed_word)? {
            Some(_) => {
                proof {
                    lemma_letters_fit_in(self.board(), placed_word, 0);
                }
                self.place_answer_on_grid(&placed_word);
                self.player_answers.push(placed_word);
                Ok(Some(()))
            },
            None => Ok(None),
        }
    }

    /// Removes the answers at `placement`, then rebuilds the board from the answers left
    /// (see [`Puzzle::grid_from_answers`]).
    pub fn remove_answer(&mut self, placement: &Placement) -> (res: Result<(), CrosswordError>)
        requires
            rebuild(old(self).solution, without_placement(old(self).player_answers@, *placement)).0 != AnswerCheck::Faulted,
        ensures
            final(self).solution == old(self).solution,
            final(self).player_answers@ == without_placement(old(self).player_answers@, *placement),
            res is Ok <==> rebuild(old(self).solution, final(self).player_answers@).0 == AnswerCheck::Fits,
            res is Ok ==> final(self).board() == rebuild(old(self).solution, final(self).player_answers@).1,
            res is Err ==> res == Err::<(), CrosswordError>(CrosswordError::GridStateError)
                && final(self).board() == fresh_board(old(self).solution.cells()),
    {
        self.player_answers = retain_other_placements(&self.player_answers, placement);
        self.grid_from_answers()?;
        Ok(())
    }

    /// Whether the player's answers are all words of the solution, and as many. Returns
    /// `Ok(false)` while there are fewer answers than words, and `Err(MoreAnswersThanWords)`
    /// when there are more.
    pub fn is_complete(&self) -> (res: Result<bool, CrosswordError>)
        ensures
            res == self.completion(),
    {
        let n_answers = self.player_answers.len();
        let n_words = self.solution.words.len();
        if n_answers < n_words {
            Ok(false)
        } else if n_answers == n_words {
            let mut i: usize = 0;
            while i < n_answers
                invariant
                    n_answers == self.player_answers@.len(),
                    n_answers == self.solution.words@.len(),
                    i <= n_answers,
                    forall|q: int| 0 <= q < i ==> holds(self.solution.words@, #[trigger] self.player_answers@[q]),
                decreases n_answers - i,
            {
                if !holds_word(&self.solution.words, &self.player_answers[i]) {
                    return Ok(false);
                }
                i += 1;
            }
            Ok(true)
        } else {
            Err(CrosswordError::MoreAnswersThanWords)
        }
    }

    /// What [`Puzzle::is_complete`] answers: `Ok(false)` while there are fewer answers than
    /// words, whether every answer is a word of the solution when there are as many, and
    /// `Err(MoreAnswersThanWords)` when there are more.
    pub open spec fn completion(&self) -> Result<bool, CrosswordError> {
        if self.player_answers@.len() < self.solution.words@.len() {
            Ok(false)
        } else if self.player_answers@.len() == self.solution.words@.len() {
            Ok(self.all_answers_right())
        } else {
            Err(CrosswordError::MoreAnswersThanWords)
        }
    }

    /// Whether every player answer is a word of the solution.
    pub open spec fn all_answers_right(&self) -> bool {
        forall|q: int| 0 <= q < self.player_answers@.len() ==> holds(self.solution.words@, #[trigger] self.player_answers@[q])
    }

    /// The player's answers that are not words of the solution, each with the solution's
    /// word at its placement (see [`wrong_pairs`]); `Err(InvalidPlayerGuess)` when such an
    /// answer's placement has no word in the solution.
    pub fn wrong_answers_and_solutions(&self) -> (res: Result<Vec<(PlacedWord, PlacedWord)>, CrosswordError>)
        ensures
            match wrong_pairs(self.player_answers@, self.solution.words@) {
                Some(pairs) => res matches Ok(v) && v@ == pairs,
                None => res == Err::<Vec<(PlacedWord, PlacedWord)>, CrosswordError>(CrosswordError::InvalidPlayerGuess),
            },
    {
        let ghost ans = self.player_answers@;
        let ghost ws = self.solution.words@;
        let mut result: Vec<(PlacedWord, PlacedWord)> = Vec::new();
        let mut i: usize = 0;
        assert(ans.take(0) =~= Seq::<PlacedWord>::empty());
        while i < self.player_answers.len()
            invariant
                ans == self.player_answers@,
                ws == self.solution.words@,
                i <= ans.len(),
                wrong_pairs(ans.take(i as int), ws) == Some(result@),
            decreases ans.len() - i,
        {
            let word = &self.player_answers[i];
            proof {
                assert(ans.take(i + 1).drop_last() =~= ans.take(i as int));
                assert(ans.take(i + 1).last() == ans[i as int]);
            }
            if !holds_word(&self.solution.words, word) {
                let correction = if let Some(c) = find_placement(&self.solution.words, &word.placement) {
                    self.solution.words[c].clone()
                } else {
                    proof {
                        lemma_wrong_pairs_stuck(ans, ws, i + 1);
                    }
                    return Err(CrosswordError::InvalidPlayerGuess);
                };
                result.push((word.clone(), correction));
            }
            i += 1;
        }
        assert(ans.take(ans.len() as int) =~= ans);
        Ok(result)
    }
}

/// The answers without those at `placement`, in order.
pub(crate) fn retain_other_placements(answers: &Vec<PlacedWord>, placement: &Placement) -> (res: Vec<PlacedWord>)
    ensures
        res@ == without_placement(answers@, *placement),
{
    let mut kept: Vec<PlacedWord> = Vec::new();
    let mut i: usize = 0;
    assert(answers@.take(0) =~= Seq::<PlacedWord>::empty());
    while i < answers.len()
        invariant
            i <= answers@.len(),
            kept@ == without_placement(answers@.take(i as int), *placement),
        decreases answers@.len() - i,
    {
        proof {
            assert(answers@.take(i + 1).drop_last() =~= answers@.take(i as int));
            assert(answers@.take(i + 1).last() == answers@[i as int]);
        }
        if answers[i].placement != *placement {
            kept.push(answers[i].clone());
        }
        i += 1;
    }
    assert(answers@.take(answers@.len() as int) =~= answers@);
    kept
}

/// Once the wrong pairs cannot be formed, more answers do not change that.
pub proof fn lemma_wrong_pairs_stuck(ans: Seq<PlacedWord>, ws: Seq<PlacedWord>, j: int)
    requires
        0 <= j <= ans.len(),
        wrong_pairs(ans.take(j), ws) is None,
    ensures
        wrong_pairs(ans, ws) is None,
    decreases ans.len(),
{
    if j == ans.len() {
        assert(ans.take(j) =~= ans);
    } else {
        assert(ans.drop_last().take(j) =~= ans.take(j));
        lemma_wrong_pairs_stuck(ans.drop_last(), ws, j);
    }
}

/// The result that checking an answer returns for each outcome.
pub open spec fn answer_result(o: AnswerCheck) -> Result<Option<()>, CrosswordError> {
    match o {
        AnswerCheck::Fits => Ok(Some(())),
        AnswerCheck::Clash => Ok(None),
        AnswerCheck::NoSlot => Err(CrosswordError::GridStateError),
        _ => Err(CrosswordError::InvalidPlayerGuess),
    }
}

/// Checks the answer `pw` against `board` for a solution with words `ws` (see
/// [`answer_check`]), without reading outside the board: an answer that would reach outside it
/// is `Faulted`.
pub fn check_answer(board: &Vec<PuzzleRow>, ws: &Vec<PlacedWord>, pw: &PlacedWord) -> (res: AnswerCheck)
    ensures
        res == answer_check(rows_board(board@), ws@, *pw),
{
    let ghost b = rows_board(board@);
    match find_placement(ws, &pw.placement) {
        None => AnswerCheck::Unknown,
        Some(i) => {
            if ws[i].word.text.as_str().unicode_len() != pw.word.text.as_str().unicode_len() {
                return AnswerCheck::Clash;
            }
            let letters = text_chars(&pw.word.text);
            let n = letters.len();
            let mut k: usize = 0;
            while k < n
                invariant
                    letters@ == pw.word.text@,
                    n == letters@.len(),
                    k <= n,
                    b == rows_board(board@),
                    answer_check(b, ws@, *pw) == letters_fit(b, *pw, k as int),
                decreases n - k,
            {
                let (x, y) = match pw.placement.direction {
                    Direction::Horizontal => {
                        if pw.placement.x > usize::MAX - k {
                            return AnswerCheck::Faulted;
                        }
                        (pw.placement.x + k, pw.placement.y)
                    },
                    Direction::Verticle => {
                        if pw.placement.y > usize::MAX - k {
                            return AnswerCheck::Faulted;
                        }
                        (pw.placement.x, pw.placement.y + k)
                    },
                };
                if y >= board.len() {
                    return AnswerCheck::Faulted;
                }
                assert(b[y as int] == board@[y as int].row@);
                if x >= board[y].row.len() {
                    return AnswerCheck::Faulted;
                }
                let space = board[y].row[x];
                if !space.has_char_slot {
                    return AnswerCheck::NoSlot;
                }
                if let Some(current_char) = space.char_slot {
                    if current_char != letters[k] {
                        return AnswerCheck::Clash;
                    }
                }
                k += 1;
            }
            AnswerCheck::Fits
        },
    }
}

/// Puts the letters of an answer on the board.
pub(crate) fn write_answer_on(board: &mut Vec<PuzzleRow>, placed_word: &PlacedWord)
    requires
        span_on_board(rows_board(old(board)@), *placed_word),
    ensures
        rows_board(final(board)@) == write_answer(rows_board(old(board)@), *placed_word),
{
    let ghost b0 = rows_board(board@);
    proof {
        assert(write_letters(b0, *placed_word, 0) =~~= b0);
    }
    let letters = text_chars(&placed_word.word.text);
    let mut word_index: usize = 0;
    while word_index < letters.len()
        invariant
            letters@ == placed_word.word.text@,
            word_index <= letters@.len(),
            forall|i: int| 0 <= i < placed_word.word.text@.len() ==> {
                let (x, y) = #[trigger] letter_pos(*placed_word, i);
                0 <= y < b0.len() && 0 <= x < b0[y].len() && x <= usize::MAX && y <= usize::MAX
            },
            rows_board(board@) == write_letters(b0, *placed_word, word_index as int),
        decreases letters@.len() - word_index,
    {
        let ghost pos = letter_pos(*placed_word, word_index as int);
        assert(0 <= pos.1 < b0.len() && 0 <= pos.0 < b0[pos.1].len());
        let (x, y) = match placed_word.placement.direction {
            Direction::Horizontal => (placed_word.placement.x + word_index, placed_word.placement.y),
            Direction::Verticle => (placed_word.placement.x, placed_word.placement.y + word_index),
        };
        assert(x as int == pos.0 && y as int == pos.1);
        assert(rows_board(board@).len() == b0.len());
        assert(rows_board(board@)[y as int].len() == b0[y as int].len());
        assert(rows_board(board@)[y as int] == board@[y as int].row@);
        board[y].row[x].char_slot = Some(letters[word_index]);
        proof {
            lemma_answer_step(b0, *placed_word, word_index as int);
            assert(rows_board(board@) =~~= write_letters(b0, *placed_word, word_index + 1));
        }
        word_index += 1;
    }
}

/// Rebuilds the board of `sol` from `answers` (see [`rebuild`]) without reading outside it:
/// the outcome, and the board built so far.
pub fn rebuild_board(sol: &Solution, answers: &Vec<PlacedWord>) -> (res: (AnswerCheck, Vec<PuzzleRow>))
    ensures
        (res.0, rows_board(res.1@)) == rebuild(*sol, answers@),
{
    let ghost ans = answers@;
    let mut board = Puzzle::new_grid(&sol.grid);
    assert(ans.take(0) =~= Seq::<PlacedWord>::empty());
    let mut i: usize = 0;
    while i < answers.len()
        invariant
            ans == answers@,
            i <= ans.len(),
            rebuild(*sol, ans.take(i as int)) == (AnswerCheck::Fits, rows_board(board@)),
        decreases ans.len() - i,
    {
        proof {
            assert(ans.take(i + 1).drop_last() =~= ans.take(i as int));
            assert(ans.take(i + 1).last() == ans[i as int]);
        }
        match check_answer(&board, &sol.words, &answers[i]) {
            AnswerCheck::Fits => {
                proof {
                    lemma_letters_fit_in(rows_board(board@), answers[i as int], 0);
                }
                write_answer_on(&mut board, &answers[i]);
            },
            other => {
                proof {
                    lemma_rebuild_stuck(*sol, ans, i + 1);
                }
                return (other, board);
            },
        }
        i += 1;
    }
    assert(ans.take(ans.len() as int) =~= ans);
    (AnswerCheck::Fits, board)
}

/// Whether removing the answers at `placement` from `p` rebuilds the board without reading
/// outside it (what [`Puzzle::remove_answer`] requires).
pub fn remove_allowed(p: &Puzzle, placement: &Placement) -> (res: bool)
    ensures
        res == (rebuild(p.solution, without_placement(p.player_answers@, *placement)).0 != AnswerCheck::Faulted),
{
    let others = retain_other_placements(&p.player_answers, placement);
    let (outcome, _) = rebuild_board(&p.solution, &others);
    match outcome {
        AnswerCheck::Faulted => false,
        _ => true,
    }
}

/// Whether letter `k` of the answer `pw` can go on the board `b`: its space has a slot, empty or
/// holding that letter.
pub open spec fn letter_takes(b: Board, pw: PlacedWord, k: int) -> bool {
    let (x, y) = letter_pos(pw, k);
    &&& b[y][x].has_char_slot
    &&& b[y][x].char_slot matches Some(c) ==> c == pw.word.text@[k]
}

/// Whether the answer `pw` fits, stated directly: some word of the solution stands at its
/// placement, the first such word has as many chars, and each letter of the answer can go on
/// the board (see [`letter_takes`]).
pub open spec fn answer_fits_directly(b: Board, ws: Seq<PlacedWord>, pw: PlacedWord) -> bool {
    let i = first_at(ws, pw.placement, 0);
    &&& i >= 0
    &&& ws[i].word.text@.len() == pw.word.text@.len()
    &&& forall|k: int| 0 <= k < pw.word.text@.len() ==> #[trigger] letter_takes(b, pw, k)
}

/// When the answer's letters all have spaces on the board, the letter check from `k` on fits
/// exactly when each of those letters can go on the board.
pub proof fn lemma_letters_fit_direct(b: Board, pw: PlacedWord, k: int)
    requires
        0 <= k,
        span_on_board(b, pw),
    ensures
        (letters_fit(b, pw, k) == AnswerCheck::Fits) <==> forall|i: int| k <= i < pw.word.text@.len() ==> #[trigger] letter_takes(b, pw, i),
    decreases pw.word.text@.len() - k,
{
    if k < pw.word.text@.len() {
        lemma_letters_fit_direct(b, pw, k + 1);
        let (x, y) = letter_pos(pw, k);
        assert(0 <= y < b.len() && 0 <= x < b[y].len() && x <= usize::MAX && y <= usize::MAX);
        if forall|i: int| k <= i < pw.word.text@.len() ==> #[trigger] letter_takes(b, pw, i) {
            assert(letter_takes(b, pw, k));
        }
    }
}

/// When the answer's letters all have spaces on the board, checking the answer fits exactly
/// as [`answer_fits_directly`] states.
pub proof fn lemma_answer_check_is_direct(b: Board, ws: Seq<PlacedWord>, pw: PlacedWord)
    requires
        span_on_board(b, pw),
    ensures
        (answer_check(b, ws, pw) == AnswerCheck::Fits) <==> answer_fits_directly(b, ws, pw),
{
    lemma_letters_fit_direct(b, pw, 0);
}

} // verus!
