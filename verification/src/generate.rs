//! Generating solutions: filtering the candidate words, placing the first word, then fitting
//! each following word across the letters already on the grid.

use vstd::prelude::*;
use crate::rng::{random_between, shuffle_words};
use crate::solution::{
    across, along, at, blank_columns, blank_rows, cell_of, covered_by, empty_grid, lemma_first_word, lemma_fit_safe,
    lemma_letters_agree, lemma_overlap_disjoint, lemma_painted_covered, lemma_place_coherent, lemma_place_in_shape,
    letters_check, line_of, offset, origin_of, painted, replay, start_placement, text_chars, write_word, Outcome, Solution,
};
use crate::types::{
    CrosswordError, CrosswordInitialPlacement, CrosswordInitialPlacementStrategy, CrosswordReqs, Direction,
    PlacedWord, SolutionConf, Word, MIN_LETTER_COUNT,
};

verus! {

/// A requested minimum, raised to at least [`MIN_LETTER_COUNT`].
pub open spec fn raised(m: Option<usize>) -> int {
    match m {
        Some(v) => if v >= MIN_LETTER_COUNT {
            v as int
        } else {
            MIN_LETTER_COUNT as int
        },
        None => MIN_LETTER_COUNT as int,
    }
}

/// Whether the first word, of `n` chars, may be placed by `strategy` on a grid of width `w`
/// and height `h`: it has at least `mlc` chars, fits the length of the grid in its direction,
/// the grid is not empty across that direction, and a custom placement keeps it inside the
/// grid.
pub open spec fn initial_fits(strategy: CrosswordInitialPlacementStrategy, w: int, h: int, n: int, mlc: int) -> bool {
    let longest = if strategy.dir() == Direction::Horizontal { w } else { h };
    &&& mlc <= n <= longest
    &&& across(strategy.dir(), w, h) >= 1
    &&& match strategy {
        CrosswordInitialPlacementStrategy::Custom(p) => {
            &&& p.x < w
            &&& p.y < h
            &&& p.direction == Direction::Horizontal ==> p.x + n <= w
            &&& p.direction == Direction::Verticle ==> p.y + n <= h
        },
        _ => true,
    }
}

/// The offsets that centring may draw: each 0 or 1, and 0 where the side is odd.
pub open spec fn offsets_ok(w: int, h: int, xo: int, yo: int) -> bool {
    &&& 0 <= xo <= 1
    &&& 0 <= yo <= 1
    &&& w % 2 != 0 ==> xo == 0
    &&& h % 2 != 0 ==> yo == 0
}

/// Where `strategy` puts the first word of `n` chars on a grid of width `w` and height `h`:
/// the point (x, y) and the index of the letter that stands there. Centring takes the middle
/// row and column, moved back by the drawn offsets `xo`, `yo` on even sides, and the middle
/// letter of the word.
pub open spec fn initial_spot(
    strategy: CrosswordInitialPlacementStrategy,
    w: int,
    h: int,
    n: int,
    xo: int,
    yo: int,
) -> (int, int, int) {
    match strategy {
        CrosswordInitialPlacementStrategy::Center(d) => {
            let mid_y = if h % 2 == 0 { h / 2 - yo } else { h / 2 };
            let mid_x = if w % 2 == 0 { w / 2 - xo } else { w / 2 };
            let off = if d == Direction::Horizontal { xo } else { yo };
            let w_mid = if n % 2 == 0 { n / 2 - off } else { n / 2 };
            (mid_x, mid_y, w_mid)
        },
        CrosswordInitialPlacementStrategy::Custom(p) => (p.x as int, p.y as int, 0),
        CrosswordInitialPlacementStrategy::LowerLeft(d) => if d == Direction::Horizontal {
            (0, h - 1, 0)
        } else {
            (0, h - 1, n - 1)
        },
        CrosswordInitialPlacementStrategy::LowerRight(d) => (w - 1, h - 1, n - 1),
        CrosswordInitialPlacementStrategy::UpperLeft(d) => (0, 0, 0),
        CrosswordInitialPlacementStrategy::UpperRight(d) => if d == Direction::Horizontal {
            (w - 1, 0, n - 1)
        } else {
            (w - 1, 0, 0)
        },
    }
}

/// On a grid with no empty side, the spot of a first word that may be placed keeps the word
/// inside.
pub proof fn lemma_initial_spot_inside(
    strategy: CrosswordInitialPlacementStrategy,
    w: int,
    h: int,
    n: int,
    mlc: int,
    xo: int,
    yo: int,
)
    requires
        initial_fits(strategy, w, h, n, mlc),
        mlc >= 1,
        0 <= w,
        0 <= h,
        offsets_ok(w, h, xo, yo),
    ensures
        ({
            let (x, y, ii) = initial_spot(strategy, w, h, n, xo, yo);
            let d = strategy.dir();
            &&& 0 <= x < w
            &&& 0 <= y < h
            &&& 0 <= ii <= origin_of(d, x, y)
            &&& ii < n
            &&& 0 <= line_of(d, x, y) < across(d, w, h)
            &&& origin_of(d, x, y) - ii + n <= along(d, w, h)
        }),
{
    assert(w >= 1 && h >= 1);
    match strategy {
        CrosswordInitialPlacementStrategy::Center(d) => {
            assert(w % 2 == 0 ==> w == 2 * (w / 2));
            assert(w % 2 != 0 ==> w == 2 * (w / 2) + 1);
            assert(h % 2 == 0 ==> h == 2 * (h / 2));
            assert(h % 2 != 0 ==> h == 2 * (h / 2) + 1);
            assert(n % 2 == 0 ==> n == 2 * (n / 2));
            assert(n % 2 != 0 ==> n == 2 * (n / 2) + 1);
        },
        CrosswordInitialPlacementStrategy::Custom(p) => {},
        CrosswordInitialPlacementStrategy::LowerLeft(d) => {},
        CrosswordInitialPlacementStrategy::LowerRight(d) => {},
        CrosswordInitialPlacementStrategy::UpperLeft(d) => {},
        CrosswordInitialPlacementStrategy::UpperRight(d) => {},
    }
}

impl Solution {
    /// The point and letter index at which `strategy` puts a first word of `count` chars;
    /// centring draws its offsets at random.
    fn initial_spot_of(&self, strategy: &CrosswordInitialPlacementStrategy, count: usize) -> (res: (usize, usize, usize))
        requires
            1 <= self.width,
            1 <= self.height,
            1 <= count,
        ensures
            exists|xo: int, yo: int| {
                &&& offsets_ok(self.w(), self.h(), xo, yo)
                &&& #[trigger] initial_spot(*strategy, self.w(), self.h(), count as int, xo, yo) == (
                    res.0 as int,
                    res.1 as int,
                    res.2 as int,
                )
            },
    {
        let max_x = self.width - 1;
        let max_y = self.height - 1;
        let last_index = count - 1;
        match strategy {
            CrosswordInitialPlacementStrategy::Center(direction) => {
                let rem_y = self.height % 2;
                let y_offset = if rem_y == 0 {
                    random_between(0, 1)
                } else {
                    0
                };
                let mid_y = if rem_y == 0 {
                    (self.height / 2) - y_offset
                } else {
                    self.height / 2
                };
                let rem_x = self.width % 2;
                let x_offset = if rem_x == 0 {
                    random_between(0, 1)
                } else {
                    0
                };
                let mid_x = if rem_x == 0 {
                    (self.width / 2) - x_offset
                } else {
                    self.width / 2
                };
                let w_rem = count % 2;
                let w_mid = match direction {
                    Direction::Horizontal => {
                        if w_rem == 0 {
                            (count / 2) - x_offset
                        } else {
                            count / 2
                        }
                    },
                    Direction::Verticle => {
                        if w_rem == 0 {
                            (count / 2) - y_offset
                        } else {
                            count / 2
                        }
                    },
                };
                assert(initial_spot(*strategy, self.w(), self.h(), count as int, x_offset as int, y_offset as int) == (
                    mid_x as int,
                    mid_y as int,
                    w_mid as int,
                ));
                (mid_x, mid_y, w_mid)
            },
            CrosswordInitialPlacementStrategy::Custom(placement) => {
                assert(initial_spot(*strategy, self.w(), self.h(), count as int, 0, 0) == (
                    placement.x as int,
                    placement.y as int,
                    0int,
                ));
                (placement.x, placement.y, 0)
            },
            CrosswordInitialPlacementStrategy::LowerLeft(direction) => {
                let r = match direction {
                    Direction::Horizontal => (0, max_y, 0),
                    Direction::Verticle => (0, max_y, last_index),
                };
                assert(initial_spot(*strategy, self.w(), self.h(), count as int, 0, 0) == (r.0 as int, r.1 as int, r.2 as int));
                r
            },
            CrosswordInitialPlacementStrategy::LowerRight(_) => {
                assert(initial_spot(*strategy, self.w(), self.h(), count as int, 0, 0) == (
                    max_x as int,
                    max_y as int,
                    last_index as int,
                ));
                (max_x, max_y, last_index)
            },
            CrosswordInitialPlacementStrategy::UpperLeft(_) => {
                assert(initial_spot(*strategy, self.w(), self.h(), count as int, 0, 0) == (0int, 0int, 0int));
                (0, 0, 0)
            },
            CrosswordInitialPlacementStrategy::UpperRight(direction) => {
                let r = match direction {
                    Direction::Horizontal => (max_x, 0, last_index),
                    Direction::Verticle => (max_x, 0, 0),
                };
                assert(initial_spot(*strategy, self.w(), self.h(), count as int, 0, 0) == (r.0 as int, r.1 as int, r.2 as int));
                r
            },
        }
    }

    /// Tries to place the first word by `strategy`; hands the word back when it is shorter than
    /// `min_letter_count`, longer than the grid in its direction, the grid is empty across that
    /// direction, or a custom placement would take it outside the grid.
    pub(crate) fn try_initial_placement(
        &mut self,
        min_letter_count: usize,
        strategy: &CrosswordInitialPlacementStrategy,
        word: Word,
    ) -> (res: Result<(), Word>)
        requires
            old(self).in_shape(),
            old(self).words@.len() == 0,
            old(self).cells() == empty_grid(old(self).w(), old(self).h()),
            min_letter_count >= MIN_LETTER_COUNT,
        ensures
            res is Ok <==> initial_fits(*strategy, old(self).w(), old(self).h(), word.text@.len() as int, min_letter_count as int),
            res matches Err(w) ==> w == word && *final(self) == *old(self),
            res is Ok ==> exists|xo: int, yo: int| {
                let (x, y, ii) = #[trigger] initial_spot(*strategy, old(self).w(), old(self).h(), word.text@.len() as int, xo, yo);
                &&& offsets_ok(old(self).w(), old(self).h(), xo, yo)
                &&& old(self).placed(word, x, y, ii, strategy.dir(), *final(self))
            },
            final(self).in_shape(),
            res is Ok ==> final(self).coherent(),
    {
        let max_letter_count = match strategy.direction() {
            Direction::Horizontal => self.width,
            Direction::Verticle => self.height,
        };
        let count = word.text.as_str().unicode_len();
        if count < min_letter_count || count > max_letter_count {
            return Err(word);
        }
        let across_side = match strategy.direction() {
            Direction::Horizontal => self.height,
            Direction::Verticle => self.width,
        };
        if across_side == 0 {
            return Err(word);
        }
        if let CrosswordInitialPlacementStrategy::Custom(placement) = strategy {
            if placement.x >= self.width {
                return Err(word);
            }
            if placement.y >= self.height {
                return Err(word);
            }
            match placement.direction {
                Direction::Horizontal => {
                    if placement.x + count > self.width {
                        return Err(word);
                    }
                },
                Direction::Verticle => {
                    if placement.y + count > self.height {
                        return Err(word);
                    }
                },
            }
        }
        let (x, y, intersection_index) = self.initial_spot_of(strategy, count);
        let direction = strategy.direction();
        let ghost (xo, yo) = choose|xo: int, yo: int| {
            &&& offsets_ok(self.w(), self.h(), xo, yo)
            &&& #[trigger] initial_spot(*strategy, self.w(), self.h(), count as int, xo, yo) == (
                x as int,
                y as int,
                intersection_index as int,
            )
        };
        proof {
            lemma_initial_spot_inside(*strategy, self.w(), self.h(), count as int, min_letter_count as int, xo, yo);
        }
        let ghost before = *self;
        self._unchecked_place(word, x, y, intersection_index, &direction);
        proof {
            lemma_first_word(before, word, x as int, y as int, intersection_index as int, direction, *self);
        }
        Ok(())
    }
}

/// The index of the last of `ws` that `strategy` may place as the first word, or -1 when
/// there is none.
pub open spec fn last_fitting(ws: Seq<Word>, strategy: CrosswordInitialPlacementStrategy, w: int, h: int, mlc: int) -> int
    decreases ws.len(),
{
    if ws.len() == 0 {
        -1
    } else if initial_fits(strategy, w, h, ws.last().text@.len() as int, mlc) {
        ws.len() - 1
    } else {
        last_fitting(ws.drop_last(), strategy, w, h, mlc)
    }
}

/// The smallest length of the first word under the configuration.
pub open spec fn initial_min(conf: Option<CrosswordInitialPlacement>) -> int {
    match conf {
        Some(ip) => raised(ip.min_letter_count),
        None => MIN_LETTER_COUNT as int,
    }
}

/// Whether `strategy` is one that the configuration may yield: the given strategy, or, when
/// none is given, any strategy but a custom placement.
pub open spec fn strategy_of(conf: Option<CrosswordInitialPlacement>, strategy: CrosswordInitialPlacementStrategy) -> bool {
    match conf {
        Some(ip) => match ip.strategy {
            Some(t) => strategy == t,
            None => !(strategy is Custom),
        },
        None => !(strategy is Custom),
    }
}

/// The last index found by scanning from the end is the last index that fits.
pub proof fn lemma_last_fitting(ws: Seq<Word>, strategy: CrosswordInitialPlacementStrategy, w: int, h: int, mlc: int, m: int)
    requires
        -1 <= m < ws.len(),
        m >= 0 ==> initial_fits(strategy, w, h, ws[m].text@.len() as int, mlc),
        forall|k: int| m < k < ws.len() ==> !initial_fits(strategy, w, h, #[trigger] ws[k].text@.len() as int, mlc),
    ensures
        last_fitting(ws, strategy, w, h, mlc) == m,
    decreases ws.len(),
{
    if ws.len() > 0 && m < ws.len() - 1 {
        assert(!initial_fits(strategy, w, h, ws[ws.len() - 1].text@.len() as int, mlc));
        lemma_last_fitting(ws.drop_last(), strategy, w, h, mlc, m);
    }
}

impl Solution {
    /// Places the first word: scanning the words from the last, the first one that the
    /// strategy may place. Returns the other words, in their order.
    pub(crate) fn place_initial(
        &mut self,
        initial_placement_conf: &Option<CrosswordInitialPlacement>,
        words: Vec<Word>,
    ) -> (res: Result<Vec<Word>, CrosswordError>)
        requires
            old(self).in_shape(),
            old(self).words@.len() == 0,
            old(self).cells() == empty_grid(old(self).w(), old(self).h()),
        ensures
            final(self).in_shape(),
            exists|strategy: CrosswordInitialPlacementStrategy| {
                let p = last_fitting(words@, strategy, old(self).w(), old(self).h(), initial_min(*initial_placement_conf));
                &&& #[trigger] strategy_of(*initial_placement_conf, strategy)
                &&& p < 0 ==> res == Err::<Vec<Word>, CrosswordError>(CrosswordError::NoValidInitialWords)
                    && *final(self) == *old(self)
                &&& p >= 0 ==> (res matches Ok(rest) && {
                    &&& rest@ == words@.remove(p)
                    &&& exists|xo: int, yo: int| {
                        let (x, y, ii) = #[trigger] initial_spot(strategy, old(self).w(), old(self).h(), words@[p].text@.len() as int, xo, yo);
                        &&& offsets_ok(old(self).w(), old(self).h(), xo, yo)
                        &&& old(self).placed(words@[p], x, y, ii, strategy.dir(), *final(self))
                    }
                })
            },
            res is Ok ==> final(self).coherent(),
    {
        let (min_letter_count, strategy) = match initial_placement_conf {
            None => {
                let def = CrosswordInitialPlacement::default();
                (def.min_letter_count.unwrap(), def.strategy.unwrap())
            },
            Some(ip) => {
                let initial_mlc = if let Some(mlc) = ip.min_letter_count {
                    if mlc >= MIN_LETTER_COUNT {
                        mlc
                    } else {
                        MIN_LETTER_COUNT
                    }
                } else {
                    MIN_LETTER_COUNT
                };
                let initial_strat = if let Some(strat) = ip.strategy {
                    strat
                } else {
                    CrosswordInitialPlacementStrategy::default()
                };
                (initial_mlc, initial_strat)
            },
        };
        let ghost orig = words@;
        let ghost w = self.w();
        let ghost h = self.h();
        let ghost start = *self;
        let ghost mlc = min_letter_count as int;
        assert(mlc == initial_min(*initial_placement_conf));
        assert(strategy_of(*initial_placement_conf, strategy));
        let mut words = words;
        let mut skipped_words: Vec<Word> = Vec::new();
        let mut done = false;
        let ghost mut placed_at: int = -1;
        assert(orig.skip(orig.len() as int).reverse() =~= Seq::<Word>::empty());
        while !done
            invariant_except_break
                placed_at == -1,
                *self == start,
                done ==> words@.len() == 0,
            invariant
                words@.len() <= orig.len(),
                words@ == orig.take(words@.len() as int),
                skipped_words@ == orig.skip(placed_at + 1).reverse() || placed_at == -1,
                placed_at == -1 ==> skipped_words@ == orig.skip(words@.len() as int).reverse(),
                placed_at == -1 ==> forall|k: int| words@.len() <= k < orig.len() ==> !initial_fits(
                    strategy,
                    w,
                    h,
                    #[trigger] orig[k].text@.len() as int,
                    mlc,
                ),
                self.in_shape(),
                min_letter_count >= MIN_LETTER_COUNT,
                start.in_shape(),
                start.words@.len() == 0,
                start.cells() == empty_grid(w, h),
                w == start.w(),
                h == start.h(),
                mlc == min_letter_count,
            ensures
                placed_at >= -1,
                done <==> placed_at == -1,
                placed_at == -1 ==> words@.len() == 0 && *self == start,
                placed_at == -1 ==> skipped_words@ == orig.skip(0).reverse(),
                placed_at == -1 ==> forall|k: int| 0 <= k < orig.len() ==> !initial_fits(
                    strategy,
                    w,
                    h,
                    #[trigger] orig[k].text@.len() as int,
                    mlc,
                ),
                placed_at >= 0 ==> {
                    &&& placed_at == words@.len()
                    &&& placed_at < orig.len()
                    &&& initial_fits(strategy, w, h, orig[placed_at].text@.len() as int, mlc)
                    &&& forall|k: int| placed_at < k < orig.len() ==> !initial_fits(
                        strategy,
                        w,
                        h,
                        #[trigger] orig[k].text@.len() as int,
                        mlc,
                    )
                    &&& skipped_words@ == orig.skip(placed_at + 1).reverse()
                    &&& exists|xo: int, yo: int| {
                        let (x, y, ii) = #[trigger] initial_spot(strategy, w, h, orig[placed_at].text@.len() as int, xo, yo);
                        &&& offsets_ok(w, h, xo, yo)
                        &&& start.placed(orig[placed_at], x, y, ii, strategy.dir(), *self)
                    }
                    &&& self.coherent()
                },
            decreases words@.len() + if done { 0int } else { 1int },
        {
            let ghost len_before = words@.len();
            match words.pop() {
                Some(word) => {
                    assert(word == orig[len_before - 1]);
                    match self.try_initial_placement(min_letter_count, &strategy, word) {
                        Ok(_) => {
                            proof {
                                placed_at = len_before - 1;
                                assert(words@ =~= orig.take(words@.len() as int));
                            }
                            break;
                        },
                        Err(w) => {
                            skipped_words.push(w);
                            proof {
                                assert(words@ =~= orig.take(words@.len() as int));
                                assert(skipped_words@ =~= orig.skip(words@.len() as int).reverse());
                            }
                        },
                    }
                },
                None => done = true,
            }
        }
        let ghost p = placed_at;
        if done {
            proof {
                lemma_last_fitting(orig, strategy, w, h, mlc, -1);
            }
            return Err(CrosswordError::NoValidInitialWords);
        }
        let ghost target = orig.remove(p);
        proof {
            lemma_last_fitting(orig, strategy, w, h, mlc, p);
            assert(words@ + skipped_words@.reverse() =~= target);
        }
        while skipped_words.len() > 0
            invariant
                words@ + skipped_words@.reverse() == target,
            decreases skipped_words@.len(),
        {
            let ghost sk = skipped_words@;
            let w = skipped_words.pop().unwrap();
            words.push(w);
            proof {
                assert(words@ + skipped_words@.reverse() =~= target) by {
                    assert(sk.reverse() =~= seq![sk.last()] + sk.drop_last().reverse());
                }
            }
        }
        assert(words@ =~= target);
        Ok(words)
    }
}

/// Whether `word` can be placed with its letter `ii` on the space at column `x`, row `y` of
/// `sol`: the space lies in the grid and holds that letter, and the word fits there in some
/// direction.
pub open spec fn fits_at(sol: Solution, word: Word, x: int, y: int, ii: int) -> bool {
    &&& 0 <= y < sol.cells().len()
    &&& 0 <= x < sol.cells()[y].len()
    &&& sol.cells()[y][x] == Some(word.text@[ii])
    &&& (sol.fit(word, x, y, ii, Direction::Horizontal) == Outcome::Accepted || sol.fit(
        word,
        x,
        y,
        ii,
        Direction::Verticle,
    ) == Outcome::Accepted)
}

/// Whether the space at column `x`, row `y` is the first, row by row from the top and each
/// row from the left, at which `word` can be placed with its letter `ii`.
pub open spec fn first_fit(sol: Solution, word: Word, x: int, y: int, ii: int) -> bool {
    &&& fits_at(sol, word, x, y, ii)
    &&& forall|r: int, c: int| (r < y || (r == y && c < x)) ==> !#[trigger] fits_at(sol, word, c, r, ii)
}

impl Solution {
    /// Places `word` with its letter `intersection_index` on the space at (`col_count`,
    /// `row_count`) when that space holds `letter` and the word fits there.
    fn place_on_column(
        crossword: &mut Solution,
        col_count: usize,
        row_count: usize,
        intersection_index: usize,
        word: &Word,
        letter: &char,
    ) -> (res: Option<()>)
        requires
            old(crossword).in_shape(),
            row_count < old(crossword).height,
            col_count < old(crossword).width,
            1 <= word.text@.len() <= usize::MAX / 8,
            intersection_index < word.text@.len(),
            *letter == word.text@[intersection_index as int],
        ensures
            final(crossword).in_shape(),
            old(crossword).coherent() ==> final(crossword).coherent(),
            res is None ==> *final(crossword) == *old(crossword),
            res is Some <==> fits_at(*old(crossword), *word, col_count as int, row_count as int, intersection_index as int),
            res is Some ==> old(crossword).cells()[row_count as int][col_count as int] == Some(
                word.text@[intersection_index as int],
            ),
            res is Some ==> exists|d: Direction| {
                &&& old(crossword).fit(*word, col_count as int, row_count as int, intersection_index as int, d)
                    == Outcome::Accepted
                &&& #[trigger] old(crossword).placed(
                    *word,
                    col_count as int,
                    row_count as int,
                    intersection_index as int,
                    d,
                    *final(crossword),
                )
            },
    {
        assert(crossword.cells()[row_count as int] == crossword.grid@[row_count as int].row@);
        if let Some(c) = crossword.grid[row_count].row[col_count] {
            if c == *letter {
                proof {
                    lemma_fit_safe(*crossword, *word, col_count as int, row_count as int, intersection_index as int, Direction::Horizontal);
                    lemma_fit_safe(*crossword, *word, col_count as int, row_count as int, intersection_index as int, Direction::Verticle);
                }
                let ghost before = *crossword;
                if crossword.place(word.clone(), col_count, row_count, intersection_index).is_ok() {
                    proof {
                        let d = choose|d: Direction| {
                            &&& before.fit(*word, col_count as int, row_count as int, intersection_index as int, d)
                                == Outcome::Accepted
                            &&& #[trigger] before.placed(*word, col_count as int, row_count as int, intersection_index as int, d, *crossword)
                        };
                        lemma_place_in_shape(before, *word, col_count as int, row_count as int, intersection_index as int, d, *crossword);
                        if before.coherent() {
                            lemma_place_coherent(before, *word, col_count as int, row_count as int, intersection_index as int, d, *crossword);
                        }
                    }
                    return Some(());
                }
            }
        }
        None
    }

    /// Tries each space of row `row_count`, from the left, until the word is placed.
    fn place_on_row(
        crossword: &mut Solution,
        row_count: usize,
        intersection_index: usize,
        word: &Word,
        letter: &char,
    ) -> (res: Option<()>)
        requires
            old(crossword).in_shape(),
            row_count < old(crossword).height,
            1 <= word.text@.len() <= usize::MAX / 8,
            intersection_index < word.text@.len(),
            *letter == word.text@[intersection_index as int],
        ensures
            final(crossword).in_shape(),
            old(crossword).coherent() ==> final(crossword).coherent(),
            res is None ==> *final(crossword) == *old(crossword),
            res is Some <==> exists|x: int| #[trigger] fits_at(*old(crossword), *word, x, row_count as int, intersection_index as int),
            res is Some ==> exists|x: int, d: Direction| {
                &&& fits_at(*old(crossword), *word, x, row_count as int, intersection_index as int)
                &&& forall|c: int| c < x ==> !#[trigger] fits_at(*old(crossword), *word, c, row_count as int, intersection_index as int)
                &&& old(crossword).fit(*word, x, row_count as int, intersection_index as int, d) == Outcome::Accepted
                &&& #[trigger] old(crossword).placed(*word, x, row_count as int, intersection_index as int, d, *final(crossword))
            },
            res is Some ==> exists|x: int, y: int, d: Direction| {
                &&& old(crossword).fit(*word, x, y, intersection_index as int, d) == Outcome::Accepted
                &&& #[trigger] old(crossword).placed(*word, x, y, intersection_index as int, d, *final(crossword))
                &&& 0 <= y < old(crossword).cells().len()
                &&& 0 <= x < old(crossword).cells()[y].len()
                &&& old(crossword).cells()[y][x] == Some(word.text@[intersection_index as int])
            },
    {
        assert(crossword.cells()[row_count as int] == crossword.grid@[row_count as int].row@);
        let width = crossword.grid[row_count].row.len();
        let mut col_count: usize = 0;
        while col_count < width
            invariant
                *crossword == *old(crossword),
                crossword.in_shape(),
                row_count < crossword.height,
                width == crossword.width,
                1 <= word.text@.len() <= usize::MAX / 8,
                intersection_index < word.text@.len(),
                *letter == word.text@[intersection_index as int],
                col_count <= width,
                forall|c: int| c < col_count ==> !#[trigger] fits_at(*crossword, *word, c, row_count as int, intersection_index as int),
            decreases width - col_count,
        {
            if Solution::place_on_column(crossword, col_count, row_count, intersection_index, word, letter).is_some() {
                return Some(());
            }
            col_count += 1;
        }
        None
    }

    /// Tries each row, from the top, until the word is placed with its letter
    /// `intersection_index` on a space that holds the same letter.
    fn place_word(crossword: &mut Solution, intersection_index: usize, word: &Word, letter: &char) -> (res: Option<()>)
        requires
            old(crossword).in_shape(),
            1 <= word.text@.len() <= usize::MAX / 8,
            intersection_index < word.text@.len(),
            *letter == word.text@[intersection_index as int],
        ensures
            final(crossword).in_shape(),
            old(crossword).coherent() ==> final(crossword).coherent(),
            res is None ==> *final(crossword) == *old(crossword),
            res is Some <==> exists|x: int, y: int| #[trigger] fits_at(*old(crossword), *word, x, y, intersection_index as int),
            res is Some ==> exists|x: int, y: int, d: Direction| {
                &&& first_fit(*old(crossword), *word, x, y, intersection_index as int)
                &&& old(crossword).fit(*word, x, y, intersection_index as int, d) == Outcome::Accepted
                &&& #[trigger] old(crossword).placed(*word, x, y, intersection_index as int, d, *final(crossword))
            },
            res is Some ==> exists|x: int, y: int, d: Direction| {
                &&& old(crossword).fit(*word, x, y, intersection_index as int, d) == Outcome::Accepted
                &&& #[trigger] old(crossword).placed(*word, x, y, intersection_index as int, d, *final(crossword))
                &&& 0 <= y < old(crossword).cells().len()
                &&& 0 <= x < old(crossword).cells()[y].len()
                &&& old(crossword).cells()[y][x] == Some(word.text@[intersection_index as int])
            },
    {
        let height = crossword.grid.len();
        let mut row_count: usize = 0;
        while row_count < height
            invariant
                *crossword == *old(crossword),
                crossword.in_shape(),
                height == crossword.height,
                1 <= word.text@.len() <= usize::MAX / 8,
                intersection_index < word.text@.len(),
                *letter == word.text@[intersection_index as int],
                row_count <= height,
                forall|r: int, c: int| r < row_count ==> !#[trigger] fits_at(*crossword, *word, c, r, intersection_index as int),
            decreases height - row_count,
        {
            if Solution::place_on_row(crossword, row_count, intersection_index, word, letter).is_some() {
                return Some(());
            }
            row_count += 1;
        }
        None
    }
}

/// The smallest word length under the requirements.
pub open spec fn min_letters(reqs: Option<CrosswordReqs>) -> int {
    match reqs {
        Some(r) => raised(r.min_letters_per_word),
        None => MIN_LETTER_COUNT as int,
    }
}

/// Whether the solution meets the requirements: enough words, and not too many blank rows
/// or columns.
pub open spec fn meets(r: CrosswordReqs, s: Solution) -> bool {
    &&& r.min_words matches Some(m) ==> s.words@.len() >= m
    &&& r.max_empty_rows matches Some(m) ==> blank_rows(s.cells(), s.grid@.len() as int) <= m
    &&& r.max_empty_columns matches Some(m) ==> blank_columns(s.cells(), s.w()) <= m
}

/// Whether the requirements ask for nothing that a solution could miss.
pub open spec fn reqs_trivial(reqs: Option<CrosswordReqs>) -> bool {
    match reqs {
        Some(r) => r.min_words is None && r.max_empty_rows is None && r.max_empty_columns is None,
        None => true,
    }
}

/// The longer side of the configured grid.
pub open spec fn longest(conf: SolutionConf) -> int {
    if conf.width >= conf.height {
        conf.width as int
    } else {
        conf.height as int
    }
}

/// Whether the placed words `a` and `b` have a space in common.
pub open spec fn shares_cell(a: PlacedWord, b: PlacedWord) -> bool {
    exists|i: int, m: int|
        0 <= i < a.word.text@.len() && 0 <= m < b.word.text@.len() && #[trigger] cell_of(a, i) == #[trigger] cell_of(b, m)
}

/// Whether the word at index `k` of `ws` crosses an earlier word: one that runs the other way
/// and shares a space with it.
pub open spec fn joins(ws: Seq<PlacedWord>, k: int) -> bool {
    exists|j: int| 0 <= j < k && ws[j].placement.direction != ws[k].placement.direction && #[trigger] shares_cell(ws[j], ws[k])
}

/// Whether every word after the first crosses an earlier word: the crossword is connected.
pub open spec fn connected(ws: Seq<PlacedWord>) -> bool {
    forall|k: int| 1 <= k < ws.len() ==> #[trigger] joins(ws, k)
}

/// What holds of every solution generated from `conf`: a grid of the configured size; at
/// least one and at most `max_words` words; every word is one of the candidates, with at least
/// the required number of chars and at most the grid's longer side; no two words have the same
/// text; the grid holds exactly the letters of the words and passes validation; the
/// requirements, when given, are met; every word after the first crosses an earlier one; and
/// it is what the turn-by-turn build gives (see [`by_turns`]).
pub open spec fn generated(conf: SolutionConf, s: Solution) -> bool {
    &&& s.in_shape()
    &&& s.width == conf.width
    &&& s.height == conf.height
    &&& 1 <= s.words@.len() <= conf.max_words
    &&& forall|k: int| 0 <= k < s.words@.len() ==> conf.words@.contains(#[trigger] s.words@[k].word)
    &&& forall|k: int| 0 <= k < s.words@.len() ==> min_letters(conf.requirements) <= #[trigger] s.words@[k].word.text@.len() <= longest(conf)
    &&& forall|j: int, k: int| 0 <= j < k < s.words@.len() ==> #[trigger] s.words@[j].word.text@ != #[trigger] s.words@[k].word.text@
    &&& s.coherent()
    &&& conf.requirements matches Some(r) ==> meets(r, s)
    &&& connected(s.words@)
    &&& by_turns(conf, s)
}

/// Whether `s` is what the turn-by-turn build gives (see [`built_with`]) for some arrangement
/// of the configuration's words and some strategy the configuration may yield: the first word
/// placed, then every other kept word given its turn to cross the grid.
pub open spec fn by_turns(conf: SolutionConf, s: Solution) -> bool {
    exists|shuffled: Seq<Word>, strategy: CrosswordInitialPlacementStrategy| {
        &&& shuffled.to_multiset() == conf.words@.to_multiset()
        &&& strategy_of(conf.initial_placement, strategy)
        &&& #[trigger] built_with(conf, shuffled, strategy, s)
    }
}

/// Two configurations with the same fields generate the same solutions.
pub proof fn lemma_generated_same_conf(c1: SolutionConf, c2: SolutionConf, s: Solution)
    requires
        c1.words@ == c2.words@,
        c1.max_words == c2.max_words,
        c1.width == c2.width,
        c1.height == c2.height,
        c1.requirements == c2.requirements,
        c1.initial_placement == c2.initial_placement,
    ensures
        generated(c1, s) == generated(c2, s),
{
    if by_turns(c1, s) {
        let (sh, st) = choose|sh: Seq<Word>, st: CrosswordInitialPlacementStrategy| {
            &&& sh.to_multiset() == c1.words@.to_multiset()
            &&& strategy_of(c1.initial_placement, st)
            &&& #[trigger] built_with(c1, sh, st, s)
        };
        assert(built_with(c2, sh, st, s));
    }
    if by_turns(c2, s) {
        let (sh, st) = choose|sh: Seq<Word>, st: CrosswordInitialPlacementStrategy| {
            &&& sh.to_multiset() == c2.words@.to_multiset()
            &&& strategy_of(c2.initial_placement, st)
            &&& #[trigger] built_with(c2, sh, st, s)
        };
        assert(built_with(c1, sh, st, s));
    }
}

/// Whether a candidate of `n` chars may be the first word under the configuration, whatever
/// strategy it yields: it is long enough for the requirements, no longer than the grid's longer
/// side, and fits the first word's placement for each strategy the configuration may yield.
pub open spec fn qualifies_first(conf: SolutionConf, n: int) -> bool {
    &&& min_letters(conf.requirements) <= n <= longest(conf)
    &&& forall|st: CrosswordInitialPlacementStrategy| #[trigger] strategy_of(conf.initial_placement, st) ==> initial_fits(
        st,
        conf.width as int,
        conf.height as int,
        n,
        initial_min(conf.initial_placement),
    )
}

/// Whether some candidate may be the first word, whatever strategy the configuration yields.
pub open spec fn some_first_word(conf: SolutionConf) -> bool {
    exists|k: int| 0 <= k < conf.words@.len() && qualifies_first(conf, #[trigger] conf.words@[k].text@.len() as int)
}

/// Whether some candidate may be the first word for some strategy the configuration may yield.
pub open spec fn may_start(conf: SolutionConf) -> bool {
    exists|k: int, st: CrosswordInitialPlacementStrategy| {
        &&& 0 <= k < conf.words@.len()
        &&& #[trigger] strategy_of(conf.initial_placement, st)
        &&& min_letters(conf.requirements) <= #[trigger] conf.words@[k].text@.len() <= longest(conf)
        &&& initial_fits(st, conf.width as int, conf.height as int, conf.words@[k].text@.len() as int, initial_min(conf.initial_placement))
    }
}

/// Configurations on which generation owes a solution: a word may be placed, some candidate
/// can start whatever the strategy, and the requirements ask for nothing.
pub open spec fn success_owed(conf: SolutionConf) -> bool {
    conf.max_words >= 1 && some_first_word(conf) && reqs_trivial(conf.requirements)
}

/// Configurations on which generation cannot succeed: no word may be placed, or no candidate
/// can be the first word.
pub open spec fn failure_owed(conf: SolutionConf) -> bool {
    conf.max_words == 0 || !may_start(conf)
}

/// The candidates kept from `ws`, in order: those with at least `mlc` and at most `longest`
/// chars, each text kept only the first time it comes.
pub open spec fn pool_of(ws: Seq<Word>, mlc: int, longest: int) -> Seq<Word>
    decreases ws.len(),
{
    if ws.len() == 0 {
        Seq::empty()
    } else {
        let prev = pool_of(ws.drop_last(), mlc, longest);
        let w = ws.last();
        if mlc <= w.text@.len() <= longest && !(exists|q: int| 0 <= q < prev.len() && #[trigger] prev[q].text@ == w.text@) {
            prev.push(w)
        } else {
            prev
        }
    }
}

/// One turn of filling: while fewer than `max` words stand, `w` is placed on the first space
/// (see [`first_fit`]) for the first of its letters that fits anywhere, when one does;
/// otherwise the solution stays as it was.
pub open spec fn fill_step(before: Solution, w: Word, max: int, after: Solution) -> bool {
    if before.words@.len() >= max {
        after == before
    } else if exists|ii: int, x: int, y: int| 0 <= ii < w.text@.len() && #[trigger] fits_at(before, w, x, y, ii) {
        exists|ii: int, x: int, y: int, d: Direction| {
            &&& 0 <= ii < w.text@.len()
            &&& forall|jj: int, c: int, r: int| 0 <= jj < ii ==> !#[trigger] fits_at(before, w, c, r, jj)
            &&& first_fit(before, w, x, y, ii)
            &&& before.fit(w, x, y, ii, d) == Outcome::Accepted
            &&& #[trigger] before.placed(w, x, y, ii, d, after)
        }
    } else {
        after == before
    }
}

/// The solutions `states` that filling goes through from `s0`, one turn for each word of `rest`.
pub open spec fn filled(s0: Solution, rest: Seq<Word>, max: int, states: Seq<Solution>) -> bool {
    &&& states.len() == rest.len() + 1
    &&& states[0] == s0
    &&& forall|q: int| 0 <= q < rest.len() ==> fill_step(states[q], #[trigger] rest[q], max, states[q + 1])
}

/// Whether `s0` holds only `word`, written on a blank grid of width `w` and height `h` with its
/// letter `ii` at (`x`, `y`) in direction `d`.
pub open spec fn starts_with(w: int, h: int, word: Word, x: int, y: int, ii: int, d: Direction, s0: Solution) -> bool {
    &&& s0.cells() == write_word(empty_grid(w, h), word.text@, d, line_of(d, x, y), origin_of(d, x, y) - ii)
    &&& s0.words@ == seq![PlacedWord { word, placement: start_placement(x, y, ii, d) }]
    &&& s0.w() == w
    &&& s0.h() == h
}

/// The solution `s` is what building from the arranged candidates `shuffled` gives with the
/// first-word strategy `strategy`: the pool of kept candidates has a word that the strategy may
/// place (the last one), it is placed first, and the other words of the pool are filled in
/// turn.
pub open spec fn built_with(
    conf: SolutionConf,
    shuffled: Seq<Word>,
    strategy: CrosswordInitialPlacementStrategy,
    s: Solution,
) -> bool {
    let w = conf.width as int;
    let h = conf.height as int;
    let pool = pool_of(shuffled, min_letters(conf.requirements), longest(conf));
    let p = last_fitting(pool, strategy, w, h, initial_min(conf.initial_placement));
    &&& p >= 0
    &&& exists|s0: Solution, states: Seq<Solution>| {
        &&& #[trigger] filled(s0, pool.remove(p), conf.max_words as int, states)
        &&& s == states.last()
        &&& exists|xo: int, yo: int| {
            let (x, y, ii) = #[trigger] initial_spot(strategy, w, h, pool[p].text@.len() as int, xo, yo);
            &&& offsets_ok(w, h, xo, yo)
            &&& starts_with(w, h, pool[p], x, y, ii, strategy.dir(), s0)
        }
    }
}

/// What building gives from the solution `s` that the turns built: the solution, or
/// `InsufficientPuzzle` when it misses the requirements.
pub open spec fn checked(reqs: Option<CrosswordReqs>, s: Solution) -> Result<Solution, CrosswordError> {
    match reqs {
        Some(r) => if meets(r, s) {
            Ok(s)
        } else {
            Err(CrosswordError::InsufficientPuzzle)
        },
        None => Ok(s),
    }
}

/// Whether some word of `ws` has the text `t`.
fn contains_text(ws: &Vec<Word>, t: &String) -> (res: bool)
    ensures
        res == exists|j: int| 0 <= j < ws@.len() && #[trigger] ws@[j].text@ == t@,
{
    let mut j: usize = 0;
    while j < ws.len()
        invariant
            j <= ws@.len(),
            forall|q: int| 0 <= q < j ==> #[trigger] ws@[q].text@ != t@,
        decreases ws@.len() - j,
    {
        if ws[j].text == *t {
            return true;
        }
        j += 1;
    }
    false
}

impl Clone for SolutionConf {
    fn clone(&self) -> (res: Self)
        ensures
            res.words@ == self.words@,
            res.max_words == self.max_words,
            res.width == self.width,
            res.height == self.height,
            res.requirements == self.requirements,
            res.initial_placement == self.initial_placement,
    {
        let mut words: Vec<Word> = Vec::new();
        let mut k: usize = 0;
        while k < self.words.len()
            invariant
                k <= self.words@.len(),
                words@ == self.words@.take(k as int),
            decreases self.words@.len() - k,
        {
            words.push(self.words[k].clone());
            k += 1;
            assert(words@ =~= self.words@.take(k as int));
        }
        assert(self.words@.take(k as int) =~= self.words@);
        SolutionConf {
            words,
            max_words: self.max_words,
            width: self.width,
            height: self.height,
            requirements: self.requirements,
            initial_placement: self.initial_placement,
        }
    }
}

/// Placing a word whose letter `ii` stands on a space holding that letter keeps the crossword
/// connected: the word crosses the earlier word that holds that space.
pub proof fn lemma_connected_kept(sol: Solution, word: Word, x: int, y: int, ii: int, d: Direction, next: Solution)
    requires
        sol.in_shape(),
        sol.fit(word, x, y, ii, d) == Outcome::Accepted,
        sol.placed(word, x, y, ii, d, next),
        0 <= ii < word.text@.len(),
        0 <= y < sol.cells().len(),
        0 <= x < sol.cells()[y].len(),
        sol.cells()[y][x] == Some(word.text@[ii]),
        connected(sol.words@),
    ensures
        connected(next.words@),
{
    let n = sol.words@.len() as int;
    let ws = sol.words@;
    let pw = next.words@[n];
    lemma_painted_covered(sol.w(), sol.h(), ws, y, x);
    let j = choose|j: int| 0 <= j < ws.len() && #[trigger] covered_by(ws[j], y, x);
    let wj = ws[j];
    let off = offset(wj.placement.direction, wj.start(), y, x);
    assert(cell_of(wj, off) == (y, x));
    assert(cell_of(pw, ii) == (y, x));
    assert(shares_cell(wj, pw));
    if wj.placement.direction == d {
        let line = line_of(d, x, y);
        let start = origin_of(d, x, y) - ii;
        let cross = across(d, sol.w(), sol.h()) - 1;
        assert(letters_check(sol.cells(), ws, word.text@, d, line, start, cross, 0) == Outcome::Accepted);
        lemma_letters_agree(sol.cells(), ws, word.text@, d, line, start, cross, 0);
        lemma_overlap_disjoint(ws, d, line, start, word.text@.len() as int, 0);
        assert(ws[j].placement.direction == d && ws[j].line() == line);
        assert(false);
    }
    assert(next.words@.take(n) =~= ws);
    assert forall|k: int| 1 <= k < next.words@.len() implies #[trigger] joins(next.words@, k) by {
        if k < n {
            assert(joins(ws, k));
            let j2 = choose|j2: int| 0 <= j2 < k && ws[j2].placement.direction != ws[k].placement.direction && #[trigger] shares_cell(ws[j2], ws[k]);
            assert(next.words@[j2] == ws[j2] && next.words@[k] == ws[k]);
        } else {
            assert(next.words@[j] == wj);
        }
    }
}

/// The index in the candidates of the word at index `j` of the candidates without the first
/// word, which stood at `p` (or none, when `p` is negative).
pub open spec fn pool_index(p: int, j: int) -> int {
    if p >= 0 && j >= p {
        j + 1
    } else {
        j
    }
}

/// When some word fits, the last fitting index is at or after it.
pub proof fn lemma_last_fitting_found(ws: Seq<Word>, strategy: CrosswordInitialPlacementStrategy, w: int, h: int, mlc: int, q: int)
    requires
        0 <= q < ws.len(),
        initial_fits(strategy, w, h, ws[q].text@.len() as int, mlc),
    ensures
        last_fitting(ws, strategy, w, h, mlc) >= q,
    decreases ws.len(),
{
    if q < ws.len() - 1 {
        if !initial_fits(strategy, w, h, ws.last().text@.len() as int, mlc) {
            lemma_last_fitting_found(ws.drop_last(), strategy, w, h, mlc, q);
        }
    }
}

/// The last fitting index is -1 or an index of the sequence whose word fits.
pub proof fn lemma_last_fitting_range(ws: Seq<Word>, strategy: CrosswordInitialPlacementStrategy, w: int, h: int, mlc: int)
    ensures
        -1 <= last_fitting(ws, strategy, w, h, mlc) < ws.len(),
        last_fitting(ws, strategy, w, h, mlc) >= 0 ==> initial_fits(
            strategy,
            w,
            h,
            ws[last_fitting(ws, strategy, w, h, mlc)].text@.len() as int,
            mlc,
        ),
    decreases ws.len(),
{
    if ws.len() > 0 {
        lemma_last_fitting_range(ws.drop_last(), strategy, w, h, mlc);
    }
}

impl Solution {
    /// Builds a solution from the candidates arranged as `shuffled` (an arrangement of the
    /// configuration's words): with `max_words` 0 the result is `Err(BadConfig)`. Otherwise it
    /// keeps the candidates with at least the required number of chars and at most the grid's
    /// longer side, dropping repeated texts (see [`pool_of`]); places the first word (see
    /// [`Solution::place_initial`]), or answers `Err(NoValidInitialWords)` when none can be;
    /// then gives each other kept candidate its turn (see [`fill_step`]). The solution built is
    /// returned when it meets the requirements, and `Err(InsufficientPuzzle)` otherwise.
    #[verifier::rlimit(60)]
    pub fn build(conf: &SolutionConf, shuffled: Vec<Word>) -> (res: Result<Solution, CrosswordError>)
        requires
            shuffled@.to_multiset() == conf.words@.to_multiset(),
            conf.width <= usize::MAX / 8,
            conf.height <= usize::MAX / 8,
        ensures
            conf.max_words == 0 ==> res == Err::<Solution, CrosswordError>(CrosswordError::BadConfig),
            conf.max_words >= 1 ==> exists|strategy: CrosswordInitialPlacementStrategy| {
                let p = last_fitting(
                    pool_of(shuffled@, min_letters(conf.requirements), longest(*conf)),
                    strategy,
                    conf.width as int,
                    conf.height as int,
                    initial_min(conf.initial_placement),
                );
                &&& #[trigger] strategy_of(conf.initial_placement, strategy)
                &&& p < 0 ==> res == Err::<Solution, CrosswordError>(CrosswordError::NoValidInitialWords)
                &&& p >= 0 ==> exists|s: Solution| #[trigger] built_with(*conf, shuffled@, strategy, s) && res == checked(
                    conf.requirements,
                    s,
                )
            },
            res matches Ok(s) ==> generated(*conf, s),
            success_owed(*conf) ==> res is Ok,
            failure_owed(*conf) ==> res is Err,
            res matches Err(e) ==> e == CrosswordError::BadConfig || e == CrosswordError::NoValidInitialWords || e
                == CrosswordError::InsufficientPuzzle,
    {
        let ghost conf0 = *conf;
        if conf.max_words == 0 {
            return Err(CrosswordError::BadConfig);
        }
        let mut crossword = Solution::new_empty(conf.width, conf.height);
        let min_letter_count = if let Some(reqs) = &conf.requirements {
            match reqs.min_letters_per_word {
                Some(mlc) => {
                    if mlc >= MIN_LETTER_COUNT {
                        mlc
                    } else {
                        MIN_LETTER_COUNT
                    }
                },
                None => MIN_LETTER_COUNT,
            }
        } else {
            MIN_LETTER_COUNT
        };
        assert(min_letter_count == min_letters(conf.requirements));
        let words = shuffled;
        proof {
            broadcast use vstd::seq_lib::group_to_multiset_ensures;
            assert forall|x: Word| words@.contains(x) implies conf0.words@.contains(x) by {
                assert(words@.to_multiset().count(x) > 0);
            }
        }
        let longest_side = if crossword.width >= crossword.height {
            crossword.width
        } else {
            crossword.height
        };
        assert(longest_side == longest(conf0));
        let mut kept: Vec<Word> = Vec::new();
        let mut k: usize = 0;
        assert(words@.take(0) =~= Seq::<Word>::empty());
        while k < words.len()
            invariant
                k <= words@.len(),
                longest_side == longest(conf0),
                forall|x: Word| words@.contains(x) ==> conf0.words@.contains(x),
                kept@ == pool_of(words@.take(k as int), min_letter_count as int, longest_side as int),
                forall|q: int| 0 <= q < kept@.len() ==> conf0.words@.contains(#[trigger] kept@[q]),
                forall|q: int| 0 <= q < kept@.len() ==> min_letter_count <= #[trigger] kept@[q].text@.len() <= longest_side,
                forall|q1: int, q2: int| 0 <= q1 < q2 < kept@.len() ==> #[trigger] kept@[q1].text@ != #[trigger] kept@[q2].text@,
                forall|j: int| 0 <= j < k && min_letter_count <= (#[trigger] words@[j]).text@.len() <= longest_side
                    ==> exists|q: int| 0 <= q < kept@.len() && #[trigger] kept@[q].text@ == words@[j].text@,
            decreases words@.len() - k,
        {
            let w = &words[k];
            let count = w.text.as_str().unicode_len();
            let ghost kept_before = kept@;
            proof {
                assert(words@.take(k + 1).drop_last() =~= words@.take(k as int));
                assert(words@.take(k + 1).last() == words@[k as int]);
            }
            if count >= min_letter_count && count <= longest_side && !contains_text(&kept, &w.text) {
                assert(words@.contains(words@[k as int]));
                kept.push(w.clone());
                assert(kept@[kept@.len() - 1].text@ == words@[k as int].text@);
            }
            proof {
                assert forall|j: int| 0 <= j < k + 1 && min_letter_count <= (#[trigger] words@[j]).text@.len() <= longest_side
                    implies exists|q: int| 0 <= q < kept@.len() && #[trigger] kept@[q].text@ == words@[j].text@ by {
                    if j < k {
                        let q = choose|q: int| 0 <= q < kept_before.len() && #[trigger] kept_before[q].text@ == words@[j].text@;
                        assert(kept@[q] == kept_before[q]);
                    }
                }
            }
            k += 1;
        }
        assert(words@.take(words@.len() as int) =~= words@);
        let ghost shuffled_s = words@;
        let pool = kept;
        let ghost pool_s = pool@;
        let ghost empty = crossword;
        let placed_first = crossword.place_initial(&conf.initial_placement, pool);
        let ghost strategy = choose|strategy: CrosswordInitialPlacementStrategy| {
            let p = last_fitting(pool_s, strategy, empty.w(), empty.h(), initial_min(conf0.initial_placement));
            &&& #[trigger] strategy_of(conf0.initial_placement, strategy)
            &&& p < 0 ==> placed_first == Err::<Vec<Word>, CrosswordError>(CrosswordError::NoValidInitialWords)
                && crossword == empty
            &&& p >= 0 ==> (placed_first matches Ok(rest) && {
                &&& rest@ == pool_s.remove(p)
                &&& exists|xo: int, yo: int| {
                    let (x, y, ii) = #[trigger] initial_spot(strategy, empty.w(), empty.h(), pool_s[p].text@.len() as int, xo, yo);
                    &&& offsets_ok(empty.w(), empty.h(), xo, yo)
                    &&& empty.placed(pool_s[p], x, y, ii, strategy.dir(), crossword)
                }
            })
        };
        let ghost p = last_fitting(pool_s, strategy, empty.w(), empty.h(), initial_min(conf0.initial_placement));
        proof {
            lemma_last_fitting_range(pool_s, strategy, empty.w(), empty.h(), initial_min(conf0.initial_placement));
            if some_first_word(conf0) {
                broadcast use vstd::seq_lib::group_to_multiset_ensures;
                let k0 = choose|k0: int| 0 <= k0 < conf0.words@.len() && qualifies_first(conf0, #[trigger] conf0.words@[k0].text@.len() as int);
                let w0 = conf0.words@[k0];
                assert(conf0.words@.contains(w0));
                assert(conf0.words@.to_multiset().count(w0) > 0);
                assert(shuffled_s.contains(w0));
                let j = choose|j: int| 0 <= j < shuffled_s.len() && shuffled_s[j] == w0;
                assert(min_letter_count <= shuffled_s[j].text@.len() <= longest_side);
                let q = choose|q: int| 0 <= q < pool_s.len() && #[trigger] pool_s[q].text@ == shuffled_s[j].text@;
                assert(strategy_of(conf0.initial_placement, strategy));
                lemma_last_fitting_found(pool_s, strategy, empty.w(), empty.h(), initial_min(conf0.initial_placement), q);
            }
            if p >= 0 {
                assert(conf0.words@.contains(pool_s[p]));
                let k0 = choose|k0: int| 0 <= k0 < conf0.words@.len() && conf0.words@[k0] == pool_s[p];
                assert(strategy_of(conf0.initial_placement, strategy));
                assert(may_start(conf0));
            }
        }
        let rest = match placed_first {
            Ok(r) => r,
            Err(e) => {
                return Err(e);
            },
        };
        let ghost s0 = crossword;
        let ghost mut used: Seq<int> = seq![p];
        let ghost mut states: Seq<Solution> = seq![crossword];
        proof {
            assert(crossword.words@.len() == 1);
            assert(crossword.words@[0].word == pool_s[p]);
            assert forall|j: int| 0 <= j < rest@.len() implies #[trigger] rest@[j] == pool_s[pool_index(p, j)] by {}
        }
        let max_words = conf.max_words;
        let mut i: usize = 0;
        while i < rest.len()
            invariant
                crossword.in_shape(),
                crossword.width == conf0.width,
                crossword.height == conf0.height,
                crossword.coherent(),
                0 <= p < pool_s.len(),
                rest@.len() == pool_s.len() - 1,
                rest@ == pool_s.remove(p),
                forall|j: int| 0 <= j < rest@.len() ==> #[trigger] rest@[j] == pool_s[pool_index(p, j)],
                forall|q: int| 0 <= q < pool_s.len() ==> conf0.words@.contains(#[trigger] pool_s[q]),
                forall|q: int| 0 <= q < pool_s.len() ==> min_letter_count <= #[trigger] pool_s[q].text@.len() <= longest_side,
                forall|q1: int, q2: int| 0 <= q1 < q2 < pool_s.len() ==> #[trigger] pool_s[q1].text@ != #[trigger] pool_s[q2].text@,
                i <= rest@.len(),
                crossword.words@.len() == used.len(),
                1 <= crossword.words@.len() <= max_words,
                forall|q: int| 0 <= q < used.len() ==> 0 <= #[trigger] used[q] < pool_s.len(),
                forall|q: int| 0 <= q < used.len() ==> #[trigger] crossword.words@[q].word == pool_s[used[q]],
                forall|q1: int, q2: int| 0 <= q1 < q2 < used.len() ==> #[trigger] used[q1] != #[trigger] used[q2],
                forall|q: int| 0 <= q < used.len() ==> #[trigger] used[q] == p || used[q] < pool_index(p, i as int),
                max_words == conf0.max_words,
                min_letter_count == min_letters(conf0.requirements),
                longest_side == longest(conf0),
                connected(crossword.words@),
                states.len() == i + 1,
                states[0] == s0,
                states.last() == crossword,
                forall|q: int| 0 <= q < i ==> fill_step(states[q], #[trigger] rest@[q], max_words as int, states[q + 1]),
            decreases rest@.len() - i,
        {
            let word = &rest[i];
            let ghost before = crossword;
            if crossword.words.len() < max_words {
                let letters = text_chars(&word.text);
                let mut intersection_index: usize = 0;
                let mut placed = false;
                while intersection_index < letters.len()
                    invariant
                        letters@ == word.text@,
                        crossword.in_shape(),
                        crossword.width == conf0.width,
                        1 <= word.text@.len() <= usize::MAX / 8,
                        crossword.coherent(),
                        intersection_index <= letters@.len(),
                        !placed ==> crossword == before,
                        !placed ==> forall|jj: int, c: int, r: int| 0 <= jj < intersection_index ==> !#[trigger] fits_at(
                            before,
                            *word,
                            c,
                            r,
                            jj,
                        ),
                        placed ==> intersection_index < word.text@.len(),
                        placed ==> forall|jj: int, c: int, r: int| 0 <= jj < intersection_index ==> !#[trigger] fits_at(
                            before,
                            *word,
                            c,
                            r,
                            jj,
                        ),
                        placed ==> exists|x: int, y: int, d: Direction| {
                            &&& first_fit(before, *word, x, y, intersection_index as int)
                            &&& before.fit(*word, x, y, intersection_index as int, d) == Outcome::Accepted
                            &&& #[trigger] before.placed(*word, x, y, intersection_index as int, d, crossword)
                        },
                    ensures
                        !placed ==> intersection_index == letters@.len(),
                    decreases letters@.len() - intersection_index + if placed { 0int } else { 1int },
                {
                    if placed {
                        break;
                    }
                    if Solution::place_word(&mut crossword, intersection_index, word, &letters[intersection_index]).is_some() {
                        placed = true;
                    } else {
                        intersection_index += 1;
                    }
                }
                proof {
                    if placed {
                        let ii = intersection_index as int;
                        let (x, y, d) = choose|x: int, y: int, d: Direction| {
                            &&& first_fit(before, *word, x, y, ii)
                            &&& before.fit(*word, x, y, ii, d) == Outcome::Accepted
                            &&& #[trigger] before.placed(*word, x, y, ii, d, crossword)
                        };
                        lemma_connected_kept(before, *word, x, y, ii, d, crossword);
                        assert(fits_at(before, *word, x, y, ii));
                        assert(before.placed(*word, x, y, ii, d, crossword));
                        assert(fill_step(before, *word, max_words as int, crossword));
                        used = used.push(pool_index(p, i as int));
                        assert forall|q: int| 0 <= q < used.len() implies #[trigger] crossword.words@[q].word == pool_s[used[q]] by {
                            if q < used.len() - 1 {
                                assert(crossword.words@[q] == before.words@[q]);
                            }
                        }
                    } else {
                        assert(!exists|ii: int, x: int, y: int| 0 <= ii < word.text@.len() && #[trigger] fits_at(before, *word, x, y, ii));
                        assert(fill_step(before, *word, max_words as int, crossword));
                    }
                }
            }
            proof {
                states = states.push(crossword);
                assert(fill_step(before, rest@[i as int], max_words as int, crossword));
                assert forall|q: int| 0 <= q < i + 1 implies fill_step(states[q], #[trigger] rest@[q], max_words as int, states[q + 1]) by {
                    if q < i {
                        assert(states[q] == states.drop_last()[q] && states[q + 1] == states.drop_last()[q + 1]);
                    }
                }
            }
            i += 1;
        }
        proof {
            assert forall|q: int| 0 <= q < crossword.words@.len() implies conf0.words@.contains(#[trigger] crossword.words@[q].word) by {
                assert(crossword.words@[q].word == pool_s[used[q]]);
            }
            assert forall|q: int| 0 <= q < crossword.words@.len() implies min_letter_count <= #[trigger] crossword.words@[q].word.text@.len() <= longest_side by {
                assert(crossword.words@[q].word == pool_s[used[q]]);
            }
            assert forall|q1: int, q2: int| 0 <= q1 < q2 < crossword.words@.len() implies #[trigger] crossword.words@[q1].word.text@
                != #[trigger] crossword.words@[q2].word.text@ by {
                assert(crossword.words@[q1].word == pool_s[used[q1]]);
                assert(crossword.words@[q2].word == pool_s[used[q2]]);
                if used[q1] < used[q2] {
                    assert(pool_s[used[q1]].text@ != pool_s[used[q2]].text@);
                } else {
                    assert(pool_s[used[q2]].text@ != pool_s[used[q1]].text@);
                }
            }
            let pp = p;
            assert(pool_of(shuffled_s, min_letters(conf0.requirements), longest(conf0)) == pool_s);
            assert(filled(s0, pool_s.remove(pp), conf0.max_words as int, states));
            let (xo, yo) = choose|xo: int, yo: int| {
                let (x, y, ii) = #[trigger] initial_spot(strategy, empty.w(), empty.h(), pool_s[pp].text@.len() as int, xo, yo);
                &&& offsets_ok(empty.w(), empty.h(), xo, yo)
                &&& empty.placed(pool_s[pp], x, y, ii, strategy.dir(), s0)
            };
            let (x, y, ii) = initial_spot(strategy, empty.w(), empty.h(), pool_s[pp].text@.len() as int, xo, yo);
            assert(s0.words@ =~= seq![PlacedWord { word: pool_s[pp], placement: start_placement(x, y, ii, strategy.dir()) }]);
            assert(starts_with(empty.w(), empty.h(), pool_s[pp], x, y, ii, strategy.dir(), s0));
            assert(built_with(conf0, shuffled_s, strategy, crossword));
        }
        match conf.requirements {
            Some(req) => {
                let mut valid = true;
                if let Some(min_words) = req.min_words {
                    if crossword.words.len() < min_words {
                        valid = false;
                    }
                }
                if valid {
                    if let Some(mer) = req.max_empty_rows {
                        if mer < crossword.empty_rows() {
                            valid = false;
                        }
                    }
                }
                if valid {
                    if let Some(mec) = req.max_empty_columns {
                        if mec < crossword.empty_columns() {
                            valid = false;
                        }
                    }
                }
                assert(valid == meets(req, crossword));
                if valid {
                    Ok(crossword)
                } else {
                    Err(CrosswordError::InsufficientPuzzle)
                }
            },
            None => Ok(crossword),
        }
    }

    /// One attempt at generation: shuffles the candidates at random, then builds a solution from
    /// them (see [`Solution::build`]).
    fn generate(conf: SolutionConf) -> (res: Result<Solution, CrosswordError>)
        requires
            conf.width <= usize::MAX / 8,
            conf.height <= usize::MAX / 8,
        ensures
            res matches Ok(s) ==> generated(conf, s),
            success_owed(conf) ==> res is Ok,
            failure_owed(conf) ==> res is Err,
            res matches Err(e) ==> e == CrosswordError::BadConfig || e == CrosswordError::NoValidInitialWords || e
                == CrosswordError::InsufficientPuzzle,
    {
        let copy = conf.clone();
        let mut words = copy.words;
        shuffle_words(&mut words);
        Solution::build(&conf, words)
    }

    /// Generates a solution from the configuration. When the first attempt fails and
    /// requirements are given, generation is retried: an attempt that fails, or yields a
    /// solution that [`Solution::is_valid`] refuses, counts against `max_retries`, and when they
    /// are used up the result is `Err(MaxRetries)`.
    pub fn new(conf: SolutionConf) -> (res: Result<Solution, CrosswordError>)
        requires
            conf.width <= usize::MAX / 8,
            conf.height <= usize::MAX / 8,
        ensures
            res matches Ok(s) ==> generated(conf, s),
            res matches Err(e) ==> e == CrosswordError::MaxRetries,
            success_owed(conf) ==> res is Ok,
            failure_owed(conf) ==> res is Err,
    {
        let first = conf.clone();
        let ghost first_conf = first;
        if let Ok(crossword) = Solution::generate(first) {
            proof {
                lemma_generated_same_conf(first_conf, conf, crossword);
            }
            return Ok(crossword);
        } else if let Some(reqs) = &conf.requirements {
            let mut attempt: usize = 0;
            while attempt < reqs.max_retries
                invariant
                    conf.width <= usize::MAX / 8,
                    conf.height <= usize::MAX / 8,
                    conf.requirements == Some(*reqs),
                decreases reqs.max_retries - attempt,
            {
                let again = conf.clone();
                let ghost again_conf = again;
                if let Ok(crossword) = Solution::generate(again) {
                    proof {
                        lemma_generated_same_conf(again_conf, conf, crossword);
                    }
                    if crossword.is_valid().is_ok() {
                        return Ok(crossword);
                    } else {
                        attempt += 1;
                    }
                } else {
                    attempt += 1;
                }
            }
        }
        Err(CrosswordError::MaxRetries)
    }
}

} // verus!
