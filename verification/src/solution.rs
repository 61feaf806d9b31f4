//! The solution grid: placing words, checking whether a word fits, and validating a solution.

use vstd::prelude::*;
use crate::rng::random_direction;
use crate::types::{CrosswordError, Direction, PlacedWord, Placement, SolutionRow, Word};

verus! {

/// The letters of a grid, row by row.
pub type CharGrid = Seq<Seq<Option<char>>>;

/// What a check of the grid comes to: the word is accepted, rejected, or the check would
/// index outside the grid or overflow (and so abort).
#[derive(Clone, Copy, Debug, PartialEq, Eq, Structural)]
pub enum Outcome {
    /// The check passes.
    Accepted,
    /// The check fails.
    Rejected,
    /// The check reads outside the grid or overflows an index.
    Faulted,
}

/// Whether the space `idx` along `line` in direction `d` lies in the grid `g`
/// (`line` is the row of a horizontal word, the column of a vertical one).
pub open spec fn in_grid(g: CharGrid, d: Direction, line: int, idx: int) -> bool {
    match d {
        Direction::Horizontal => 0 <= line < g.len() && 0 <= idx < g[line].len(),
        Direction::Verticle => 0 <= idx < g.len() && 0 <= line < g[idx].len(),
    }
}

/// The content of space `idx` along `line` in direction `d`.
pub open spec fn at(g: CharGrid, d: Direction, line: int, idx: int) -> Option<char> {
    match d {
        Direction::Horizontal => g[line][idx],
        Direction::Verticle => g[idx][line],
    }
}

/// Whether the `n` spaces from `start` along `line` in direction `d` all lie in the grid.
pub open spec fn span_in_grid(g: CharGrid, d: Direction, line: int, start: int, n: int) -> bool {
    match d {
        Direction::Horizontal => 0 <= line < g.len() && 0 <= start && start + n <= g[line].len(),
        Direction::Verticle => 0 <= line && 0 <= start && start + n <= g.len() && forall|r: int|
            start <= r < start + n ==> line < #[trigger] g[r].len(),
    }
}

/// The grid of `h` rows of `w` blank spaces.
pub open spec fn empty_grid(w: int, h: int) -> CharGrid {
    Seq::new(h as nat, |r: int| Seq::new(w as nat, |c: int| None::<char>))
}

/// Whether the grid has `h` rows of `w` spaces.
pub open spec fn shaped(g: CharGrid, w: int, h: int) -> bool {
    &&& g.len() == h
    &&& forall|r: int| 0 <= r < h ==> #[trigger] g[r].len() == w
}

/// Whether the space at row `r`, column `c` is covered by the word of length `n` that begins
/// at `start` along `line` in direction `d`.
pub open spec fn covers(d: Direction, line: int, start: int, n: int, r: int, c: int) -> bool {
    match d {
        Direction::Horizontal => r == line && start <= c < start + n,
        Direction::Verticle => c == line && start <= r < start + n,
    }
}

/// The offset within the word of the covered space at row `r`, column `c`.
pub open spec fn offset(d: Direction, start: int, r: int, c: int) -> int {
    match d {
        Direction::Horizontal => c - start,
        Direction::Verticle => r - start,
    }
}

/// The grid `g` with the chars `s` written from `start` along `line` in direction `d`.
pub open spec fn write_word(g: CharGrid, s: Seq<char>, d: Direction, line: int, start: int) -> CharGrid {
    Seq::new(
        g.len(),
        |r: int|
            Seq::new(
                g[r].len(),
                |c: int|
                    if covers(d, line, start, s.len() as int, r, c) {
                        Some(s[offset(d, start, r, c)])
                    } else {
                        g[r][c]
                    },
            ),
    )
}

/// Whether the placed word `pw` would overlap a word of `n` chars beginning at `start`
/// along `line` in direction `d`, as the fit check decides it.
pub open spec fn overlap_step(pw: PlacedWord, d: Direction, line: int, start: int, n: int) -> Outcome {
    if pw.placement.direction == d && pw.line() == line {
        let pn = pw.word.text@.len() as int;
        if pn < 1 {
            Outcome::Faulted
        } else if pw.start() + pn - 1 > usize::MAX {
            Outcome::Faulted
        } else if start <= pw.start() + pn - 1 && start + n - 1 >= pw.start() {
            Outcome::Rejected
        } else {
            Outcome::Accepted
        }
    } else {
        Outcome::Accepted
    }
}

/// The overlap check against the placed words from index `j` on.
pub open spec fn overlap_check(placed: Seq<PlacedWord>, d: Direction, line: int, start: int, n: int, j: int) -> Outcome
    decreases placed.len() - j,
{
    if j >= placed.len() || j < 0 {
        Outcome::Accepted
    } else {
        match overlap_step(placed[j], d, line, start, n) {
            Outcome::Accepted => overlap_check(placed, d, line, start, n, j + 1),
            o => o,
        }
    }
}

/// The check of the letters of `s` from index `k` on: each space is either the same letter,
/// or blank with blank neighbours on both sides of the line (`cross` is the last line across
/// the word's direction).
pub open spec fn letters_check(
    g: CharGrid,
    placed: Seq<PlacedWord>,
    s: Seq<char>,
    d: Direction,
    line: int,
    start: int,
    cross: int,
    k: int,
) -> Outcome
    decreases s.len() - k,
{
    if k >= s.len() || k < 0 {
        overlap_check(placed, d, line, start, s.len() as int, 0)
    } else {
        let idx = start + k;
        let before = line != 0;
        let after = line < cross;
        if before && !in_grid(g, d, line - 1, idx) {
            Outcome::Faulted
        } else if after && !in_grid(g, d, line + 1, idx) {
            Outcome::Faulted
        } else if !in_grid(g, d, line, idx) {
            Outcome::Faulted
        } else {
            match at(g, d, line, idx) {
                Some(c) => if c != s[k] {
                    Outcome::Rejected
                } else {
                    letters_check(g, placed, s, d, line, start, cross, k + 1)
                },
                None => if (before && at(g, d, line - 1, idx) is Some) || (after && at(g, d, line + 1, idx) is Some) {
                    Outcome::Rejected
                } else {
                    letters_check(g, placed, s, d, line, start, cross, k + 1)
                },
            }
        }
    }
}

/// The fit check of the chars `s` beginning at `start` along `line` in direction `d`, in a
/// grid of width `w` and height `h`.
pub open spec fn fit_from_start(
    g: CharGrid,
    placed: Seq<PlacedWord>,
    w: int,
    h: int,
    s: Seq<char>,
    d: Direction,
    line: int,
    start: int,
) -> Outcome {
    let last = s.len() - 1;
    let edge = (if d == Direction::Horizontal { w } else { h }) - 1;
    let cross = (if d == Direction::Horizontal { h } else { w }) - 1;
    if start > 0 && !in_grid(g, d, line, start - 1) {
        Outcome::Faulted
    } else if start > 0 && at(g, d, line, start - 1) is Some {
        Outcome::Rejected
    } else if edge < 0 {
        Outcome::Faulted
    } else if start + last > usize::MAX {
        Outcome::Faulted
    } else if start + last > edge {
        Outcome::Rejected
    } else if start + last < edge && !in_grid(g, d, line, start + last + 1) {
        Outcome::Faulted
    } else if start + last < edge && at(g, d, line, start + last + 1) is Some {
        Outcome::Rejected
    } else {
        letters_check(g, placed, s, d, line, start, cross, 0)
    }
}

/// The fixed coordinate of a word at (`x`, `y`) in direction `d`.
pub open spec fn line_of(d: Direction, x: int, y: int) -> int {
    if d == Direction::Horizontal { y } else { x }
}

/// The moving coordinate of a word at (`x`, `y`) in direction `d`.
pub open spec fn origin_of(d: Direction, x: int, y: int) -> int {
    if d == Direction::Horizontal { x } else { y }
}

/// Whether the chars `s` fit the grid when their letter `ii` stands at
/// (`x`, `y`) in direction `d`: the word stays inside the grid, the spaces just before and
/// after it are blank, each letter meets the same letter or a blank space whose neighbours
/// across the line are blank, and no placed word in the same direction on the same line
/// overlaps it.
pub open spec fn fit_check(
    g: CharGrid,
    placed: Seq<PlacedWord>,
    w: int,
    h: int,
    s: Seq<char>,
    x: int,
    y: int,
    ii: int,
    d: Direction,
) -> Outcome {
    if s.len() < 1 {
        Outcome::Faulted
    } else if ii > s.len() - 1 {
        Outcome::Rejected
    } else if ii > origin_of(d, x, y) {
        Outcome::Rejected
    } else {
        fit_from_start(g, placed, w, h, s, d, line_of(d, x, y), origin_of(d, x, y) - ii)
    }
}

/// The placement recorded for a word whose letter `ii` stands at (`x`, `y`) in direction `d`.
pub open spec fn start_placement(x: int, y: int, ii: int, d: Direction) -> Placement {
    match d {
        Direction::Horizontal => Placement { x: (x - ii) as usize, y: y as usize, direction: d },
        Direction::Verticle => Placement { x: x as usize, y: (y - ii) as usize, direction: d },
    }
}

/// Replaying the placed words `ws` one by one on a blank grid of width `w` and height `h`,
/// each checked at its own placement against the words before it: the outcome of the first
/// check that does not accept, or acceptance, together with the grid built so far.
pub open spec fn replay(w: int, h: int, ws: Seq<PlacedWord>) -> (Outcome, CharGrid)
    decreases ws.len(),
{
    if ws.len() == 0 {
        (Outcome::Accepted, empty_grid(w, h))
    } else {
        let prev = replay(w, h, ws.drop_last());
        match prev.0 {
            Outcome::Accepted => {
                let pw = ws.last();
                let s = pw.word.text@;
                let o = fit_check(
                    prev.1,
                    ws.drop_last(),
                    w,
                    h,
                    s,
                    pw.placement.x as int,
                    pw.placement.y as int,
                    0,
                    pw.placement.direction,
                );
                match o {
                    Outcome::Accepted => (Outcome::Accepted, write_word(prev.1, s, pw.placement.direction, pw.line(), pw.start())),
                    _ => (o, prev.1),
                }
            },
            _ => prev,
        }
    }
}

} // verus!

verus! {

/// A complete crossword: the grid of letters and the words placed in it.
/// The grid's row 0 is the top row and column 0 the leftmost.
#[derive(Clone, Debug, PartialEq)]
pub struct Solution {
    /// The rows of the grid.
    pub grid: Vec<SolutionRow>,
    /// All (and only) the answers of the puzzle.
    pub words: Vec<PlacedWord>,
    /// The width of the grid; each row has this many spaces.
    pub width: usize,
    /// The height of the grid; the grid has this many rows.
    pub height: usize,
}

impl Solution {
    /// The width of the grid.
    pub open spec fn w(&self) -> int {
        self.width as int
    }

    /// The height of the grid.
    pub open spec fn h(&self) -> int {
        self.height as int
    }

    /// The letters of the grid, row by row.
    pub open spec fn cells(&self) -> CharGrid {
        self.grid@.map_values(|r: SolutionRow| r.row@)
    }

    /// The grid has `h` rows of `w` spaces each.
    pub open spec fn wf(&self) -> bool {
        shaped(self.cells(), self.w(), self.h())
    }

    /// A blank grid of `width` by `height`, with no words.
    pub(crate) fn new_empty(width: usize, height: usize) -> (res: Solution)
        ensures
            res.cells() == empty_grid(width as int, height as int),
            res.words@ == Seq::<PlacedWord>::empty(),
            res.width == width,
            res.height == height,
            res.wf(),
    {
        let mut grid = Vec::<SolutionRow>::new();
        let mut i: usize = 0;
        while i < height
            invariant
                i <= height,
                grid@.len() == i,
                forall|r: int| 0 <= r < i ==> #[trigger] grid@[r].row@ == Seq::new(width as nat, |c: int| None::<char>),
            decreases height - i,
        {
            grid.push(SolutionRow::new(width));
            i += 1;
        }
        let res = Solution { grid, words: Vec::<PlacedWord>::new(), width, height };
        assert(res.cells() =~= empty_grid(width as int, height as int));
        res
    }

    /// Writes `word` so that its letter `intersection_index` stands at (`x`, `y`), without
    /// any check, and records it among the words.
    pub(crate) fn _unchecked_place(
        &mut self,
        word: Word,
        x: usize,
        y: usize,
        intersection_index: usize,
        direction: &Direction,
    )
        requires
            intersection_index <= origin_of(*direction, x as int, y as int),
            span_in_grid(
                old(self).cells(),
                *direction,
                line_of(*direction, x as int, y as int),
                origin_of(*direction, x as int, y as int) - intersection_index,
                word.text@.len() as int,
            ),
        ensures
            final(self).cells() == write_word(
                old(self).cells(),
                word.text@,
                *direction,
                line_of(*direction, x as int, y as int),
                origin_of(*direction, x as int, y as int) - intersection_index,
            ),
            final(self).words@ == old(self).words@.push(
                PlacedWord { word, placement: start_placement(x as int, y as int, intersection_index as int, *direction) },
            ),
            final(self).width == old(self).width,
            final(self).height == old(self).height,
    {
        let ghost g0 = self.cells();
        let ghost s = word.text@;
        let ghost line = line_of(*direction, x as int, y as int);
        let ghost start = origin_of(*direction, x as int, y as int) - intersection_index;
        let origin = match direction {
            Direction::Horizontal => x,
            Direction::Verticle => y,
        };
        let letters = text_chars(&word.text);
        let n = letters.len();
        let mut letter_count: usize = 0;
        assert(write_word(g0, s.take(0), *direction, line, start) =~~= g0);
        while letter_count < n
            invariant
                n == s.len(),
                letters@ == s,
                letter_count <= n,
                start == origin - intersection_index,
                intersection_index <= origin,
                line == line_of(*direction, x as int, y as int),
                span_in_grid(g0, *direction, line, start, s.len() as int),
                self.cells() == write_word(g0, s.take(letter_count as int), *direction, line, start),
                self.words == old(self).words,
                self.width == old(self).width,
                self.height == old(self).height,
            decreases n - letter_count,
        {
            let letter = letters[letter_count];
            assert(in_grid(g0, *direction, line, start + letter_count));
            assert(in_grid(self.cells(), *direction, line, start + letter_count));
            proof {
                match direction {
                    Direction::Horizontal => {
                        assert(self.cells()[line] == self.grid@[line].row@);
                        assert(self.grid@[line].row.len() == self.grid@[line].row@.len());
                    },
                    Direction::Verticle => {
                        assert(self.grid.len() == self.grid@.len());
                    },
                }
            }
            let next_index = if letter_count < intersection_index {
                origin - (intersection_index - letter_count)
            } else if letter_count == intersection_index {
                origin
            } else {
                origin + (letter_count - intersection_index)
            };
            let ghost before = self.cells();
            match direction {
                Direction::Horizontal => {
                    self.grid[y].row[next_index] = Some(letter);
                },
                Direction::Verticle => {
                    self.grid[next_index].row[x] = Some(letter);
                },
            }
            proof {
                lemma_write_step(g0, s, *direction, line, start, letter_count as int);
                assert(self.cells() =~~= write_word(g0, s.take(letter_count + 1), *direction, line, start));
            }
            letter_count += 1;
        }
        assert(s.take(n as int) =~= s);
        let placement_x = match direction {
            Direction::Horizontal => x - intersection_index,
            Direction::Verticle => x,
        };
        let placement_y = match direction {
            Direction::Horizontal => y,
            Direction::Verticle => y - intersection_index,
        };
        let placement = Placement { direction: *direction, x: placement_x, y: placement_y };
        self.words.push(PlacedWord { word, placement });
    }
}

impl Solution {
    /// The outcome of the fit check of `word` with its letter `ii` at (`x`, `y`) in
    /// direction `d`, on this solution's grid and words.
    pub open spec fn fit(&self, word: Word, x: int, y: int, ii: int, d: Direction) -> Outcome {
        fit_check(self.cells(), self.words@, self.w(), self.h(), word.text@, x, y, ii, d)
    }

    /// Checks whether `word` can stand with its letter `intersection_index` at (`x`, `y`) in
    /// `direction` (see [`fit_check`]).
    pub(crate) fn _can_place(
        &self,
        word: &Word,
        x: usize,
        y: usize,
        intersection_index: usize,
        direction: &Direction,
    ) -> (res: bool)
        requires
            self.fit(*word, x as int, y as int, intersection_index as int, *direction) != Outcome::Faulted,
        ensures
            res == (self.fit(*word, x as int, y as int, intersection_index as int, *direction) == Outcome::Accepted),
    {
        match self.fit_outcome(word, x, y, intersection_index, direction) {
            Outcome::Accepted => true,
            _ => false,
        }
    }

    /// The content of space `idx` along `line` in direction `d`, or `None` when the space lies
    /// outside the grid.
    fn cell_checked(&self, d: &Direction, line: usize, idx: usize) -> (res: Option<Option<char>>)
        ensures
            res is Some <==> in_grid(self.cells(), *d, line as int, idx as int),
            res matches Some(v) ==> v == at(self.cells(), *d, line as int, idx as int),
    {
        let (r, c) = match d {
            Direction::Horizontal => (line, idx),
            Direction::Verticle => (idx, line),
        };
        if r >= self.grid.len() {
            return None;
        }
        assert(self.cells()[r as int] == self.grid@[r as int].row@);
        if c >= self.grid[r].row.len() {
            return None;
        }
        Some(self.grid[r].row[c])
    }

    /// The outcome of the fit check of `word` with its letter `intersection_index` at (`x`, `y`)
    /// in `direction` (see [`fit_check`]), without reading outside the grid: a check that would
    /// read outside it or overflow an index is `Faulted`.
    pub fn fit_outcome(
        &self,
        word: &Word,
        x: usize,
        y: usize,
        intersection_index: usize,
        direction: &Direction,
    ) -> (res: Outcome)
        ensures
            res == self.fit(*word, x as int, y as int, intersection_index as int, *direction),
    {
        let ghost g = self.cells();
        let ghost placed = self.words@;
        let ghost s = word.text@;
        let ghost outcome = self.fit(*word, x as int, y as int, intersection_index as int, *direction);
        let letters = text_chars(&word.text);
        let b = letters.len();
        if b < 1 {
            return Outcome::Faulted;
        }
        let last_index = b - 1;
        if intersection_index > last_index {
            return Outcome::Rejected;
        }
        let origin = match direction {
            Direction::Horizontal => x,
            Direction::Verticle => y,
        };
        let line = match direction {
            Direction::Horizontal => y,
            Direction::Verticle => x,
        };
        if intersection_index > origin {
            return Outcome::Rejected;
        }
        let start = origin - intersection_index;
        if start > 0 {
            match self.cell_checked(direction, line, start - 1) {
                None => {
                    return Outcome::Faulted;
                },
                Some(prefix) => {
                    if prefix.is_some() {
                        return Outcome::Rejected;
                    }
                },
            }
        }
        let side = match direction {
            Direction::Horizontal => self.width,
            Direction::Verticle => self.height,
        };
        if side < 1 {
            return Outcome::Faulted;
        }
        let edge = side - 1;
        let cross_side = match direction {
            Direction::Horizontal => self.height,
            Direction::Verticle => self.width,
        };
        let ghost cross: int = cross_side - 1;
        if last_index > usize::MAX - start {
            return Outcome::Faulted;
        }
        let end = start + last_index;
        if end > edge {
            return Outcome::Rejected;
        }
        if end < edge {
            match self.cell_checked(direction, line, end + 1) {
                None => {
                    return Outcome::Faulted;
                },
                Some(suffix) => {
                    if suffix.is_some() {
                        return Outcome::Rejected;
                    }
                },
            }
        }
        assert(outcome == letters_check(g, placed, s, *direction, line as int, start as int, cross, 0));
        let n = letters.len();
        let mut letter_count: usize = 0;
        while letter_count < n
            invariant
                letters@ == s,
                n == s.len(),
                n <= b,
                letter_count <= n,
                g == self.cells(),
                start + last_index == end,
                last_index == b - 1,
                end <= edge,
                outcome == self.fit(*word, x as int, y as int, intersection_index as int, *direction),
                outcome == letters_check(g, placed, s, *direction, line as int, start as int, cross, letter_count as int),
                cross == cross_side - 1,
            decreases n - letter_count,
        {
            let idx = start + letter_count;
            let above_or_before = if line != 0 {
                match self.cell_checked(direction, line - 1, idx) {
                    None => {
                        return Outcome::Faulted;
                    },
                    Some(v) => v,
                }
            } else {
                None
            };
            let below_or_after = if cross_side >= 1 && line < cross_side - 1 {
                match self.cell_checked(direction, line + 1, idx) {
                    None => {
                        return Outcome::Faulted;
                    },
                    Some(v) => v,
                }
            } else {
                None
            };
            let space = match self.cell_checked(direction, line, idx) {
                None => {
                    return Outcome::Faulted;
                },
                Some(v) => v,
            };
            match space {
                Some(c) => {
                    if letters[letter_count] != c {
                        return Outcome::Rejected;
                    }
                },
                None => {
                    if above_or_before.is_some() || below_or_after.is_some() {
                        return Outcome::Rejected;
                    }
                },
            }
            letter_count += 1;
        }
        let mut j: usize = 0;
        while j < self.words.len()
            invariant
                n == s.len(),
                1 <= n <= b,
                j <= self.words@.len(),
                placed == self.words@,
                start + last_index == end,
                last_index == b - 1,
                end <= edge,
                outcome == self.fit(*word, x as int, y as int, intersection_index as int, *direction),
                outcome == overlap_check(placed, *direction, line as int, start as int, n as int, j as int),
            decreases self.words@.len() - j,
        {
            let placed_word = &self.words[j];
            if placed_word.placement.direction == *direction {
                let placed_line = match direction {
                    Direction::Horizontal => placed_word.placement.y,
                    Direction::Verticle => placed_word.placement.x,
                };
                if placed_line == line {
                    let lst_index = start + (n - 1);
                    let current_fst = match direction {
                        Direction::Horizontal => placed_word.placement.x,
                        Direction::Verticle => placed_word.placement.y,
                    };
                    let placed_count = placed_word.word.text.as_str().unicode_len();
                    if placed_count < 1 {
                        return Outcome::Faulted;
                    }
                    if placed_count - 1 > usize::MAX - current_fst {
                        return Outcome::Faulted;
                    }
                    let current_lst = current_fst + (placed_count - 1);
                    if start <= current_lst && lst_index >= current_fst {
                        return Outcome::Rejected;
                    }
                }
            }
            j += 1;
        }
        Outcome::Accepted
    }
}

impl Solution {
    /// The solution `self` with `word` written so that its letter `ii` stands at (`x`, `y`)
    /// in direction `d`, and recorded among the words.
    pub open spec fn placed(&self, word: Word, x: int, y: int, ii: int, d: Direction, next: Solution) -> bool {
        &&& next.cells() == write_word(self.cells(), word.text@, d, line_of(d, x, y), origin_of(d, x, y) - ii)
        &&& next.words@ == self.words@.push(PlacedWord { word, placement: start_placement(x, y, ii, d) })
        &&& next.width == self.width
        &&& next.height == self.height
    }

    /// Checks `word` with its letter `intersection_index` at (`x`, `y`) in the direction drawn
    /// first at random, then in the other one; returns the first direction that fits.
    pub(crate) fn can_place(&self, word: &Word, x: usize, y: usize, intersection_index: usize) -> (res: Option<Direction>)
        requires
            self.fit(*word, x as int, y as int, intersection_index as int, Direction::Horizontal) != Outcome::Faulted,
            self.fit(*word, x as int, y as int, intersection_index as int, Direction::Verticle) != Outcome::Faulted,
        ensures
            match res {
                Some(d) => self.fit(*word, x as int, y as int, intersection_index as int, d) == Outcome::Accepted,
                None => self.fit(*word, x as int, y as int, intersection_index as int, Direction::Horizontal) != Outcome::Accepted
                    && self.fit(*word, x as int, y as int, intersection_index as int, Direction::Verticle) != Outcome::Accepted,
            },
    {
        let b = word.text.as_str().unicode_len();
        if intersection_index > b - 1 {
            return None;
        }
        let first_try = random_direction();
        let second_try = first_try.other();
        if self._can_place(word, x, y, intersection_index, &first_try) {
            Some(first_try)
        } else if self._can_place(word, x, y, intersection_index, &second_try) {
            Some(second_try)
        } else {
            None
        }
    }

    /// Places `word` with its letter `intersection_index` at (`x`, `y`) in a direction in which
    /// it fits (see [`Solution::can_place`]).
    pub(crate) fn place(&mut self, word: Word, x: usize, y: usize, intersection_index: usize) -> (res: Result<(), CrosswordError>)
        requires
            x < old(self).width && y < old(self).height ==> {
                &&& old(self).fit(word, x as int, y as int, intersection_index as int, Direction::Horizontal) != Outcome::Faulted
                &&& old(self).fit(word, x as int, y as int, intersection_index as int, Direction::Verticle) != Outcome::Faulted
            },
        ensures
            res == Err::<(), CrosswordError>(CrosswordError::PointOutOfBounds) <==> (x >= old(self).width || y >= old(self).height),
            res == Err::<(), CrosswordError>(CrosswordError::BadFit) <==> (x < old(self).width && y < old(self).height
                && old(self).fit(word, x as int, y as int, intersection_index as int, Direction::Horizontal) != Outcome::Accepted
                && old(self).fit(word, x as int, y as int, intersection_index as int, Direction::Verticle) != Outcome::Accepted),
            res is Ok <==> (x < old(self).width && y < old(self).height && (old(self).fit(
                word,
                x as int,
                y as int,
                intersection_index as int,
                Direction::Horizontal,
            ) == Outcome::Accepted || old(self).fit(word, x as int, y as int, intersection_index as int, Direction::Verticle)
                == Outcome::Accepted)),
            res is Err ==> *final(self) == *old(self),
            res is Ok ==> exists|d: Direction| {
                &&& old(self).fit(word, x as int, y as int, intersection_index as int, d) == Outcome::Accepted
                &&& #[trigger] old(self).placed(word, x as int, y as int, intersection_index as int, d, *final(self))
            },
    {
        if x >= self.width || y >= self.height {
            return Err(CrosswordError::PointOutOfBounds);
        }
        let placement_direction = self.can_place(&word, x, y, intersection_index);
        if let Some(direction) = placement_direction {
            proof {
                lemma_accepted_span(*self, word, x as int, y as int, intersection_index as int, direction);
            }
            let ghost before = *self;
            self._unchecked_place(word, x, y, intersection_index, &direction);
            assert(before.placed(word, x as int, y as int, intersection_index as int, direction, *self));
            Ok(())
        } else {
            Err(CrosswordError::BadFit)
        }
    }

    /// Places `word` at (`x`, `y`) in `direction` if it fits there; tells whether it did.
    pub(crate) fn checked_place(
        &mut self,
        word: Word,
        x: usize,
        y: usize,
        intersection_index: usize,
        direction: &Direction,
    ) -> (res: bool)
        requires
            old(self).fit(word, x as int, y as int, intersection_index as int, *direction) != Outcome::Faulted,
        ensures
            res == (old(self).fit(word, x as int, y as int, intersection_index as int, *direction) == Outcome::Accepted),
            res ==> old(self).placed(word, x as int, y as int, intersection_index as int, *direction, *final(self)),
            !res ==> *final(self) == *old(self),
    {
        if self._can_place(&word, x, y, intersection_index, direction) {
            proof {
                lemma_accepted_span(*self, word, x as int, y as int, intersection_index as int, *direction);
            }
            self._unchecked_place(word, x, y, intersection_index, direction);
            true
        } else {
            false
        }
    }
}

/// The letters of a list of rows.
pub open spec fn rows_cells(rows: Seq<SolutionRow>) -> CharGrid {
    rows.map_values(|r: SolutionRow| r.row@)
}

/// Whether a row holds no letter.
pub open spec fn blank_row(row: Seq<Option<char>>) -> bool {
    forall|c: int| 0 <= c < row.len() ==> #[trigger] row[c] is None
}

/// Whether column `c` holds no letter in any row.
pub open spec fn blank_column(g: CharGrid, c: int) -> bool {
    forall|r: int| 0 <= r < g.len() ==> #[trigger] g[r][c] is None
}

/// The number of blank rows among the first `n` rows of `g`.
pub open spec fn blank_rows(g: CharGrid, n: int) -> int
    decreases n,
{
    if n <= 0 {
        0
    } else {
        blank_rows(g, n - 1) + if blank_row(g[n - 1]) { 1int } else { 0int }
    }
}

/// The number of blank columns among the first `n` columns of `g`.
pub open spec fn blank_columns(g: CharGrid, n: int) -> int
    decreases n,
{
    if n <= 0 {
        0
    } else {
        blank_columns(g, n - 1) + if blank_column(g, n - 1) { 1int } else { 0int }
    }
}

impl Solution {
    /// Checks a solution, for instance one that comes from outside: replays its words one by
    /// one on a blank grid of its size, each checked at its own placement against the words
    /// before it, then compares the grid built with the solution's grid.
    /// `Err(BadConfig)` when a word does not fit or would reach outside the grid, and
    /// `Err(WordMismatch)` when the grids differ.
    pub fn is_valid(&self) -> (res: Result<(), CrosswordError>)
        ensures
            res is Ok <==> (replay(self.w(), self.h(), self.words@).0 == Outcome::Accepted
                && replay(self.w(), self.h(), self.words@).1 == self.cells()),
            res == Err::<(), CrosswordError>(CrosswordError::BadConfig) <==> replay(self.w(), self.h(), self.words@).0
                != Outcome::Accepted,
            res == Err::<(), CrosswordError>(CrosswordError::WordMismatch) <==> (replay(self.w(), self.h(), self.words@).0
                == Outcome::Accepted && replay(self.w(), self.h(), self.words@).1 != self.cells()),
    {
        let ghost ws = self.words@;
        let ghost w = self.w();
        let ghost h = self.h();
        let mut crossword = Solution::new_empty(self.width, self.height);
        let mut i: usize = 0;
        assert(ws.take(0) =~= Seq::<PlacedWord>::empty());
        while i < self.words.len()
            invariant
                ws == self.words@,
                w == self.w(),
                h == self.h(),
                i <= ws.len(),
                crossword.w() == w,
                crossword.h() == h,
                crossword.words@ == ws.take(i as int),
                replay(w, h, ws.take(i as int)).0 == Outcome::Accepted,
                crossword.cells() == replay(w, h, ws.take(i as int)).1,
            decreases ws.len() - i,
        {
            let word = &self.words[i];
            proof {
                assert(ws.take(i + 1).drop_last() =~= ws.take(i as int));
                assert(ws.take(i + 1).last() == ws[i as int]);
            }
            if crossword.fit_outcome(&word.word, word.placement.x, word.placement.y, 0, &word.placement.direction)
                == Outcome::Faulted {
                proof {
                    lemma_replay_stuck(w, h, ws, i + 1);
                }
                return Err(CrosswordError::BadConfig);
            }
            if !crossword.checked_place(
                word.word.clone(),
                word.placement.x,
                word.placement.y,
                0,
                &word.placement.direction,
            ) {
                proof {
                    lemma_replay_stuck(w, h, ws, i + 1);
                }
                return Err(CrosswordError::BadConfig);
            }
            proof {
                assert(crossword.words@ =~= ws.take(i + 1));
            }
            i += 1;
        }
        assert(ws.take(ws.len() as int) =~= ws);
        if !grids_equal(&crossword.grid, &self.grid) {
            return Err(CrosswordError::WordMismatch);
        }
        Ok(())
    }

    /// The outcome of replaying the solution's words on a blank grid of its size (see
    /// [`replay`]) without reading outside the grid: `Faulted` when a word would reach outside
    /// it.
    pub fn replay_outcome(&self) -> (res: Outcome)
        ensures
            res == replay(self.w(), self.h(), self.words@).0,
    {
        let ghost ws = self.words@;
        let ghost w = self.w();
        let ghost h = self.h();
        let mut crossword = Solution::new_empty(self.width, self.height);
        let mut i: usize = 0;
        assert(ws.take(0) =~= Seq::<PlacedWord>::empty());
        while i < self.words.len()
            invariant
                ws == self.words@,
                w == self.w(),
                h == self.h(),
                i <= ws.len(),
                crossword.w() == w,
                crossword.h() == h,
                crossword.words@ == ws.take(i as int),
                replay(w, h, ws.take(i as int)).0 == Outcome::Accepted,
                crossword.cells() == replay(w, h, ws.take(i as int)).1,
            decreases ws.len() - i,
        {
            let word = &self.words[i];
            proof {
                assert(ws.take(i + 1).drop_last() =~= ws.take(i as int));
                assert(ws.take(i + 1).last() == ws[i as int]);
            }
            match crossword.fit_outcome(&word.word, word.placement.x, word.placement.y, 0, &word.placement.direction) {
                Outcome::Accepted => {
                    proof {
                        lemma_accepted_span(crossword, word.word, word.placement.x as int, word.placement.y as int, 0, word.placement.direction);
                    }
                    crossword._unchecked_place(word.word.clone(), word.placement.x, word.placement.y, 0, &word.placement.direction);
                    proof {
                        assert(crossword.words@ =~= ws.take(i + 1));
                    }
                },
                other => {
                    proof {
                        lemma_replay_stuck(w, h, ws, i + 1);
                    }
                    return other;
                },
            }
            i += 1;
        }
        assert(ws.take(ws.len() as int) =~= ws);
        Outcome::Accepted
    }

    /// The number of columns that hold no letter.
    pub(crate) fn empty_columns(&self) -> (res: usize)
        requires
            self.wf(),
        ensures
            res == blank_columns(self.cells(), self.w()),
    {
        let mut acc: usize = 0;
        let mut i: usize = 0;
        while i < self.width
            invariant
                self.wf(),
                i <= self.width,
                acc == blank_columns(self.cells(), i as int),
                acc <= i,
            decreases self.width - i,
        {
            let mut is_empty = true;
            let mut r: usize = 0;
            while r < self.grid.len()
                invariant_except_break
                    is_empty,
                    forall|q: int| 0 <= q < r ==> #[trigger] self.cells()[q][i as int] is None,
                invariant
                    self.wf(),
                    i < self.width,
                    r <= self.grid@.len(),
                ensures
                    is_empty ==> forall|q: int| 0 <= q < self.grid@.len() ==> #[trigger] self.cells()[q][i as int] is None,
                    !is_empty ==> exists|q: int| 0 <= q < self.grid@.len() && #[trigger] self.cells()[q][i as int] is Some,
                decreases self.grid@.len() - r,
            {
                assert(self.cells()[r as int] == self.grid@[r as int].row@);
                if self.grid[r].row[i].is_some() {
                    is_empty = false;
                    break;
                }
                r += 1;
            }
            assert(is_empty == blank_column(self.cells(), i as int));
            if is_empty {
                acc += 1;
            }
            i += 1;
        }
        acc
    }

    /// The number of rows that hold no letter.
    pub(crate) fn empty_rows(&self) -> (res: usize)
        ensures
            res == blank_rows(self.cells(), self.grid@.len() as int),
    {
        let mut acc: usize = 0;
        let mut r: usize = 0;
        while r < self.grid.len()
            invariant
                r <= self.grid@.len(),
                acc == blank_rows(self.cells(), r as int),
                acc <= r,
            decreases self.grid@.len() - r,
        {
            let row = &self.grid[r].row;
            assert(self.cells()[r as int] == row@);
            let mut is_empty = true;
            let mut c: usize = 0;
            while c < row.len()
                invariant_except_break
                    is_empty,
                    forall|q: int| 0 <= q < c ==> #[trigger] row@[q] is None,
                invariant
                    c <= row@.len(),
                ensures
                    is_empty ==> forall|q: int| 0 <= q < row@.len() ==> #[trigger] row@[q] is None,
                    !is_empty ==> exists|q: int| 0 <= q < row@.len() && #[trigger] row@[q] is Some,
                decreases row@.len() - c,
            {
                if row[c].is_some() {
                    is_empty = false;
                    break;
                }
                c += 1;
            }
            assert(is_empty == blank_row(row@));
            if is_empty {
                acc += 1;
            }
            r += 1;
        }
        acc
    }
}

/// Whether two spaces hold the same content.
fn same_space(a: Option<char>, b: Option<char>) -> (res: bool)
    ensures
        res == (a == b),
{
    match (a, b) {
        (Some(x), Some(y)) => x == y,
        (None, None) => true,
        _ => false,
    }
}

/// Once a replay stops accepting, replaying more words does not change its outcome.
pub proof fn lemma_replay_stuck(w: int, h: int, ws: Seq<PlacedWord>, j: int)
    requires
        0 <= j <= ws.len(),
        replay(w, h, ws.take(j)).0 != Outcome::Accepted,
    ensures
        replay(w, h, ws) == replay(w, h, ws.take(j)),
    decreases ws.len(),
{
    if j == ws.len() {
        assert(ws.take(j) =~= ws);
    } else {
        assert(ws.drop_last().take(j) =~= ws.take(j));
        lemma_replay_stuck(w, h, ws.drop_last(), j);
    }
}

/// Whether two lists of rows hold the same spaces.
pub(crate) fn grids_equal(a: &Vec<SolutionRow>, b: &Vec<SolutionRow>) -> (res: bool)
    ensures
        res == (rows_cells(a@) == rows_cells(b@)),
{
    if a.len() != b.len() {
        assert(rows_cells(a@).len() != rows_cells(b@).len());
        return false;
    }
    let mut r: usize = 0;
    while r < a.len()
        invariant
            a@.len() == b@.len(),
            r <= a@.len(),
            forall|q: int| 0 <= q < r ==> #[trigger] a@[q].row@ == b@[q].row@,
        decreases a@.len() - r,
    {
        let ra = &a[r].row;
        let rb = &b[r].row;
        if ra.len() != rb.len() {
            assert(rows_cells(a@)[r as int].len() != rows_cells(b@)[r as int].len());
            return false;
        }
        let mut c: usize = 0;
        while c < ra.len()
            invariant
                ra@.len() == rb@.len(),
                c <= ra@.len(),
                a@.len() == b@.len(),
                r < a@.len(),
                ra@ == a@[r as int].row@,
                rb@ == b@[r as int].row@,
                forall|q: int| 0 <= q < c ==> #[trigger] ra@[q] == rb@[q],
            decreases ra@.len() - c,
        {
            assert(rows_cells(a@)[r as int] == ra@ && rows_cells(b@)[r as int] == rb@);
            if !same_space(ra[c], rb[c]) {
                assert(rows_cells(a@)[r as int][c as int] != rows_cells(b@)[r as int][c as int]);
                return false;
            }
            c += 1;
        }
        assert(ra@ =~= rb@);
        r += 1;
    }
    assert(rows_cells(a@) =~= rows_cells(b@));
    true
}

/// A word that passes the fit check lies inside the grid.
pub proof fn lemma_accepted_span(sol: Solution, word: Word, x: int, y: int, ii: int, d: Direction)
    requires
        sol.fit(word, x, y, ii, d) == Outcome::Accepted,
    ensures
        ii <= origin_of(d, x, y),
        span_in_grid(sol.cells(), d, line_of(d, x, y), origin_of(d, x, y) - ii, word.text@.len() as int),
{
    let g = sol.cells();
    let s = word.text@;
    let line = line_of(d, x, y);
    let start = origin_of(d, x, y) - ii;
    let cross = (if d == Direction::Horizontal { sol.h() } else { sol.w() }) - 1;
    lemma_letters_in_grid(g, sol.words@, s, d, line, start, cross, 0);
    assert(in_grid(g, d, line, start));
    assert(in_grid(g, d, line, start + (s.len() - 1)));
    if d == Direction::Verticle {
        assert forall|r: int| start <= r < start + s.len() implies line < #[trigger] g[r].len() by {
            assert(in_grid(g, d, line, start + (r - start)));
        }
    }
}

/// When the letter check accepts from `k` on, each letter's space from `k` on lies in the grid.
pub proof fn lemma_letters_in_grid(
    g: CharGrid,
    placed: Seq<PlacedWord>,
    s: Seq<char>,
    d: Direction,
    line: int,
    start: int,
    edge: int,
    k: int,
)
    requires
        0 <= k,
        letters_check(g, placed, s, d, line, start, edge, k) == Outcome::Accepted,
    ensures
        forall|i: int| k <= i < s.len() ==> in_grid(g, d, line, #[trigger] (start + i)),
    decreases s.len() - k,
{
    if k < s.len() {
        lemma_letters_in_grid(g, placed, s, d, line, start, edge, k + 1);
    }
}

/// The chars of a string, in order.
pub(crate) fn text_chars(s: &String) -> (res: Vec<char>)
    ensures
        res@ == s@,
{
    let st = s.as_str();
    let n = st.unicode_len();
    let mut v: Vec<char> = Vec::new();
    let mut i: usize = 0;
    while i < n
        invariant
            i <= n,
            n == st@.len(),
            st@ == s@,
            v@ == st@.take(i as int),
        decreases n - i,
    {
        v.push(st.get_char(i));
        i += 1;
        assert(v@ =~= st@.take(i as int));
    }
    assert(st@.take(n as int) =~= st@);
    v
}

/// Writing the next letter of a word onto the grid that holds its first `k` letters gives
/// the grid that holds its first `k + 1` letters.
pub proof fn lemma_write_step(g: CharGrid, s: Seq<char>, d: Direction, line: int, start: int, k: int)
    requires
        0 <= k < s.len(),
        in_grid(g, d, line, start + k),
    ensures
        ({
            let g1 = write_word(g, s.take(k), d, line, start);
            let g2 = write_word(g, s.take(k + 1), d, line, start);
            match d {
                Direction::Horizontal => g2 == g1.update(line, g1[line].update(start + k, Some(s[k]))),
                Direction::Verticle => g2 == g1.update(start + k, g1[start + k].update(line, Some(s[k]))),
            }
        }),
{
    let g1 = write_word(g, s.take(k), d, line, start);
    let g2 = write_word(g, s.take(k + 1), d, line, start);
    match d {
        Direction::Horizontal => {
            let g3 = g1.update(line, g1[line].update(start + k, Some(s[k])));
            assert forall|r: int| 0 <= r < g2.len() implies g2[r] =~= g3[r] by {}
            assert(g2 =~= g3);
        },
        Direction::Verticle => {
            let g3 = g1.update(start + k, g1[start + k].update(line, Some(s[k])));
            assert forall|r: int| 0 <= r < g2.len() implies g2[r] =~= g3[r] by {}
            assert(g2 =~= g3);
        },
    }
}

} // verus!

verus! {

/// The length of the grid along direction `d`: its width for a horizontal word, its height
/// for a vertical one.
pub open spec fn along(d: Direction, w: int, h: int) -> int {
    if d == Direction::Horizontal { w } else { h }
}

/// The length of the grid across direction `d`: its height for a horizontal word, its width
/// for a vertical one.
pub open spec fn across(d: Direction, w: int, h: int) -> int {
    if d == Direction::Horizontal { h } else { w }
}

/// Whether the placed word `pw` holds at least one char and lies inside a grid of width `w`
/// and height `h`.
pub open spec fn word_inside(pw: PlacedWord, w: int, h: int) -> bool {
    &&& pw.word.text@.len() >= 1
    &&& 0 <= pw.line() < across(pw.placement.direction, w, h)
    &&& pw.start() + pw.word.text@.len() <= along(pw.placement.direction, w, h)
}

/// The grid of width `w` and height `h` on which the words `ws` are written one after the
/// other, each at its placement, starting from a blank grid.
pub open spec fn painted(w: int, h: int, ws: Seq<PlacedWord>) -> CharGrid
    decreases ws.len(),
{
    if ws.len() == 0 {
        empty_grid(w, h)
    } else {
        let pw = ws.last();
        write_word(painted(w, h, ws.drop_last()), pw.word.text@, pw.placement.direction, pw.line(), pw.start())
    }
}

impl Solution {
    /// A solution in shape: a grid of its size, small enough to be held in memory, whose
    /// placed words each hold at least one char and lie inside it, and whose letters are
    /// exactly those of its words written in turn.
    pub open spec fn in_shape(&self) -> bool {
        &&& self.wf()
        &&& self.width <= usize::MAX / 8
        &&& self.height <= usize::MAX / 8
        &&& forall|k: int| 0 <= k < self.words@.len() ==> word_inside(#[trigger] self.words@[k], self.w(), self.h())
        &&& self.cells() == painted(self.w(), self.h(), self.words@)
    }

    /// Replaying the solution's words on a blank grid accepts each of them and builds the
    /// solution's grid: exactly what [`Solution::is_valid`] accepts.
    pub open spec fn coherent(&self) -> bool {
        replay(self.w(), self.h(), self.words@) == (Outcome::Accepted, self.cells())
    }
}

/// Writing a word keeps the shape of the grid.
pub proof fn lemma_write_shaped(g: CharGrid, s: Seq<char>, d: Direction, line: int, start: int, w: int, h: int)
    requires
        shaped(g, w, h),
    ensures
        shaped(write_word(g, s, d, line, start), w, h),
{
}

/// The overlap check cannot fault against words that lie inside a grid whose sides fit a
/// `usize`.
pub proof fn lemma_overlap_safe(placed: Seq<PlacedWord>, d: Direction, line: int, start: int, n: int, j: int, w: int, h: int)
    requires
        w <= usize::MAX,
        h <= usize::MAX,
        forall|k: int| 0 <= k < placed.len() ==> word_inside(#[trigger] placed[k], w, h),
    ensures
        overlap_check(placed, d, line, start, n, j) != Outcome::Faulted,
    decreases placed.len() - j,
{
    if 0 <= j < placed.len() {
        assert(word_inside(placed[j], w, h));
        lemma_overlap_safe(placed, d, line, start, n, j + 1, w, h);
    }
}

/// The letter check cannot fault when the word lies inside the grid.
pub proof fn lemma_letters_safe(
    g: CharGrid,
    placed: Seq<PlacedWord>,
    s: Seq<char>,
    d: Direction,
    line: int,
    start: int,
    k: int,
    w: int,
    h: int,
)
    requires
        shaped(g, w, h),
        0 <= line < across(d, w, h),
        0 <= start,
        start + s.len() <= along(d, w, h),
        overlap_check(placed, d, line, start, s.len() as int, 0) != Outcome::Faulted,
    ensures
        letters_check(g, placed, s, d, line, start, across(d, w, h) - 1, k) != Outcome::Faulted,
    decreases s.len() - k,
{
    if 0 <= k < s.len() {
        lemma_letters_safe(g, placed, s, d, line, start, k + 1, w, h);
    }
}

/// On a solution in shape, checking a word of at least one char and at most `usize::MAX / 8`
/// chars at a point inside the grid cannot fault.
pub proof fn lemma_fit_safe(sol: Solution, word: Word, x: int, y: int, ii: int, d: Direction)
    requires
        sol.in_shape(),
        0 <= x < sol.w(),
        0 <= y < sol.h(),
        0 <= ii,
        1 <= word.text@.len() <= usize::MAX / 8,
    ensures
        sol.fit(word, x, y, ii, d) != Outcome::Faulted,
{
    let s = word.text@;
    let n = s.len() as int;
    let w = sol.w();
    let h = sol.h();
    let g = sol.cells();
    if ii <= n - 1 && ii <= origin_of(d, x, y) {
        let line = line_of(d, x, y);
        let start = origin_of(d, x, y) - ii;
        lemma_overlap_safe(sol.words@, d, line, start, n, 0, w, h);
        if start + n - 1 <= along(d, w, h) - 1 {
            lemma_letters_safe(g, sol.words@, s, d, line, start, 0, w, h);
        }
        if start > 0 {
            assert(in_grid(g, d, line, start - 1));
        }
        if start + n - 1 < along(d, w, h) - 1 {
            assert(in_grid(g, d, line, start + n));
        }
    }
}

/// On a blank grid with no words, a word of at least one char that lies inside the grid
/// passes the fit check.
pub proof fn lemma_fresh_fit(w: int, h: int, s: Seq<char>, d: Direction, line: int, start: int)
    requires
        0 <= w <= usize::MAX,
        0 <= h <= usize::MAX,
        0 <= line < across(d, w, h),
        0 <= start,
        s.len() >= 1,
        start + s.len() <= along(d, w, h),
    ensures
        fit_from_start(empty_grid(w, h), Seq::<PlacedWord>::empty(), w, h, s, d, line, start) == Outcome::Accepted,
{
    let g = empty_grid(w, h);
    lemma_fresh_letters(w, h, s, d, line, start, 0);
    if start > 0 {
        assert(in_grid(g, d, line, start - 1));
    }
    if start + s.len() - 1 < along(d, w, h) - 1 {
        assert(in_grid(g, d, line, start + s.len()));
    }
}

/// On a blank grid with no words, the letter check accepts a word that lies inside.
pub proof fn lemma_fresh_letters(w: int, h: int, s: Seq<char>, d: Direction, line: int, start: int, k: int)
    requires
        0 <= w,
        0 <= h,
        0 <= line < across(d, w, h),
        0 <= start,
        start + s.len() <= along(d, w, h),
    ensures
        letters_check(empty_grid(w, h), Seq::<PlacedWord>::empty(), s, d, line, start, across(d, w, h) - 1, k)
            == Outcome::Accepted,
    decreases s.len() - k,
{
    if 0 <= k < s.len() {
        lemma_fresh_letters(w, h, s, d, line, start, k + 1);
    }
}

/// Checking a word by one of its letters or by its first letter at the start of the word
/// comes to the same.
pub proof fn lemma_fit_at_start(sol: Solution, word: Word, x: int, y: int, ii: int, d: Direction)
    requires
        sol.fit(word, x, y, ii, d) == Outcome::Accepted,
        0 <= ii,
        0 <= x <= usize::MAX,
        0 <= y <= usize::MAX,
    ensures
        ({
            let p = start_placement(x, y, ii, d);
            sol.fit(word, p.x as int, p.y as int, 0, d) == Outcome::Accepted
        }),
{
}

/// Placing a word that passes the fit check extends a coherent solution into a coherent one.
pub proof fn lemma_place_coherent(sol: Solution, word: Word, x: int, y: int, ii: int, d: Direction, next: Solution)
    requires
        sol.coherent(),
        sol.fit(word, x, y, ii, d) == Outcome::Accepted,
        sol.placed(word, x, y, ii, d, next),
        0 <= ii,
        0 <= x <= usize::MAX,
        0 <= y <= usize::MAX,
    ensures
        next.coherent(),
{
    lemma_fit_at_start(sol, word, x, y, ii, d);
    assert(next.words@.drop_last() =~= sol.words@);
}

/// Placing a word that passes the fit check keeps a solution in shape.
pub proof fn lemma_place_in_shape(sol: Solution, word: Word, x: int, y: int, ii: int, d: Direction, next: Solution)
    requires
        sol.in_shape(),
        sol.fit(word, x, y, ii, d) == Outcome::Accepted,
        sol.placed(word, x, y, ii, d, next),
        0 <= ii,
        0 <= x <= usize::MAX,
        0 <= y <= usize::MAX,
    ensures
        next.in_shape(),
{
    lemma_accepted_span(sol, word, x, y, ii, d);
    lemma_write_shaped(sol.cells(), word.text@, d, line_of(d, x, y), origin_of(d, x, y) - ii, sol.w(), sol.h());
    let n = next.words@.len();
    if d == Direction::Verticle {
        let start = origin_of(d, x, y) - ii;
        assert(sol.cells()[start].len() == sol.w());
    }
    assert forall|k: int| 0 <= k < n implies word_inside(#[trigger] next.words@[k], next.w(), next.h()) by {
        if k < n - 1 {
            assert(next.words@[k] == sol.words@[k]);
        }
    }
    assert(next.words@.drop_last() =~= sol.words@);
}

/// Writing the first word on the blank grid of a solution in shape, inside the grid, keeps
/// it in shape and makes it coherent.
pub proof fn lemma_first_word(sol: Solution, word: Word, x: int, y: int, ii: int, d: Direction, next: Solution)
    requires
        sol.in_shape(),
        sol.words@.len() == 0,
        sol.cells() == empty_grid(sol.w(), sol.h()),
        sol.placed(word, x, y, ii, d, next),
        0 <= ii <= origin_of(d, x, y),
        0 <= x <= usize::MAX,
        0 <= y <= usize::MAX,
        0 <= line_of(d, x, y) < across(d, sol.w(), sol.h()),
        origin_of(d, x, y) - ii + word.text@.len() <= along(d, sol.w(), sol.h()),
        word.text@.len() >= 1,
    ensures
        next.in_shape(),
        next.coherent(),
{
    let s = word.text@;
    let line = line_of(d, x, y);
    let start = origin_of(d, x, y) - ii;
    lemma_write_shaped(sol.cells(), s, d, line, start, sol.w(), sol.h());
    let pw = next.words@[0];
    assert(next.words@.len() == 1);
    assert(word_inside(pw, next.w(), next.h()));
    assert(next.words@.drop_last() =~= sol.words@);
    lemma_fresh_fit(sol.w(), sol.h(), s, d, line, start);
    assert(next.words@.drop_last() =~= Seq::<PlacedWord>::empty());
    assert(replay(sol.w(), sol.h(), Seq::<PlacedWord>::empty()) == (Outcome::Accepted, sol.cells()));
}

/// The row and column of letter `i` of the placed word `pw`.
pub open spec fn cell_of(pw: PlacedWord, i: int) -> (int, int) {
    match pw.placement.direction {
        Direction::Horizontal => (pw.placement.y as int, pw.placement.x + i),
        Direction::Verticle => (pw.placement.y + i, pw.placement.x as int),
    }
}

/// When the letter check accepts from `k` on, each letter's space from `k` on lies in the
/// grid and holds nothing or that letter, and the overlap check accepts.
pub proof fn lemma_letters_agree(
    g: CharGrid,
    placed: Seq<PlacedWord>,
    s: Seq<char>,
    d: Direction,
    line: int,
    start: int,
    edge: int,
    k: int,
)
    requires
        0 <= k,
        letters_check(g, placed, s, d, line, start, edge, k) == Outcome::Accepted,
    ensures
        forall|o: int| k <= o < s.len() ==> {
            &&& in_grid(g, d, line, #[trigger] (start + o))
            &&& at(g, d, line, start + o) matches Some(c) ==> c == s[o]
        },
        overlap_check(placed, d, line, start, s.len() as int, 0) == Outcome::Accepted,
    decreases s.len() - k,
{
    if k < s.len() {
        lemma_letters_agree(g, placed, s, d, line, start, edge, k + 1);
    }
}

/// When the overlap check accepts from `j` on, no placed word from `j` on that runs in the
/// same direction on the same line overlaps the `n` spaces from `start`.
pub proof fn lemma_overlap_disjoint(placed: Seq<PlacedWord>, d: Direction, line: int, start: int, n: int, j: int)
    requires
        0 <= j,
        overlap_check(placed, d, line, start, n, j) == Outcome::Accepted,
    ensures
        forall|q: int| j <= q < placed.len() && (#[trigger] placed[q]).placement.direction == d && placed[q].line() == line ==> {
            &&& placed[q].word.text@.len() >= 1
            &&& !(start <= placed[q].start() + placed[q].word.text@.len() - 1 && start + n - 1 >= placed[q].start())
        },
    decreases placed.len() - j,
{
    if j < placed.len() {
        lemma_overlap_disjoint(placed, d, line, start, n, j + 1);
    }
}

/// Whether the placed word `pw` covers the space at row `r`, column `c`.
pub open spec fn covered_by(pw: PlacedWord, r: int, c: int) -> bool {
    covers(pw.placement.direction, pw.line(), pw.start(), pw.word.text@.len() as int, r, c)
}

/// A letter on the grid painted with the words `ws` stands on a space that one of them covers.
pub proof fn lemma_painted_covered(w: int, h: int, ws: Seq<PlacedWord>, r: int, c: int)
    requires
        0 <= r < painted(w, h, ws).len(),
        0 <= c < painted(w, h, ws)[r].len(),
        painted(w, h, ws)[r][c] is Some,
    ensures
        exists|j: int| 0 <= j < ws.len() && #[trigger] covered_by(ws[j], r, c),
    decreases ws.len(),
{
    if ws.len() > 0 {
        let prefix = ws.drop_last();
        if covered_by(ws.last(), r, c) {
            assert(covered_by(ws[ws.len() - 1], r, c));
        } else {
            lemma_painted_covered(w, h, prefix, r, c);
            let j = choose|j: int| 0 <= j < prefix.len() && #[trigger] covered_by(prefix[j], r, c);
            assert(ws[j] == prefix[j]);
        }
    }
}

/// Whether letter `i` of `s`, standing at `start + i` along `line` in direction `d`, agrees
/// with the grid: the space holds that letter, or it is blank and so are its neighbours across
/// the line (`ac` is the number of lines across the direction).
pub open spec fn letter_agrees(g: CharGrid, s: Seq<char>, d: Direction, line: int, start: int, ac: int, i: int) -> bool {
    match at(g, d, line, start + i) {
        Some(c) => c == s[i],
        None => (line > 0 ==> at(g, d, line - 1, start + i) is None) && (line + 1 < ac ==> at(g, d, line + 1, start + i)
            is None),
    }
}

/// Whether the placed word `pw` leaves free the `n` spaces from `start` along `line` in
/// direction `d`: it runs the other way, on another line, or its span does not overlap them.
pub open spec fn leaves_free(pw: PlacedWord, d: Direction, line: int, start: int, n: int) -> bool {
    pw.placement.direction == d && pw.line() == line ==> !(start <= pw.start() + pw.word.text@.len() - 1 && start + n - 1
        >= pw.start())
}

/// Whether the chars `s` may stand from `start` along `line` in direction `d`, stated
/// directly: the word has a char and lies inside the grid, the spaces just before and just
/// after it are blank, each letter agrees with the grid (see [`letter_agrees`]), and no placed
/// word in the same direction on the same line overlaps it.
pub open spec fn fits_directly(
    g: CharGrid,
    placed: Seq<PlacedWord>,
    w: int,
    h: int,
    s: Seq<char>,
    d: Direction,
    line: int,
    start: int,
) -> bool {
    let n = s.len() as int;
    let al = along(d, w, h);
    let ac = across(d, w, h);
    &&& n >= 1
    &&& 0 <= line < ac
    &&& 0 <= start
    &&& start + n <= al
    &&& start > 0 ==> at(g, d, line, start - 1) is None
    &&& start + n < al ==> at(g, d, line, start + n) is None
    &&& forall|i: int| 0 <= i < n ==> #[trigger] letter_agrees(g, s, d, line, start, ac, i)
    &&& forall|q: int| 0 <= q < placed.len() ==> #[trigger] leaves_free(placed[q], d, line, start, n)
}

/// The overlap check accepts exactly when every placed word from `j` on leaves the span free.
pub proof fn lemma_overlap_direct(placed: Seq<PlacedWord>, d: Direction, line: int, start: int, n: int, j: int, w: int, h: int)
    requires
        0 <= j,
        w <= usize::MAX,
        h <= usize::MAX,
        forall|k: int| 0 <= k < placed.len() ==> word_inside(#[trigger] placed[k], w, h),
    ensures
        (overlap_check(placed, d, line, start, n, j) == Outcome::Accepted) <==> forall|q: int|
            j <= q < placed.len() ==> #[trigger] leaves_free(placed[q], d, line, start, n),
    decreases placed.len() - j,
{
    if j < placed.len() {
        assert(word_inside(placed[j], w, h));
        lemma_overlap_direct(placed, d, line, start, n, j + 1, w, h);
        if overlap_check(placed, d, line, start, n, j) == Outcome::Accepted {
            assert forall|q: int| j <= q < placed.len() implies #[trigger] leaves_free(placed[q], d, line, start, n) by {
                if q > j {
                    assert(overlap_check(placed, d, line, start, n, j + 1) == Outcome::Accepted);
                }
            }
        }
        if forall|q: int| j <= q < placed.len() ==> #[trigger] leaves_free(placed[q], d, line, start, n) {
            assert(leaves_free(placed[j], d, line, start, n));
            assert forall|q: int| j + 1 <= q < placed.len() implies #[trigger] leaves_free(placed[q], d, line, start, n) by {}
        }
    }
}

/// On a grid of the right shape, the letter check from `k` on accepts exactly when each
/// letter from `k` on agrees with the grid and the overlap check accepts.
pub proof fn lemma_letters_direct(
    g: CharGrid,
    placed: Seq<PlacedWord>,
    s: Seq<char>,
    d: Direction,
    line: int,
    start: int,
    k: int,
    w: int,
    h: int,
)
    requires
        0 <= k,
        shaped(g, w, h),
        0 <= line < across(d, w, h),
        0 <= start,
        start + s.len() <= along(d, w, h),
    ensures
        (letters_check(g, placed, s, d, line, start, across(d, w, h) - 1, k) == Outcome::Accepted) <==> ((forall|i: int|
            k <= i < s.len() ==> #[trigger] letter_agrees(g, s, d, line, start, across(d, w, h), i)) && overlap_check(
            placed,
            d,
            line,
            start,
            s.len() as int,
            0,
        ) == Outcome::Accepted),
    decreases s.len() - k,
{
    if k < s.len() {
        lemma_letters_direct(g, placed, s, d, line, start, k + 1, w, h);
        assert(in_grid(g, d, line, start + k));
        if line > 0 {
            assert(in_grid(g, d, line - 1, start + k));
        }
        if line + 1 < across(d, w, h) {
            assert(in_grid(g, d, line + 1, start + k));
        }
        if !letter_agrees(g, s, d, line, start, across(d, w, h), k) {
            assert(letters_check(g, placed, s, d, line, start, across(d, w, h) - 1, k) != Outcome::Accepted);
        }
    }
}

/// On a grid of the right shape whose placed words lie inside it, checked at a point inside
/// the grid, the fit check accepts exactly when the word's letter `ii` exists, the word does
/// not begin before the edge, and the word fits as [`fits_directly`] states.
pub proof fn lemma_fit_check_direct(
    g: CharGrid,
    placed: Seq<PlacedWord>,
    w: int,
    h: int,
    s: Seq<char>,
    x: int,
    y: int,
    ii: int,
    d: Direction,
)
    requires
        shaped(g, w, h),
        w <= usize::MAX / 8,
        h <= usize::MAX / 8,
        forall|k: int| 0 <= k < placed.len() ==> word_inside(#[trigger] placed[k], w, h),
        0 <= x < w,
        0 <= y < h,
        0 <= ii,
        1 <= s.len() <= usize::MAX / 8,
    ensures
        (fit_check(g, placed, w, h, s, x, y, ii, d) == Outcome::Accepted) <==> (ii < s.len() && ii <= origin_of(d, x, y)
            && fits_directly(g, placed, w, h, s, d, line_of(d, x, y), origin_of(d, x, y) - ii)),
{
    let n = s.len() as int;
    let line = line_of(d, x, y);
    if ii <= n - 1 && ii <= origin_of(d, x, y) {
        let start = origin_of(d, x, y) - ii;
        lemma_overlap_direct(placed, d, line, start, n, 0, w, h);
        if start > 0 {
            assert(in_grid(g, d, line, start - 1));
        }
        if start + n <= along(d, w, h) {
            lemma_letters_direct(g, placed, s, d, line, start, 0, w, h);
            if start + n < along(d, w, h) {
                assert(in_grid(g, d, line, start + n));
            }
        }
    }
}

/// On a solution in shape, checked at a point inside its grid, the fit check accepts exactly
/// when the word's letter `ii` exists, the word does not begin before the edge, and the word
/// fits as [`fits_directly`] states.
pub proof fn lemma_fit_is_direct(sol: Solution, word: Word, x: int, y: int, ii: int, d: Direction)
    requires
        sol.in_shape(),
        0 <= x < sol.w(),
        0 <= y < sol.h(),
        0 <= ii,
        1 <= word.text@.len() <= usize::MAX / 8,
    ensures
        (sol.fit(word, x, y, ii, d) == Outcome::Accepted) <==> (ii < word.text@.len() && ii <= origin_of(d, x, y)
            && fits_directly(sol.cells(), sol.words@, sol.w(), sol.h(), word.text@, d, line_of(d, x, y), origin_of(d, x, y) - ii)),
{
    lemma_fit_check_direct(sol.cells(), sol.words@, sol.w(), sol.h(), word.text@, x, y, ii, d);
}

/// The painted grid has the shape of the blank one.
pub proof fn lemma_painted_shaped(w: int, h: int, ws: Seq<PlacedWord>)
    requires
        0 <= w,
        0 <= h,
    ensures
        shaped(painted(w, h, ws), w, h),
    decreases ws.len(),
{
    if ws.len() > 0 {
        lemma_painted_shaped(w, h, ws.drop_last());
        let pw = ws.last();
        lemma_write_shaped(painted(w, h, ws.drop_last()), pw.word.text@, pw.placement.direction, pw.line(), pw.start(), w, h);
    }
}

/// Whether each of the words `ws` fits directly (see [`fits_directly`]) at its placement on the
/// grid painted with the words before it.
pub open spec fn replays_directly(w: int, h: int, ws: Seq<PlacedWord>) -> bool {
    forall|k: int| 0 <= k < ws.len() ==> #[trigger] fits_directly(
        painted(w, h, ws.take(k)),
        ws.take(k),
        w,
        h,
        ws[k].word.text@,
        ws[k].placement.direction,
        ws[k].line(),
        ws[k].start(),
    )
}

/// For words that lie inside a grid whose sides fit in memory, validation by replaying them
/// accepts exactly when each word fits directly on the grid painted with the words before it,
/// and then builds the grid painted with all of them.
pub proof fn lemma_replay_is_direct(w: int, h: int, ws: Seq<PlacedWord>)
    requires
        0 <= w <= usize::MAX / 8,
        0 <= h <= usize::MAX / 8,
        forall|k: int| 0 <= k < ws.len() ==> word_inside(#[trigger] ws[k], w, h),
    ensures
        (replay(w, h, ws).0 == Outcome::Accepted) <==> replays_directly(w, h, ws),
        replay(w, h, ws).0 == Outcome::Accepted ==> replay(w, h, ws).1 == painted(w, h, ws),
    decreases ws.len(),
{
    if ws.len() > 0 {
        let prefix = ws.drop_last();
        let n = prefix.len() as int;
        assert forall|k: int| 0 <= k < prefix.len() implies word_inside(#[trigger] prefix[k], w, h) by {
            assert(prefix[k] == ws[k]);
        }
        lemma_replay_is_direct(w, h, prefix);
        lemma_painted_shaped(w, h, prefix);
        let pw = ws.last();
        assert(word_inside(ws[n], w, h));
        let x = pw.placement.x as int;
        let y = pw.placement.y as int;
        lemma_fit_check_direct(painted(w, h, prefix), prefix, w, h, pw.word.text@, x, y, 0, pw.placement.direction);
        assert(ws.take(n) =~= prefix);
        assert forall|k: int| 0 <= k < n implies #[trigger] ws.take(k) == prefix.take(k) && ws[k] == prefix[k] by {
            assert(ws.take(k) =~= prefix.take(k));
        }
        if replays_directly(w, h, ws) {
            assert forall|k: int| 0 <= k < prefix.len() implies #[trigger] fits_directly(
                painted(w, h, prefix.take(k)),
                prefix.take(k),
                w,
                h,
                prefix[k].word.text@,
                prefix[k].placement.direction,
                prefix[k].line(),
                prefix[k].start(),
            ) by {
                assert(ws.take(k) == prefix.take(k) && ws[k] == prefix[k]);
                assert(fits_directly(
                    painted(w, h, ws.take(k)),
                    ws.take(k),
                    w,
                    h,
                    ws[k].word.text@,
                    ws[k].placement.direction,
                    ws[k].line(),
                    ws[k].start(),
                ));
            }
            assert(fits_directly(
                painted(w, h, ws.take(n)),
                ws.take(n),
                w,
                h,
                ws[n].word.text@,
                ws[n].placement.direction,
                ws[n].line(),
                ws[n].start(),
            ));
        }
        if replay(w, h, ws).0 == Outcome::Accepted {
            assert forall|k: int| 0 <= k < ws.len() implies #[trigger] fits_directly(
                painted(w, h, ws.take(k)),
                ws.take(k),
                w,
                h,
                ws[k].word.text@,
                ws[k].placement.direction,
                ws[k].line(),
                ws[k].start(),
            ) by {
                if k < n {
                    assert(ws.take(k) == prefix.take(k) && ws[k] == prefix[k]);
                }
            }
        }
    }
}

/// Whether the space `i` along line `l` in direction `dd` lies in the `n` spaces from `start`
/// along `line` in direction `d`.
pub open spec fn in_span(d: Direction, line: int, start: int, n: int, dd: Direction, l: int, i: int) -> bool {
    if dd == d {
        l == line && start <= i < start + n
    } else {
        i == line && start <= l < start + n
    }
}

/// The offset in that span of the space `i` along line `l` in direction `dd`.
pub open spec fn span_offset(d: Direction, start: int, dd: Direction, l: int, i: int) -> int {
    if dd == d {
        i - start
    } else {
        l - start
    }
}

/// Reading a space of a grid on which a word was written: the word's letter where it covers
/// the space, the old content elsewhere.
pub proof fn lemma_at_written(g: CharGrid, s: Seq<char>, d: Direction, line: int, start: int, dd: Direction, l: int, i: int)
    requires
        in_grid(g, dd, l, i),
    ensures
        in_grid(write_word(g, s, d, line, start), dd, l, i),
        at(write_word(g, s, d, line, start), dd, l, i) == if in_span(d, line, start, s.len() as int, dd, l, i) {
            Some(s[span_offset(d, start, dd, l, i)])
        } else {
            at(g, dd, l, i)
        },
{
}

/// Whether the spaces just before and just after the placed word `pw` are blank or beyond the
/// edge of a grid of width `w` and height `h`.
pub open spec fn ends_blank(g: CharGrid, pw: PlacedWord, w: int, h: int) -> bool {
    let d = pw.placement.direction;
    let n = pw.word.text@.len() as int;
    &&& pw.start() > 0 ==> at(g, d, pw.line(), pw.start() - 1) is None
    &&& pw.start() + n < along(d, w, h) ==> at(g, d, pw.line(), pw.start() + n) is None
}

/// Whether every letter of the placed word `pw` stands on a space holding a letter.
pub open spec fn lettered(g: CharGrid, pw: PlacedWord) -> bool {
    forall|i: int| 0 <= i < pw.word.text@.len() ==> #[trigger] at(g, pw.placement.direction, pw.line(), pw.start() + i) is Some
}

/// Whether the letters at spaces `i` and `i + 1` along line `l` in direction `dd`, when both
/// stand in the grid, lie in one of the words `ws` running in that direction.
pub open spec fn pair_joined(g: CharGrid, ws: Seq<PlacedWord>, w: int, h: int, dd: Direction, l: int, i: int) -> bool {
    (0 <= l < across(dd, w, h) && 0 <= i && i + 1 < along(dd, w, h) && at(g, dd, l, i) is Some && at(g, dd, l, i + 1)
        is Some) ==> exists|q: int|
        0 <= q < ws.len() && (#[trigger] ws[q]).placement.direction == dd && ws[q].line() == l && ws[q].start() <= i && i + 1
            < ws[q].start() + ws[q].word.text@.len()
}

/// Whether the words `ws` are the runs of letters of the grid `g`: each word's letters stand on
/// the grid and its ends are blank, and any two letters next to each other along a direction
/// lie in one word running that way. So the words of each direction are exactly the maximal
/// runs of two or more letters in that direction, when each word has two or more chars.
pub open spec fn runs_are_words(g: CharGrid, ws: Seq<PlacedWord>, w: int, h: int) -> bool {
    &&& forall|q: int| 0 <= q < ws.len() ==> ends_blank(g, #[trigger] ws[q], w, h)
    &&& forall|q: int| 0 <= q < ws.len() ==> lettered(g, #[trigger] ws[q])
    &&& forall|dd: Direction, l: int, i: int| #[trigger] pair_joined(g, ws, w, h, dd, l, i)
}

/// Writing a word that fits directly (see [`fits_directly`]) keeps the words the runs of
/// letters of the grid (see [`runs_are_words`]).
pub proof fn lemma_runs_step(g: CharGrid, ws: Seq<PlacedWord>, w: int, h: int, pw: PlacedWord)
    requires
        shaped(g, w, h),
        0 <= w,
        0 <= h,
        forall|q: int| 0 <= q < ws.len() ==> word_inside(#[trigger] ws[q], w, h),
        word_inside(pw, w, h),
        runs_are_words(g, ws, w, h),
        fits_directly(g, ws, w, h, pw.word.text@, pw.placement.direction, pw.line(), pw.start()),
    ensures
        runs_are_words(write_word(g, pw.word.text@, pw.placement.direction, pw.line(), pw.start()), ws.push(pw), w, h),
{
    let s = pw.word.text@;
    let d = pw.placement.direction;
    let line = pw.line();
    let start = pw.start();
    let n = s.len() as int;
    let ac = across(d, w, h);
    let g2 = write_word(g, s, d, line, start);
    let ws2 = ws.push(pw);
    assert forall|q: int| 0 <= q < ws2.len() implies ends_blank(g2, #[trigger] ws2[q], w, h) by {
        let pq = ws2[q];
        let dq = pq.placement.direction;
        let lq = pq.line();
        let sq = pq.start();
        let nq = pq.word.text@.len() as int;
        if q < ws.len() {
            assert(ws2[q] == ws[q]);
            assert(ends_blank(g, ws[q], w, h));
            assert(lettered(g, ws[q]));
            assert(word_inside(ws[q], w, h));
            assert(leaves_free(ws[q], d, line, start, n));
            if sq > 0 {
                let e = sq - 1;
                lemma_at_written(g, s, d, line, start, dq, lq, e);
                if in_span(d, line, start, n, dq, lq, e) {
                    assert(at(g, dq, lq, sq + 0) is Some);
                    if dq != d {
                        let o = span_offset(d, start, dq, lq, e);
                        assert(letter_agrees(g, s, d, line, start, ac, o));
                    }
                }
            }
            if sq + nq < along(dq, w, h) {
                let e = sq + nq;
                lemma_at_written(g, s, d, line, start, dq, lq, e);
                if in_span(d, line, start, n, dq, lq, e) {
                    assert(at(g, dq, lq, sq + (nq - 1)) is Some);
                    if dq != d {
                        let o = span_offset(d, start, dq, lq, e);
                        assert(letter_agrees(g, s, d, line, start, ac, o));
                    }
                }
            }
        } else {
            assert(pq == pw);
            if sq > 0 {
                lemma_at_written(g, s, d, line, start, dq, lq, sq - 1);
            }
            if sq + nq < along(dq, w, h) {
                lemma_at_written(g, s, d, line, start, dq, lq, sq + nq);
            }
        }
    }
    assert forall|q: int| 0 <= q < ws2.len() implies lettered(g2, #[trigger] ws2[q]) by {
        let pq = ws2[q];
        let dq = pq.placement.direction;
        if q < ws.len() {
            assert(ws2[q] == ws[q]);
            assert(lettered(g, ws[q]));
            assert(word_inside(ws[q], w, h));
            assert forall|i: int| 0 <= i < pq.word.text@.len() implies #[trigger] at(g2, dq, pq.line(), pq.start() + i) is Some by {
                lemma_at_written(g, s, d, line, start, dq, pq.line(), pq.start() + i);
            }
        } else {
            assert(pq == pw);
            assert forall|i: int| 0 <= i < pq.word.text@.len() implies #[trigger] at(g2, dq, pq.line(), pq.start() + i) is Some by {
                lemma_at_written(g, s, d, line, start, dq, pq.line(), pq.start() + i);
            }
        }
    }
    assert forall|dd: Direction, l: int, i: int| #[trigger] pair_joined(g2, ws2, w, h, dd, l, i) by {
        if 0 <= l < across(dd, w, h) && 0 <= i && i + 1 < along(dd, w, h) && at(g2, dd, l, i) is Some && at(g2, dd, l, i + 1)
            is Some {
            lemma_at_written(g, s, d, line, start, dd, l, i);
            lemma_at_written(g, s, d, line, start, dd, l, i + 1);
            if at(g, dd, l, i) is Some && at(g, dd, l, i + 1) is Some {
                assert(pair_joined(g, ws, w, h, dd, l, i));
                let q = choose|q: int|
                    0 <= q < ws.len() && (#[trigger] ws[q]).placement.direction == dd && ws[q].line() == l && ws[q].start() <= i
                        && i + 1 < ws[q].start() + ws[q].word.text@.len();
                assert(ws2[q] == ws[q]);
            } else if dd == d {
                assert(ws2[ws.len() as int] == pw);
            } else if at(g, dd, l, i) is None {
                let o = span_offset(d, start, dd, l, i);
                assert(letter_agrees(g, s, d, line, start, ac, o));
            } else {
                let o = span_offset(d, start, dd, l, i + 1);
                assert(letter_agrees(g, s, d, line, start, ac, o));
            }
        }
    }
}

/// The words painted in turn on a blank grid, each fitting directly on the grid before it, are
/// the runs of letters of the painted grid.
pub proof fn lemma_runs_painted(w: int, h: int, ws: Seq<PlacedWord>)
    requires
        0 <= w <= usize::MAX / 8,
        0 <= h <= usize::MAX / 8,
        forall|k: int| 0 <= k < ws.len() ==> word_inside(#[trigger] ws[k], w, h),
        replays_directly(w, h, ws),
    ensures
        runs_are_words(painted(w, h, ws), ws, w, h),
    decreases ws.len(),
{
    if ws.len() > 0 {
        let prefix = ws.drop_last();
        let n = prefix.len() as int;
        assert forall|k: int| 0 <= k < prefix.len() implies word_inside(#[trigger] prefix[k], w, h) by {
            assert(prefix[k] == ws[k]);
        }
        assert(ws.take(n) =~= prefix);
        assert forall|k: int| 0 <= k < prefix.len() implies #[trigger] fits_directly(
            painted(w, h, prefix.take(k)),
            prefix.take(k),
            w,
            h,
            prefix[k].word.text@,
            prefix[k].placement.direction,
            prefix[k].line(),
            prefix[k].start(),
        ) by {
            assert(ws.take(k) =~= prefix.take(k));
            assert(ws[k] == prefix[k]);
            assert(fits_directly(
                painted(w, h, ws.take(k)),
                ws.take(k),
                w,
                h,
                ws[k].word.text@,
                ws[k].placement.direction,
                ws[k].line(),
                ws[k].start(),
            ));
        }
        lemma_runs_painted(w, h, prefix);
        lemma_painted_shaped(w, h, prefix);
        let pw = ws.last();
        assert(word_inside(ws[n], w, h));
        assert(fits_directly(
            painted(w, h, ws.take(n)),
            ws.take(n),
            w,
            h,
            ws[n].word.text@,
            ws[n].placement.direction,
            ws[n].line(),
            ws[n].start(),
        ));
        lemma_runs_step(painted(w, h, prefix), prefix, w, h, pw);
        assert(prefix.push(pw) =~= ws);
    } else {
        let g = empty_grid(w, h);
        assert forall|dd: Direction, l: int, i: int| #[trigger] pair_joined(g, ws, w, h, dd, l, i) by {
            if 0 <= l < across(dd, w, h) && 0 <= i && i + 1 < along(dd, w, h) {
                assert(at(g, dd, l, i) is None);
            }
        }
    }
}

/// The grid that a replay builds has the shape of the blank one.
pub proof fn lemma_replay_shaped(w: int, h: int, ws: Seq<PlacedWord>)
    requires
        0 <= w,
        0 <= h,
    ensures
        shaped(replay(w, h, ws).1, w, h),
    decreases ws.len(),
{
    if ws.len() > 0 {
        lemma_replay_shaped(w, h, ws.drop_last());
        let pw = ws.last();
        lemma_write_shaped(replay(w, h, ws.drop_last()).1, pw.word.text@, pw.placement.direction, pw.line(), pw.start(), w, h);
    }
}

/// The words of a replay that accepts them all lie inside the grid.
pub proof fn lemma_replay_inside(w: int, h: int, ws: Seq<PlacedWord>)
    requires
        0 <= w,
        0 <= h,
        replay(w, h, ws).0 == Outcome::Accepted,
    ensures
        forall|k: int| 0 <= k < ws.len() ==> word_inside(#[trigger] ws[k], w, h),
    decreases ws.len(),
{
    if ws.len() > 0 {
        let prefix = ws.drop_last();
        lemma_replay_inside(w, h, prefix);
        lemma_replay_shaped(w, h, prefix);
        let g = replay(w, h, prefix).1;
        let pw = ws.last();
        let s = pw.word.text@;
        let d = pw.placement.direction;
        let cross = across(d, w, h) - 1;
        assert(letters_check(g, prefix, s, d, pw.line(), pw.start(), cross, 0) == Outcome::Accepted);
        lemma_letters_in_grid(g, prefix, s, d, pw.line(), pw.start(), cross, 0);
        assert(in_grid(g, d, pw.line(), pw.start() + (s.len() - 1)));
        assert(in_grid(g, d, pw.line(), pw.start() + 0));
        assert forall|k: int| 0 <= k < ws.len() implies word_inside(#[trigger] ws[k], w, h) by {
            if k < prefix.len() {
                assert(ws[k] == prefix[k]);
            }
        }
    }
}

} // verus!
