//! Chance: the random choices that generation makes, and the defaults drawn at random.

use vstd::prelude::*;
use rand::seq::SliceRandom;
use rand::Rng;
use crate::types::{CrosswordInitialPlacement, CrosswordInitialPlacementStrategy, Direction, Word, MIN_LETTER_COUNT};

verus! {

/// `rand::Rng::gen_range` over `low..=high` on the thread's generator (`rand::thread_rng`):
/// a number of that range, chosen at random. The range must not be empty (`gen_range`
/// panics on an empty range).
#[verifier::external_body]
pub(crate) fn random_between(low: usize, high: usize) -> (res: usize)
    requires
        low <= high,
    ensures
        low <= res <= high,
{
    rand::thread_rng().gen_range(low..=high)
}

/// `rand::seq::SliceRandom::shuffle` on the thread's generator: the same words in a random
/// order.
#[verifier::external_body]
pub(crate) fn shuffle_words(words: &mut Vec<Word>)
    ensures
        final(words)@.to_multiset() == old(words)@.to_multiset(),
{
    words.shuffle(&mut rand::thread_rng());
}

/// A direction chosen at random, each with even odds.
pub fn random_direction() -> Direction {
    match random_between(0, 1) {
        0 => Direction::Horizontal,
        _ => Direction::Verticle,
    }
}

impl Default for CrosswordInitialPlacementStrategy {
    /// A strategy chosen at random: one of the centre and the four corners, in a random
    /// direction (never a custom placement).
    fn default() -> (res: Self)
        ensures
            !(res is Custom),
    {
        let direction = random_direction();
        match random_between(0, 4) {
            0 => CrosswordInitialPlacementStrategy::Center(direction),
            1 => CrosswordInitialPlacementStrategy::LowerLeft(direction),
            2 => CrosswordInitialPlacementStrategy::LowerRight(direction),
            3 => CrosswordInitialPlacementStrategy::UpperLeft(direction),
            _ => CrosswordInitialPlacementStrategy::UpperRight(direction),
        }
    }
}

impl Default for CrosswordInitialPlacement {
    /// The smallest letter count, and a strategy chosen at random.
    fn default() -> (res: Self)
        ensures
            res.min_letter_count == Some(MIN_LETTER_COUNT),
            res.strategy matches Some(s) && !(s is Custom),
    {
        CrosswordInitialPlacement {
            min_letter_count: Some(MIN_LETTER_COUNT),
            strategy: Some(CrosswordInitialPlacementStrategy::default()),
        }
    }
}

} // verus!
