//! Seeded random streams from `rand` and `rand_chacha`.
//!
//! Every item here is trusted: its contract is taken as given, not proved.
//! Each states only what the `rand` 0.9 documentation and source show of
//! every outcome (ranges, permutations), or names a result that depends on
//! its arguments alone.

use crate::world::Position;
use rand::seq::SliceRandom;
use rand::{Rng, SeedableRng};
use rand_chacha::ChaCha8Rng;
use vstd::prelude::*;

verus! {

/// The `i32` and the next word position that `ChaCha8Rng::seed_from_u64(seed)`,
/// moved to word position `word` with `set_word_pos`, yields from
/// `random_range(low..=high)`, its position read back with `get_word_pos`.
pub uninterp spec fn drawn_i32(seed: u64, word: u128, low: i32, high: i32) -> (i32, u128);

/// The same for a `usize` drawn from `random_range(low..=high)`.
pub uninterp spec fn drawn_usize(seed: u64, word: u128, low: usize, high: usize) -> (usize, u128);

/// The same for `random_ratio(1, 2)`.
pub uninterp spec fn drawn_coin(seed: u64, word: u128) -> (bool, u128);

/// The same for `SliceRandom::shuffle` on a list of positions: the list it
/// leaves and the next word position.
pub uninterp spec fn shuffled(seed: u64, word: u128, items: Seq<Position>) -> (Seq<Position>, u128);

/// `ChaCha8Rng::seed_from_u64`, `set_word_pos`, `Rng::random_range` on an
/// inclusive `i32` range, then `get_word_pos`: the draw and the position
/// after it are a function of the seed, the position and the range alone
/// (the stream of 32-bit words at a position does not depend on how the
/// generator reached it), and the draw lies in `[low, high]`. The range must
/// be non-empty (the call panics otherwise).
#[verifier::external_body]
pub(crate) fn draw_i32(seed: u64, word: u128, low: i32, high: i32) -> (r: (i32, u128))
    requires
        low <= high,
    ensures
        r == drawn_i32(seed, word, low, high),
        low <= r.0 <= high,
{
    let mut rng = ChaCha8Rng::seed_from_u64(seed);
    rng.set_word_pos(word);
    let v = rng.random_range(low..=high);
    (v, rng.get_word_pos())
}

/// As `draw_i32`, for a `usize` drawn from the inclusive range
/// `[low, high]`, which must be non-empty.
#[verifier::external_body]
pub(crate) fn draw_usize(seed: u64, word: u128, low: usize, high: usize) -> (r: (usize, u128))
    requires
        low <= high,
    ensures
        r == drawn_usize(seed, word, low, high),
        low <= r.0 <= high,
{
    let mut rng = ChaCha8Rng::seed_from_u64(seed);
    rng.set_word_pos(word);
    let v = rng.random_range(low..=high);
    (v, rng.get_word_pos())
}

/// As `draw_i32`, for `Rng::random_ratio(1, 2)`: a fair coin, either
/// outcome possible.
#[verifier::external_body]
pub(crate) fn draw_coin(seed: u64, word: u128) -> (r: (bool, u128))
    ensures
        r == drawn_coin(seed, word),
{
    let mut rng = ChaCha8Rng::seed_from_u64(seed);
    rng.set_word_pos(word);
    let v = rng.random_ratio(1, 2);
    (v, rng.get_word_pos())
}

/// As `draw_i32`, for `SliceRandom::shuffle` on positions: it only swaps
/// elements, so the list keeps its length and its elements; which
/// permutation comes out is only named.
#[verifier::external_body]
pub(crate) fn shuffle_positions(seed: u64, word: u128, items: &mut Vec<Position>) -> (next: u128)
    ensures
        (final(items)@, next) == shuffled(seed, word, old(items)@),
        final(items)@.len() == old(items)@.len(),
        final(items)@.to_multiset() == old(items)@.to_multiset(),
{
    let mut rng = ChaCha8Rng::seed_from_u64(seed);
    rng.set_word_pos(word);
    items.shuffle(&mut rng);
    rng.get_word_pos()
}

/// The spread that `ChaCha8Rng::seed_from_u64(seed)`, moved to word position
/// `roll` with `set_word_pos`, yields from `random_range(-2..=2)`.
pub uninterp spec fn combat_spread(seed: u64, roll: u64) -> i32;

/// `ChaCha8Rng::seed_from_u64`, `set_word_pos` and `random_range(-2..=2)`:
/// the draw is a function of the seed and the word position alone, and lies
/// in `[-2, 2]`.
#[verifier::external_body]
pub(crate) fn roll_combat_spread(seed: u64, roll: u64) -> (r: i32)
    ensures
        r == combat_spread(seed, roll),
        -2 <= r <= 2,
{
    let mut rng = ChaCha8Rng::seed_from_u64(seed);
    rng.set_word_pos(u128::from(roll));
    rng.random_range(-2..=2)
}

/// `rand::random::<u64>()` from the thread-local generator: any value.
#[verifier::external_body]
pub(crate) fn fresh_seed() -> u64 {
    rand::random()
}

} // verus!
