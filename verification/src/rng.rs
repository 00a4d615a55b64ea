//! The random number generators of `rand` and `rand_chacha`, as the game
//! logic calls them.  Nothing here is proved: each item states what the
//! crate's documentation and source promise of every outcome.

use rand::rngs::{SmallRng, StdRng};
use rand::seq::SliceRandom;
use rand::{Rng, SeedableRng};
use rand_chacha::ChaCha8Rng;
use vstd::prelude::*;
use crate::blackjack::cards::Card;

verus! {

/// `rand::rngs::SmallRng`, carried through the arena logic as an opaque value.
#[verifier::external_type_specification]
#[verifier::external_body]
pub struct ExSmallRng(SmallRng);

/// Calls `SmallRng::seed_from_u64`.  Nothing is stated of the generator it
/// builds: its later draws are only known through the range contracts below.
#[verifier::external_body]
pub(crate) fn small_rng_seeded(seed: u64) -> SmallRng {
    SmallRng::seed_from_u64(seed)
}

/// Calls `Rng::random::<u64>` on a `SmallRng`.  Any `u64` may come back.
#[verifier::external_body]
pub(crate) fn small_next_u64(rng: &mut SmallRng) -> u64 {
    rng.random::<u64>()
}

/// Calls `Rng::random_range(lo..=hi)` on a `SmallRng` for `i32`.  The crate
/// panics on an empty range (hence the `requires`) and otherwise returns a
/// value of the range; which one is left to chance.  (An exclusive range
/// `lo..hi` is sampled by the crate as `lo..=hi - 1`, so callers use this
/// item for both forms.)
#[verifier::external_body]
pub(crate) fn small_range_i32(rng: &mut SmallRng, lo: i32, hi: i32) -> (r: i32)
    requires
        lo <= hi,
    ensures
        lo <= r <= hi,
{
    rng.random_range(lo..=hi)
}

/// Calls `Rng::random_range(lo..=hi)` on a `SmallRng` for `usize`; as above.
#[verifier::external_body]
pub(crate) fn small_range_usize(rng: &mut SmallRng, lo: usize, hi: usize) -> (r: usize)
    requires
        lo <= hi,
    ensures
        lo <= r <= hi,
{
    rng.random_range(lo..=hi)
}


/// `rand::rngs::StdRng`, the pipe walker's generator, carried as an opaque value.
#[verifier::external_type_specification]
#[verifier::external_body]
pub struct ExStdRng(StdRng);

/// Calls `StdRng::seed_from_u64`.  Nothing is stated of the generator it
/// builds.
#[verifier::external_body]
pub(crate) fn std_rng_seeded(seed: u64) -> StdRng {
    StdRng::seed_from_u64(seed)
}

/// Calls `Rng::random_range(lo..=hi)` on a `StdRng` for `usize`: a value
/// of the range, left to chance (the crate panics on an empty range).
#[verifier::external_body]
pub(crate) fn std_range_usize(rng: &mut StdRng, lo: usize, hi: usize) -> (r: usize)
    requires
        lo <= hi,
    ensures
        lo <= r <= hi,
{
    rng.random_range(lo..=hi)
}

/// Calls `Rng::random_range(lo..=hi)` on a `StdRng` for `i32`: a value of
/// the range, left to chance (the crate panics on an empty range).
#[verifier::external_body]
pub(crate) fn std_range_i32(rng: &mut StdRng, lo: i32, hi: i32) -> (r: i32)
    requires
        lo <= hi,
    ensures
        lo <= r <= hi,
{
    rng.random_range(lo..=hi)
}

/// Calls `Rng::random_ratio(num, den)` on a `StdRng`: true with chance
/// `num / den`.  The crate's `Bernoulli::from_ratio` makes `num == den`
/// always true, and with `num == 0` the sample `v < 0` is always false;
/// between those, which way it falls is left to chance and not stated.  The
/// crate panics when `den` is 0 or `num` exceeds it.
#[verifier::external_body]
pub(crate) fn std_ratio(rng: &mut StdRng, num: u32, den: u32) -> (r: bool)
    requires
        0 < den,
        num <= den,
    ensures
        num == den ==> r,
        num == 0 ==> !r,
{
    rng.random_ratio(num, den)
}

/// `rand_chacha::ChaCha8Rng`, the blackjack table's generator, carried as an opaque value.
#[verifier::external_type_specification]
#[verifier::external_body]
pub struct ExChaCha8Rng(ChaCha8Rng);

/// Calls `ChaCha8Rng::seed_from_u64`.  Nothing is stated of the generator
/// it builds.
#[verifier::external_body]
pub(crate) fn chacha_seeded(seed: u64) -> ChaCha8Rng {
    ChaCha8Rng::seed_from_u64(seed)
}

/// Calls `SliceRandom::shuffle` on a vector of cards.  The crate permutes
/// the slice in place (Fisher-Yates), so the cards that come back are the
/// cards that went in, in an order left to chance.
#[verifier::external_body]
pub(crate) fn shuffle_cards(cards: &mut Vec<Card>, rng: &mut ChaCha8Rng)
    ensures
        final(cards)@.to_multiset() == old(cards)@.to_multiset(),
        final(cards)@.len() == old(cards)@.len(),
{
    cards.shuffle(rng)
}

} // verus!
