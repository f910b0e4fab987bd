//! The seeded random generator of the setup actions, behind trusted contracts.

use vstd::prelude::*;

use rand::seq::SliceRandom;
use rand::{RngExt, SeedableRng};
use rand_chacha::ChaCha20Rng;

use crate::tile::{codes, Tile};

verus! {

/// The two values of `rand::RngExt::random_range(low..=high)`, drawn one after the other from a
/// `ChaCha20Rng` made from `seed` and switched to `stream`. Both crates document the generator
/// and the sampling as deterministic and portable, so the pair depends on these values alone.
pub uninterp spec fn seeded_draws(seed: Seq<u8>, stream: u64, low: u8, high: u8) -> Seq<u8>;

/// Makes a generator with `ChaCha20Rng::from_seed(seed)`, selects `stream` with
/// `ChaCha20Rng::set_stream`, and draws twice with `rand::RngExt::random_range(low..=high)`.
/// Each value lies in the range; `random_range` panics only on an empty range, which `requires`
/// excludes. Which values come out is named by [`seeded_draws`], not stated.
#[verifier::external_body]
pub(crate) fn draw_pair(seed: [u8; 32], stream: u64, low: u8, high: u8) -> (r: [u8; 2])
    requires
        low <= high,
    ensures
        r@ == seeded_draws(seed@, stream, low, high),
        low <= r[0] <= high,
        low <= r[1] <= high,
{
    let mut rng = ChaCha20Rng::from_seed(seed);
    rng.set_stream(stream);
    [rng.random_range(low..=high), rng.random_range(low..=high)]
}

/// The codes of a tile sequence after `rand::seq::SliceRandom::shuffle` with a fresh
/// `ChaCha20Rng` made from `seed`, given the codes before. Both crates document the result as a
/// deterministic function of the seed and the input order, the same on every machine.
pub uninterp spec fn seeded_shuffle(seed: Seq<u8>, order: Seq<u8>) -> Seq<u8>;

/// Calls `rand::seq::SliceRandom::shuffle` on the tiles with a generator made by
/// `ChaCha20Rng::from_seed(seed)` (stream `0`). The shuffle only swaps entries, so the result is
/// a permutation of the input; which permutation is named by [`seeded_shuffle`], not stated.
#[verifier::external_body]
pub(crate) fn shuffle_with_seed(tiles: &mut Vec<Tile>, seed: [u8; 32])
    ensures
        codes(final(tiles)@) == seeded_shuffle(seed@, codes(old(tiles)@)),
        final(tiles)@.to_multiset() == old(tiles)@.to_multiset(),
{
    tiles.as_mut_slice().shuffle(&mut ChaCha20Rng::from_seed(seed))
}

} // verus!
