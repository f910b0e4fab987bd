//! The one-shot action that shuffles the remaining wall with the hand's seed.

use vstd::prelude::*;

use std::convert::Infallible;

use super::random::{seeded_shuffle, shuffle_with_seed};
use crate::context::{Context, Variant};
use crate::engine::action::{Action, ActionOutcome, Progress};
use crate::seed::Seed;
use crate::tile::{codes, lemma_codes_injective, Tile};
use crate::wall::Wall;

verus! {

/// Shuffles the remaining wall with the hand's seed; it has no configuration.
///
/// The caller builds the wall for its game first; this only reorders the remaining tiles,
/// keeping how many copies of each tile there are, and never brings back tiles already drawn.
/// An empty wall or a single tile completes as well and gives one [`Shuffled`] event. Each start
/// seeds its own ChaCha20 generator from the hand's seed, so the same seed, the same remaining
/// order and the same dependency versions give the same order. The action takes no later input
/// and does not remember being started.
#[derive(Clone, Copy, Debug, Default)]
pub struct Shuffle;

/// The event of one completed shuffle: only the exact number of tiles shuffled.
#[derive(Clone, Copy, Debug, PartialEq, Eq)]
pub struct Shuffled {
    /// How many remaining tiles were shuffled; may be zero.
    pub tile_count: usize,
}

/// Whether `after` is the seeded shuffle of `before` under `seed`.
pub open spec fn shuffled_from(seed: Seed, before: Seq<Tile>, after: Seq<Tile>) -> bool {
    codes(after) == seeded_shuffle(seed@, codes(before))
}

/// A shuffle is reproducible: the same seed and the same remaining order give the same order.
pub proof fn law_shuffle_reproducible(
    seed_a: Seed,
    seed_b: Seed,
    before_a: Seq<Tile>,
    before_b: Seq<Tile>,
    after_a: Seq<Tile>,
    after_b: Seq<Tile>,
)
    requires
        seed_a@ == seed_b@,
        before_a == before_b,
        shuffled_from(seed_a, before_a, after_a),
        shuffled_from(seed_b, before_b, after_b),
    ensures
        after_a == after_b,
{
    lemma_codes_injective(after_a, after_b);
}

impl Shuffle {
    /// Installs `tiles` as the new remaining wall and completes with the one event that counts
    /// them; seats, river, dealer and anchor stay.
    pub fn commit<V: Variant>(ctx: &mut Context<V>, tiles: Vec<Tile>) -> (r: Progress<Shuffled>)
        ensures
            r matches Progress::Complete(events) && events@ == seq![Shuffled { tile_count: tiles@.len() as usize }],
            final(ctx).spec_wall()@ == tiles@,
            final(ctx).spec_seats() == old(ctx).spec_seats(),
            final(ctx).spec_river() == old(ctx).spec_river(),
            old(ctx).same_frame(*final(ctx)),
    {
        let wall = Wall::from_tiles(tiles);
        let events = vec![Shuffled { tile_count: wall.len() }];
        let _ = ctx.replace_wall(wall);
        Progress::Complete(events)
    }
}

impl<V: Variant> Action<V> for Shuffle {
    type Input<'ipt> = Infallible;

    type Event = Shuffled;

    /// A shuffle needs nothing before it starts.
    open spec fn can_start(&self, ctx: Context<V>) -> bool {
        true
    }

    /// Replaces the wall by the seeded shuffle of its remaining tiles (a permutation of them)
    /// and completes with one event that counts them; seats, river, dealer and anchor stay.
    fn start(&mut self, ctx: &mut Context<V>) -> (r: Progress<Shuffled>)
        ensures
            r matches Progress::Complete(events) && events@ == seq![Shuffled { tile_count: old(ctx).spec_wall()@.len() as usize }],
            shuffled_from(old(ctx).spec_seed(), old(ctx).spec_wall()@, final(ctx).spec_wall()@),
            final(ctx).spec_wall()@.to_multiset() == old(ctx).spec_wall()@.to_multiset(),
            final(ctx).spec_seats() == old(ctx).spec_seats(),
            final(ctx).spec_river() == old(ctx).spec_river(),
            old(ctx).same_frame(*final(ctx)),
    {
        let mut tiles = ctx.wall().iter();
        shuffle_with_seed(&mut tiles, *ctx.seed().as_bytes());
        proof {
            tiles@.to_multiset_ensures();
            old(ctx).spec_wall()@.to_multiset_ensures();
        }
        Shuffle::commit(ctx, tiles)
    }

    /// There is no later input: no value of the input type exists, so this is never reached;
    /// it would change nothing.
    fn handle(&mut self, ctx: &mut Context<V>, input: &Infallible) -> (r: ActionOutcome<Shuffled>)
        ensures
            r is Unhandled,
            *final(ctx) == *old(ctx),
    {
        ActionOutcome::Unhandled
    }
}

} // verus!
