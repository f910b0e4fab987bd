//! Picking the dealer by counting joined seats counter-clockwise from the current east.

use vstd::prelude::*;

use std::convert::Infallible;

use super::random::{draw_pair, seeded_draws};
use crate::seed::Seed;
use crate::context::{Context, Variant};
use crate::engine::action::{Action, ActionOutcome, Progress};
use crate::seat::mask::seat_count;
use crate::seat::{ring_backward, EastSeat, Seat, SeatMask};

verus! {

/// The first joined seat strictly counter-clockwise of the seat with code `code`, going round
/// to `code` itself when no other seat is joined.
pub open spec fn next_joined_ccw(joined: Set<u8>, code: int) -> int {
    if joined.contains(ring_backward(code, 1) as u8) {
        ring_backward(code, 1)
    } else if joined.contains(ring_backward(code, 2) as u8) {
        ring_backward(code, 2)
    } else if joined.contains(ring_backward(code, 3) as u8) {
        ring_backward(code, 3)
    } else {
        ring_backward(code, 4)
    }
}

/// The seat reached from `code` after `steps` moves to the next joined seat counter-clockwise.
pub open spec fn walk_joined_ccw(joined: Set<u8>, code: int, steps: nat) -> int
    decreases steps,
{
    if steps == 0 {
        code
    } else {
        walk_joined_ccw(joined, next_joined_ccw(joined, code), (steps - 1) as nat)
    }
}

/// The dealer two dice pick: counting the joined seats counter-clockwise from `east`, which
/// counts as one, by the sum of the dice, going round as often as needed.
pub open spec fn dice_dealer(joined: Set<u8>, east: int, die0: int, die1: int) -> int {
    walk_joined_ccw(joined, east, ((die0 + die1 - 1) % (seat_count(joined) as int)) as nat)
}

/// How many joined seats lie among the first `k` places counter-clockwise of the seat with code
/// `from`, not counting `from` itself.
pub open spec fn joined_within(joined: Set<u8>, from: int, k: nat) -> nat
    decreases k,
{
    if k == 0 {
        0
    } else {
        joined_within(joined, from, (k - 1) as nat) + if joined.contains(ring_backward(from, k as int) as u8) { 1nat } else { 0nat }
    }
}

/// Fewer moves than there are joined seats from a joined seat end on a joined seat, having passed
/// exactly that many joined seats within less than one lap.
proof fn lemma_walk_counts(joined: Set<u8>, east: int, steps: nat)
    requires
        forall|c: u8| #[trigger] joined.contains(c) ==> 1 <= c <= 4,
        1 <= east <= 4,
        joined.contains(east as u8),
        steps < seat_count(joined),
    ensures
        joined.contains(walk_joined_ccw(joined, east, steps) as u8),
        1 <= walk_joined_ccw(joined, east, steps) <= 4,
        joined_within(joined, east, ((east - walk_joined_ccw(joined, east, steps)) % 4) as nat) == steps,
{
    reveal_with_fuel(walk_joined_ccw, 4);
    reveal_with_fuel(joined_within, 4);
    let b1 = joined.contains(1u8);
    let b2 = joined.contains(2u8);
    let b3 = joined.contains(3u8);
    let b4 = joined.contains(4u8);
    assert(seat_count(joined) == (if b1 { 1int } else { 0 }) + (if b2 { 1int } else { 0 }) + (if b3 { 1int } else { 0 }) + (if b4 { 1int } else { 0 }));
    assert(ring_backward(1, 1) == 4 && ring_backward(1, 2) == 3 && ring_backward(1, 3) == 2 && ring_backward(1, 4) == 1);
    assert(ring_backward(2, 1) == 1 && ring_backward(2, 2) == 4 && ring_backward(2, 3) == 3 && ring_backward(2, 4) == 2);
    assert(ring_backward(3, 1) == 2 && ring_backward(3, 2) == 1 && ring_backward(3, 3) == 4 && ring_backward(3, 4) == 3);
    assert(ring_backward(4, 1) == 3 && ring_backward(4, 2) == 2 && ring_backward(4, 3) == 1 && ring_backward(4, 4) == 4);
}

/// Counting counter-clockwise from a seat, two joined seats that are passed after the same number
/// of joined seats are the same seat.
pub proof fn law_joined_count_unique(joined: Set<u8>, east: int, a: int, b: int)
    requires
        1 <= east <= 4,
        1 <= a <= 4,
        1 <= b <= 4,
        joined.contains(a as u8),
        joined.contains(b as u8),
        joined_within(joined, east, ((east - a) % 4) as nat) == joined_within(joined, east, ((east - b) % 4) as nat),
    ensures
        a == b,
{
    let da = ((east - a) % 4) as nat;
    let db = ((east - b) % 4) as nat;
    if da != db {
        let (lo, hi, near) = if da < db { (da, db, b) } else { (db, da, a) };
        lemma_joined_within_grows(joined, east, lo, hi, near);
    }
}

/// Reaching further counter-clockwise onto a joined seat passes more joined seats.
proof fn lemma_joined_within_grows(joined: Set<u8>, east: int, lo: nat, hi: nat, seat: int)
    requires
        1 <= east <= 4,
        lo < hi <= 3,
        1 <= seat <= 4,
        hi == ((east - seat) % 4) as nat,
        joined.contains(seat as u8),
    ensures
        joined_within(joined, east, lo) < joined_within(joined, east, hi),
    decreases hi - lo,
{
    assert(ring_backward(east, hi as int) == seat);
    if lo + 1 < hi {
        lemma_joined_within_monotone(joined, east, lo, (hi - 1) as nat);
    }
}

/// Reaching further counter-clockwise never passes fewer joined seats.
proof fn lemma_joined_within_monotone(joined: Set<u8>, east: int, lo: nat, hi: nat)
    requires
        lo <= hi,
    ensures
        joined_within(joined, east, lo) <= joined_within(joined, east, hi),
    decreases hi - lo,
{
    if lo < hi {
        lemma_joined_within_monotone(joined, east, lo, (hi - 1) as nat);
    }
}

/// With all four seats joined, each move to the next joined seat is one place counter-clockwise.
proof fn lemma_walk_full(code: int, steps: nat)
    requires
        1 <= code <= 4,
    ensures
        walk_joined_ccw(set![1u8, 2u8, 3u8, 4u8], code, steps) == ring_backward(code, steps as int),
    decreases steps,
{
    let full = set![1u8, 2u8, 3u8, 4u8];
    if steps > 0 {
        let next = ring_backward(code, 1);
        assert(1 <= next <= 4);
        assert(full.contains(next as u8));
        assert(next_joined_ccw(full, code) == next);
        lemma_walk_full(next, (steps - 1) as nat);
        assert(ring_backward(next, steps - 1) == ring_backward(code, steps as int));
    }
}

/// Two dice count the joined seats counter-clockwise starting at east, which counts as one: the
/// dealer has joined, and going counter-clockwise from east to the dealer, within less than one
/// lap, passes exactly the sum of the dice less one joined seats, taken modulo the number of
/// joined seats (a joined seat is fixed by that count, see [`law_joined_count_unique`]); when
/// the count comes round to a multiple of the number of joined seats it
/// stops at east itself; and with all four seats joined the dealer is east moved the sum of the
/// dice less one places counter-clockwise.
pub proof fn law_dealer_counts_from_east(joined: Set<u8>, east: int, die0: int, die1: int)
    requires
        forall|c: u8| #[trigger] joined.contains(c) ==> 1 <= c <= 4,
        1 <= east <= 4,
        joined.contains(east as u8),
        1 <= die0 <= 6,
        1 <= die1 <= 6,
    ensures
        (die0 + die1 - 1) % (seat_count(joined) as int) == 0 ==> dice_dealer(joined, east, die0, die1) == east,
        joined == set![1u8, 2u8, 3u8, 4u8] ==> dice_dealer(joined, east, die0, die1) == ring_backward(east, die0 + die1 - 1),
        joined.contains(dice_dealer(joined, east, die0, die1) as u8),
        joined_within(joined, east, ((east - dice_dealer(joined, east, die0, die1)) % 4) as nat) == (die0 + die1 - 1) % (seat_count(
            joined,
        ) as int),
{
    assert(seat_count(joined) >= 1);
    lemma_walk_counts(joined, east, ((die0 + die1 - 1) % (seat_count(joined) as int)) as nat);
    if joined == set![1u8, 2u8, 3u8, 4u8] {
        assert(seat_count(joined) == 4);
        let steps = ((die0 + die1 - 1) % 4) as nat;
        lemma_walk_full(east, steps);
        assert(ring_backward(east, steps as int) == ring_backward(east, die0 + die1 - 1));
    }
}

/// The codes of the joined seats of a context.
pub open spec fn joined_codes<V: Variant>(ctx: Context<V>) -> Set<u8> {
    Set::new(|c: u8| 1 <= c <= 4 && ctx.spec_seats()@[c - 1] is Some)
}

/// Counter-clockwise moves from `code` to the next joined seat.
spec fn gap_to_joined(joined: Set<u8>, code: int) -> nat {
    if joined.contains(ring_backward(code, 1) as u8) {
        1
    } else if joined.contains(ring_backward(code, 2) as u8) {
        2
    } else if joined.contains(ring_backward(code, 3) as u8) {
        3
    } else {
        4
    }
}

/// Passing over a seat that has not joined leads to the same next joined seat, one move closer.
proof fn lemma_skip_absent(joined: Set<u8>, code: int)
    requires
        1 <= code <= 4,
        exists|c: u8| 1 <= c <= 4 && joined.contains(c),
        !joined.contains(ring_backward(code, 1) as u8),
    ensures
        next_joined_ccw(joined, ring_backward(code, 1)) == next_joined_ccw(joined, code),
        gap_to_joined(joined, ring_backward(code, 1)) + 1 == gap_to_joined(joined, code),
{
    let c = choose|c: u8| 1 <= c <= 4 && joined.contains(c);
    if code == 1 {
        assert(ring_backward(1, 1) == 4 && ring_backward(4, 1) == 3 && ring_backward(4, 2) == 2 && ring_backward(4, 3) == 1);
        assert(ring_backward(1, 2) == 3 && ring_backward(1, 3) == 2 && ring_backward(1, 4) == 1 && ring_backward(4, 4) == 4);
    } else if code == 2 {
        assert(ring_backward(2, 1) == 1 && ring_backward(1, 1) == 4 && ring_backward(1, 2) == 3 && ring_backward(1, 3) == 2);
        assert(ring_backward(2, 2) == 4 && ring_backward(2, 3) == 3 && ring_backward(2, 4) == 2 && ring_backward(1, 4) == 1);
    } else if code == 3 {
        assert(ring_backward(3, 1) == 2 && ring_backward(2, 1) == 1 && ring_backward(2, 2) == 4 && ring_backward(2, 3) == 3);
        assert(ring_backward(3, 2) == 1 && ring_backward(3, 3) == 4 && ring_backward(3, 4) == 3 && ring_backward(2, 4) == 2);
    } else {
        assert(ring_backward(4, 1) == 3 && ring_backward(3, 1) == 2 && ring_backward(3, 2) == 1 && ring_backward(3, 3) == 4);
        assert(ring_backward(4, 2) == 2 && ring_backward(4, 3) == 1 && ring_backward(4, 4) == 4 && ring_backward(3, 4) == 3);
    }
}

/// The dealer two dice pick among the joined seats `participants`, counting counter-clockwise
/// from `east`, which must have joined and counts as one; seats that have not joined are passed
/// over and the count goes round as often as needed.
pub fn dealer_for_dice(participants: SeatMask, east: Seat, dice: [u8; 2]) -> (r: Seat)
    requires
        participants@.contains(east@),
        1 <= dice[0] <= 6,
        1 <= dice[1] <= 6,
    ensures
        r@ == dice_dealer(participants@, east@ as int, dice[0] as int, dice[1] as int),
        participants@.contains(r@),
        (dice[0] + dice[1] - 1) % (seat_count(participants@) as int) == 0 ==> r@ == east@,
        participants@ == set![1u8, 2u8, 3u8, 4u8] ==> r@ == ring_backward(east@ as int, dice[0] + dice[1] - 1),
        joined_within(participants@, east@ as int, ((east@ - r@) % 4) as nat) == (dice[0] + dice[1] - 1) % (seat_count(
            participants@,
        ) as int),
{
    let ghost joined = participants@;
    let count = participants.len();
    proof {
        assert(1 <= east@ <= 4);
        assert(count >= 1);
    }
    let mut steps: usize = (dice[0] as usize + dice[1] as usize - 1) % count;
    let mut dealer = east;
    let ghost target = dice_dealer(joined, east@ as int, dice[0] as int, dice[1] as int);
    while steps > 0
        invariant
            joined == participants@,
            joined.contains(east@),
            1 <= east@ <= 4,
            1 <= dealer@ <= 4,
            walk_joined_ccw(joined, dealer@ as int, steps as nat) == target,
            joined.contains(dealer@) || steps > 0,
        decreases steps, gap_to_joined(joined, dealer@ as int),
    {
        let ghost before = dealer@ as int;
        dealer = dealer.counter_clockwise_next();
        if participants.contains(dealer) {
            steps -= 1;
        } else {
            proof {
                lemma_skip_absent(joined, before);
                assert(walk_joined_ccw(joined, dealer@ as int, steps as nat) == walk_joined_ccw(joined, before, steps as nat));
            }
        }
    }
    proof {
        law_dealer_counts_from_east(joined, east@ as int, dice[0] as int, dice[1] as int);
    }
    dealer
}

/// Picks the dealer with two dice and, when configured, moves the east anchor to the dealer.
///
/// Counting starts at the current east, which counts as one, and goes counter-clockwise over the
/// joined seats only. The caller makes sure the current east seat has joined before the start
/// ([`Action::can_start`]); no fixed number of players or empty dealer is needed. Each start
/// seeds ChaCha20 from the hand's seed on stream `1`, apart from the shuffle's default stream
/// `0`, so the same seed, context and dependency versions give the same result. The action takes
/// no later input and does not remember being started.
#[derive(Clone, Copy, Debug)]
pub struct DetermineDealer {
    align_east: bool,
}

/// The event of a picked dealer: both dice, the dealer, and the east anchor afterwards.
#[derive(Clone, Copy, Debug, PartialEq, Eq)]
pub struct DealerDetermined {
    /// The two dice, each in `1..=6`.
    pub dice: [u8; 2],
    /// The joined seat the sum of the dice picked.
    pub dealer: Seat,
    /// The east anchor afterwards; unchanged when the anchor is not moved.
    pub east: EastSeat,
}

impl DetermineDealer {
    /// Whether the east anchor moves to the new dealer.
    pub closed spec fn spec_align_east(self) -> bool {
        self.align_east
    }

    /// A dealer pick that moves the east anchor to the dealer when `align_east` holds, and keeps
    /// it otherwise; both set the dealer.
    pub fn new(align_east: bool) -> (r: DetermineDealer)
        ensures
            r.spec_align_east() == align_east,
    {
        DetermineDealer { align_east }
    }
}

/// Whether `dice` are the two stream-one draws in `1..=6` of the generator seeded with `seed`.
pub open spec fn rolled_from(seed: Seed, dice: [u8; 2]) -> bool {
    dice@ == seeded_draws(seed@, 1, 1, 6)
}

/// A dealer pick is reproducible: the same seed gives the same dice, and so, with the same
/// joined seats and east seat, the same dealer.
pub proof fn law_dealer_reproducible(seed_a: Seed, seed_b: Seed, dice_a: [u8; 2], dice_b: [u8; 2])
    requires
        seed_a@ == seed_b@,
        rolled_from(seed_a, dice_a),
        rolled_from(seed_b, dice_b),
    ensures
        dice_a == dice_b,
{
    assert(dice_a@ =~= dice_b@);
}

impl<V: Variant> Action<V> for DetermineDealer {
    type Input<'ipt> = Infallible;

    type Event = DealerDetermined;

    /// The current east seat has joined.
    open spec fn can_start(&self, ctx: Context<V>) -> bool {
        ctx.spec_seats()@[ctx.spec_east()@ - 1] is Some
    }

    /// Rolls two dice, picks the dealer, sets it, moves the anchor when configured, and
    /// completes with one event; seats, wall and river stay.
    fn start(&mut self, ctx: &mut Context<V>) -> (r: Progress<DealerDetermined>)
        ensures
            r matches Progress::Complete(events) && events@.len() == 1 && ({
                let e = events@[0];
                &&& rolled_from(old(ctx).spec_seed(), e.dice)
                &&& 1 <= e.dice[0] <= 6
                &&& 1 <= e.dice[1] <= 6
                &&& e.dealer@ == dice_dealer(joined_codes(*old(ctx)), old(ctx).spec_east()@ as int, e.dice[0] as int, e.dice[1] as int)
                &&& joined_codes(*old(ctx)).contains(e.dealer@)
                &&& joined_within(joined_codes(*old(ctx)), old(ctx).spec_east()@ as int, ((old(ctx).spec_east()@ - e.dealer@) % 4) as nat)
                    == (e.dice[0] + e.dice[1] - 1) % (seat_count(joined_codes(*old(ctx))) as int)
                &&& e.east@ == if old(self).spec_align_east() { e.dealer@ } else { old(ctx).spec_east()@ }
                &&& final(ctx).spec_dealer() == Some(e.dealer)
                &&& final(ctx).spec_east()@ == e.east@
            }),
            final(ctx).spec_seats() == old(ctx).spec_seats(),
            final(ctx).spec_wall() == old(ctx).spec_wall(),
            final(ctx).spec_river() == old(ctx).spec_river(),
            final(ctx).spec_rule() == old(ctx).spec_rule(),
            final(ctx).spec_seed() == old(ctx).spec_seed(),
            final(ctx).spec_variant() == old(ctx).spec_variant(),
    {
        let participants = ctx.participants();
        let original_east = ctx.east();
        let east_seat = original_east.seat();
        let _ = east_seat.code();
        proof {
            assert(participants@ =~= joined_codes(*ctx));
        }
        let dice = draw_pair(*ctx.seed().as_bytes(), 1, 1, 6);
        let dealer = dealer_for_dice(participants, east_seat, dice);
        let east = if self.align_east {
            EastSeat::new(dealer)
        } else {
            original_east
        };
        let events = vec![DealerDetermined { dice, dealer, east }];
        ctx.set_dealer(Some(dealer));
        if self.align_east {
            ctx.set_east(east);
        }
        Progress::Complete(events)
    }

    /// There is no later input: no value of the input type exists, so this is never reached;
    /// it would change nothing.
    fn handle(&mut self, ctx: &mut Context<V>, input: &Infallible) -> (r: ActionOutcome<DealerDetermined>)
        ensures
            r is Unhandled,
            *final(ctx) == *old(ctx),
    {
        ActionOutcome::Unhandled
    }
}

} // verus!
