//! The common data of one hand, independent preparation steps, and operations across containers.

use vstd::prelude::*;

mod error;
pub mod meld;
pub mod seat;
mod tally;
pub mod transfer;

pub use error::{ContextError, JoinError};
pub use seat::{seat_tiles, SeatContext};
pub use transfer::{DealOutcome, DealRequest, ExchangeSelection, ExchangeTransfer, WallEnd};

use crate::discard::Discard;
use crate::hand::Hand;
use crate::melds::Melds;
use crate::river::River;
use crate::seat::{ring_distance, ring_forward, EastSeat, Seat, SeatMap, SeatMask, Wind};
use crate::seed::Seed;
use crate::tile::counts::sat_add;
use crate::tile::{code_set, count_code, count_in, Tile, TileCounts, TileMask};
use crate::wall::Wall;

verus! {

/// The tiles of the common areas of the seats among the first `n` slots, seat by seat.
pub open spec fn seats_tiles<V: Variant>(slots: Seq<Option<SeatContext<V>>>, n: int) -> Seq<Tile>
    decreases n,
{
    if n <= 0 {
        Seq::empty()
    } else {
        seats_tiles(slots, n - 1) + slot_tiles(slots[n - 1])
    }
}

/// The tiles of the common areas of one seat slot; none for an empty slot.
pub open spec fn slot_tiles<V: Variant>(slot: Option<SeatContext<V>>) -> Seq<Tile> {
    match slot {
        Some(s) => seat_tiles(s),
        None => Seq::empty(),
    }
}

/// The tiles still present among the first `n` river records, in id order.
pub open spec fn present_tiles(entries: Seq<(Discard, bool)>, n: int) -> Seq<Tile>
    decreases n,
{
    if n <= 0 {
        Seq::empty()
    } else if entries[n - 1].1 {
        present_tiles(entries, n - 1).push(entries[n - 1].0.spec_hand_discard().spec_tile())
    } else {
        present_tiles(entries, n - 1)
    }
}

/// Every tile the common areas hold: the remaining wall, then each joined seat's hand and
/// melds by seat code, then the river's present tiles by id. Taken discards and variant areas
/// are not included.
pub open spec fn common_tiles<V: Variant>(ctx: Context<V>) -> Seq<Tile> {
    ctx.spec_wall()@ + seats_tiles(ctx.spec_seats()@, 4) + present_tiles(ctx.spec_river()@, ctx.spec_river()@.len() as int)
}

/// The tiles of a list of present river records, in order.
pub open spec fn present_tiles_of(records: Seq<(crate::river::DiscardId, &Discard)>) -> Seq<Tile>
    decreases records.len(),
{
    if records.len() == 0 {
        Seq::empty()
    } else {
        present_tiles_of(records.drop_last()).push(records.last().1.spec_hand_discard().spec_tile())
    }
}

/// The present records listed in id order give exactly the present tiles.
proof fn lemma_present_tiles(entries: Seq<(Discard, bool)>, records: Seq<(crate::river::DiscardId, &Discard)>)
    requires
        records.len() == crate::river::present_count(entries, entries.len() as int),
        forall|i: int| 0 <= i < records.len() ==> #[trigger] records[i].0@ < entries.len() && *records[i].1 == entries[records[i].0@ as int].0
            && entries[records[i].0@ as int].1,
        forall|i: int, j: int| 0 <= i < j < records.len() ==> records[i].0@ < records[j].0@,
    ensures
        present_tiles_of(records) == present_tiles(entries, entries.len() as int),
{
    lemma_present_tiles_upto(entries, records, entries.len() as int);
}

proof fn lemma_present_tiles_upto(entries: Seq<(Discard, bool)>, records: Seq<(crate::river::DiscardId, &Discard)>, n: int)
    requires
        0 <= n <= entries.len(),
        records.len() == crate::river::present_count(entries, n),
        forall|i: int| 0 <= i < records.len() ==> #[trigger] records[i].0@ < n && *records[i].1 == entries[records[i].0@ as int].0
            && entries[records[i].0@ as int].1,
        forall|i: int, j: int| 0 <= i < j < records.len() ==> records[i].0@ < records[j].0@,
    ensures
        present_tiles_of(records) == present_tiles(entries, n),
    decreases n,
{
    if n > 0 {
        if entries[n - 1].1 {
            let prev = records.drop_last();
            assert(records.len() > 0);
            let last = records.last();
            assert(last.0@ < n);
            if last.0@ < n - 1 {
                // then every record is below n - 1, so the present count below n - 1 is too big
                assert forall|i: int| 0 <= i < records.len() implies #[trigger] records[i].0@ < n - 1
                    && entries[records[i].0@ as int].1 by {
                    if i < records.len() - 1 {
                        assert(records[i].0@ < records[records.len() - 1].0@);
                    }
                }
                lemma_records_below_count(entries, records, n - 1);
                assert(false);
            }
            assert(last.0@ == n - 1);
            assert forall|i: int| 0 <= i < prev.len() implies #[trigger] prev[i].0@ < n - 1 && *prev[i].1 == entries[prev[i].0@ as int].0
                && entries[prev[i].0@ as int].1 by {
                assert(prev[i] == records[i]);
                assert(records[i].0@ < records[records.len() - 1].0@);
            }
            lemma_present_tiles_upto(entries, prev, n - 1);
        } else {
            assert forall|i: int| 0 <= i < records.len() implies #[trigger] records[i].0@ < n - 1 by {
                if records[i].0@ == n - 1 {
                    assert(entries[n - 1].1);
                }
            }
            lemma_present_tiles_upto(entries, records, n - 1);
        }
    }
}

/// Strictly increasing present ids below `m` number at most the present count below `m`.
proof fn lemma_records_below_count(entries: Seq<(Discard, bool)>, records: Seq<(crate::river::DiscardId, &Discard)>, m: int)
    requires
        0 <= m <= entries.len(),
        forall|i: int| 0 <= i < records.len() ==> #[trigger] records[i].0@ < m && entries[records[i].0@ as int].1,
        forall|i: int, j: int| 0 <= i < j < records.len() ==> records[i].0@ < records[j].0@,
    ensures
        records.len() <= crate::river::present_count(entries, m),
    decreases m,
{
    if records.len() > 0 {
        assert(records[records.len() - 1].0@ < m);
        let last = records.last().0@ as int;
        if last == m - 1 {
            assert(entries[records[records.len() - 1].0@ as int].1);
            let prev = records.drop_last();
            assert forall|i: int| 0 <= i < prev.len() implies #[trigger] prev[i].0@ < m - 1 && entries[prev[i].0@ as int].1 by {
                assert(prev[i] == records[i]);
                assert(records[i].0@ < records[records.len() - 1].0@);
            }
            lemma_records_below_count(entries, prev, m - 1);
        } else {
            assert forall|i: int| 0 <= i < records.len() implies #[trigger] records[i].0@ < m - 1 && entries[records[i].0@ as int].1 by {
                if i < records.len() - 1 {
                    assert(records[i].0@ < records[records.len() - 1].0@);
                }
            }
            lemma_records_below_count(entries, records, m - 1);
        }
    }
}

/// The types a game variant plugs into a [`Context`]: its rule, hand-wide and per-seat
/// extensions, and how a context is first built.
pub trait Variant: Sized {
    /// The fixed rule configuration of a hand.
    type Rule;
    /// The hand-wide variant state.
    type Context;
    /// The per-seat variant state.
    type SeatContext;

    /// Builds the initial context of a hand from its rule.
    fn initial_context(rule: Self::Rule) -> Context<Self>;
}

/// The authoritative data of one hand, from creation and seat joins until the hand ends.
///
/// Each part starts from its own empty or default value; there is no common readiness barrier.
/// Combined operations keep the core containers consistent; rule legality, turn order and
/// interaction belong to the layers above. Core containers are read-only here; the variant
/// extensions can be changed on their own and are never rolled back. The context holds every
/// hand and the seed, so it is no client view.
pub struct Context<V: Variant> {
    rule: V::Rule,
    seed: Seed,
    pub(crate) seats: SeatMap<SeatContext<V>>,
    dealer: Option<Seat>,
    east: EastSeat,
    pub(crate) wall: Wall,
    pub(crate) river: River,
    variant: V::Context,
}

impl<V: Variant> Context<V> {
    /// The rule.
    pub closed spec fn spec_rule(self) -> V::Rule {
        self.rule
    }

    /// The seed.
    pub closed spec fn spec_seed(self) -> Seed {
        self.seed
    }

    /// The seat slots.
    pub closed spec fn spec_seats(self) -> SeatMap<SeatContext<V>> {
        self.seats
    }

    /// The dealer, if one is set.
    pub closed spec fn spec_dealer(self) -> Option<Seat> {
        self.dealer
    }

    /// The east anchor.
    pub closed spec fn spec_east(self) -> EastSeat {
        self.east
    }

    /// The wall.
    pub closed spec fn spec_wall(self) -> Wall {
        self.wall
    }

    /// The river.
    pub closed spec fn spec_river(self) -> River {
        self.river
    }

    /// The hand-wide variant state.
    pub closed spec fn spec_variant(self) -> V::Context {
        self.variant
    }

    /// Whether `seat` has joined.
    pub open spec fn joined(self, seat: Seat) -> bool {
        self.spec_seats()@[seat@ - 1] is Some
    }

    /// The state of a joined seat.
    pub open spec fn seat_state(self, seat: Seat) -> SeatContext<V> {
        self.spec_seats()@[seat@ - 1]->Some_0
    }

    /// The hand tiles of a joined seat.
    pub open spec fn hand_tiles(self, seat: Seat) -> Seq<Tile> {
        self.seat_state(seat).spec_hand().spec_tiles()
    }

    /// The held-part length of a joined seat's hand.
    pub open spec fn hand_cursor(self, seat: Seat) -> nat {
        self.seat_state(seat).spec_hand().spec_cursor()
    }

    /// Rule, seed, dealer, anchor and hand-wide extension are the same in `other`.
    pub open spec fn same_frame(self, other: Context<V>) -> bool {
        &&& other.spec_rule() == self.spec_rule()
        &&& other.spec_seed() == self.spec_seed()
        &&& other.spec_dealer() == self.spec_dealer()
        &&& other.spec_east() == self.spec_east()
        &&& other.spec_variant() == self.spec_variant()
    }

    /// Every seat slot but the one at `k` is the same in `other`.
    pub open spec fn same_seats_except(self, other: Context<V>, k: int) -> bool {
        &&& other.spec_seats()@.len() == 4
        &&& forall|i: int| 0 <= i < 4 && i != k ==> #[trigger] other.spec_seats()@[i] == self.spec_seats()@[i]
    }

    /// Replaces the hand of a joined seat; everything else stays.
    pub(crate) fn replace_hand(&mut self, seat: Seat, hand: Hand)
        requires
            old(self).joined(seat),
        ensures
            final(self).joined(seat),
            1 <= seat@ <= 4,
            final(self).seat_state(seat).spec_hand() == hand,
            final(self).seat_state(seat).spec_melds() == old(self).seat_state(seat).spec_melds(),
            final(self).seat_state(seat).spec_variant() == old(self).seat_state(seat).spec_variant(),
            old(self).same_seats_except(*final(self), seat@ - 1),
            old(self).same_frame(*final(self)),
            final(self).spec_wall() == old(self).spec_wall(),
            final(self).spec_river() == old(self).spec_river(),
    {
        let ghost before = self.seats@;
        proof {
            self.seats.lemma_len();
        }
        let state = self.seats.remove(seat).unwrap();
        let _ = self.seats.insert(seat, state.with_hand(hand));
        proof {
            assert forall|i: int| 0 <= i < 4 && i != seat@ - 1 implies #[trigger] self.seats@[i] == before[i] by {
                assert(before.update(seat@ - 1, None)[i] == before[i]);
            }
        }
    }

    /// Replaces the hand and the melds of a joined seat; everything else stays.
    pub(crate) fn replace_seat_parts(&mut self, seat: Seat, hand: Hand, melds: Melds)
        requires
            old(self).joined(seat),
        ensures
            final(self).joined(seat),
            1 <= seat@ <= 4,
            final(self).seat_state(seat).spec_hand() == hand,
            final(self).seat_state(seat).spec_melds() == melds,
            final(self).seat_state(seat).spec_variant() == old(self).seat_state(seat).spec_variant(),
            old(self).same_seats_except(*final(self), seat@ - 1),
            old(self).same_frame(*final(self)),
            final(self).spec_wall() == old(self).spec_wall(),
            final(self).spec_river() == old(self).spec_river(),
    {
        let ghost before = self.seats@;
        proof {
            self.seats.lemma_len();
        }
        let state = self.seats.remove(seat).unwrap();
        let _ = self.seats.insert(seat, state.with_parts(hand, melds));
        proof {
            assert forall|i: int| 0 <= i < 4 && i != seat@ - 1 implies #[trigger] self.seats@[i] == before[i] by {
                assert(before.update(seat@ - 1, None)[i] == before[i]);
            }
        }
    }

    /// A fresh context: no seat, empty wall and river, no dealer, east anchor on seat `1`.
    /// Rule, seed and hand-wide extension are given; nothing random is done.
    pub fn new(rule: V::Rule, seed: Seed, variant: V::Context) -> (r: Context<V>)
        ensures
            r.spec_rule() == rule,
            r.spec_seed() == seed,
            r.spec_variant() == variant,
            forall|i: int| 0 <= i < 4 ==> #[trigger] r.spec_seats()@[i] is None,
            r.spec_seats()@.len() == 4,
            r.spec_dealer() is None,
            r.spec_east()@ == 1,
            r.spec_wall()@ == Seq::<Tile>::empty(),
            r.spec_river()@ == Seq::<(Discard, bool)>::empty(),
    {
        Context {
            rule,
            seed,
            seats: SeatMap::new(),
            dealer: None,
            east: EastSeat::default(),
            wall: Wall::new(),
            river: River::new(),
            variant,
        }
    }

    /// Borrows the rule.
    pub fn rule(&self) -> (r: &V::Rule)
        ensures
            *r == self.spec_rule(),
    {
        &self.rule
    }

    /// Borrows the seed of this hand.
    pub fn seed(&self) -> (r: &Seed)
        ensures
            *r == self.spec_seed(),
    {
        &self.seed
    }

    /// Borrows the seat slots.
    pub fn seats(&self) -> (r: &SeatMap<SeatContext<V>>)
        ensures
            *r == self.spec_seats(),
    {
        &self.seats
    }

    /// Borrows the state of `seat`; `None` when it has not joined.
    pub fn seat(&self, seat: Seat) -> (r: Option<&SeatContext<V>>)
        ensures
            r == match self.spec_seats()@[seat@ - 1] {
                Some(s) => Some(&s),
                None => None::<&SeatContext<V>>,
            },
    {
        self.seats.get(seat)
    }

    /// The joined seats; not a valid player count or a turn order.
    pub fn participants(&self) -> (r: SeatMask)
        ensures
            forall|c: u8| #[trigger] r@.contains(c) <==> (1 <= c <= 4 && self.spec_seats()@[c - 1] is Some),
    {
        self.seats.mask()
    }

    /// The number of joined seats.
    pub fn seat_count(&self) -> (r: usize)
        ensures
            r == crate::seat::map::occupied(self.spec_seats()@, 4),
    {
        self.seats.len()
    }

    /// Whether `seat` has joined.
    pub fn is_joined(&self, seat: Seat) -> (r: bool)
        ensures
            r == self.joined(seat),
    {
        self.seats.contains_key(seat)
    }

    /// The dealer, `None` when not set; the seat need not have joined.
    pub fn dealer(&self) -> (r: Option<Seat>)
        ensures
            r == self.spec_dealer(),
    {
        self.dealer
    }

    /// The east anchor, which always exists.
    pub fn east(&self) -> (r: EastSeat)
        ensures
            r == self.spec_east(),
    {
        self.east
    }

    /// The seat wind of `seat` under the current anchor, joined or not.
    pub fn wind_at(&self, seat: Seat) -> (r: Wind)
        ensures
            r@ == ring_distance(self.spec_east()@ as int, seat@ as int) + 1,
    {
        self.east.wind_at(seat)
    }

    /// The seat that holds `wind` under the current anchor, joined or not.
    pub fn seat_at(&self, wind: Wind) -> (r: Seat)
        ensures
            r@ == ring_forward(self.spec_east()@ as int, wind@ - 1),
    {
        self.east.seat_at(wind)
    }

    /// Borrows the wall; an empty wall does not tell "not built" from "drawn out".
    pub fn wall(&self) -> (r: &Wall)
        ensures
            *r == self.spec_wall(),
    {
        &self.wall
    }

    /// Borrows the river.
    pub fn river(&self) -> (r: &River)
        ensures
            *r == self.spec_river(),
    {
        &self.river
    }

    /// Borrows the hand-wide variant state.
    pub fn variant(&self) -> (r: &V::Context)
        ensures
            *r == self.spec_variant(),
    {
        &self.variant
    }

    /// Mutably borrows the hand-wide variant state; later failures never roll it back.
    pub fn variant_mut(&mut self) -> (r: &mut V::Context)
        ensures
            *r == old(self).spec_variant(),
            final(self).spec_variant() == *final(r),
            final(self).spec_seats() == old(self).spec_seats(),
            final(self).spec_wall() == old(self).spec_wall(),
            final(self).spec_river() == old(self).spec_river(),
            final(self).spec_dealer() == old(self).spec_dealer(),
            final(self).spec_east() == old(self).spec_east(),
    {
        &mut self.variant
    }

    /// Borrows the extension of `seat`; `None` when it has not joined.
    pub fn seat_variant(&self, seat: Seat) -> (r: Option<&V::SeatContext>)
        ensures
            r == match self.spec_seats()@[seat@ - 1] {
                Some(s) => Some(&s.spec_variant()),
                None => None::<&V::SeatContext>,
            },
    {
        match self.seats.get(seat) {
            Some(state) => Some(state.variant()),
            None => None,
        }
    }

    /// Mutably borrows the extension of `seat`; `None` when it has not joined. Hand and melds are
    /// not exposed, and later failures of common operations never roll the extension back.
    pub fn seat_variant_mut(&mut self, seat: Seat) -> (r: Option<&mut V::SeatContext>)
        ensures
            old(self).joined(seat) <==> r is Some,
            r is None ==> final(self).spec_seats()@ == old(self).spec_seats()@ && old(self).same_frame(*final(self))
                && final(self).spec_wall() == old(self).spec_wall() && final(self).spec_river() == old(self).spec_river(),
            r matches Some(v) ==> *v == old(self).seat_state(seat).spec_variant() && final(self).joined(seat)
                && final(self).seat_state(seat).spec_variant() == *final(v)
                && final(self).seat_state(seat).spec_hand() == old(self).seat_state(seat).spec_hand()
                && final(self).seat_state(seat).spec_melds() == old(self).seat_state(seat).spec_melds()
                && old(self).same_seats_except(*final(self), seat@ - 1)
                && old(self).same_frame(*final(self))
                && final(self).spec_wall() == old(self).spec_wall()
                && final(self).spec_river() == old(self).spec_river(),
    {
        proof {
            self.seats.lemma_len();
        }
        let _ = seat.index();
        match self.seats.get_mut(seat) {
            Some(state) => Some(state.variant_mut()),
            None => None,
        }
    }

    /// Borrows the hand of `seat`; `None` when it has not joined.
    pub fn hand(&self, seat: Seat) -> (r: Option<&Hand>)
        ensures
            r == match self.spec_seats()@[seat@ - 1] {
                Some(s) => Some(&s.spec_hand()),
                None => None::<&Hand>,
            },
    {
        match self.seats.get(seat) {
            Some(state) => Some(state.hand()),
            None => None,
        }
    }

    /// Borrows the melds of `seat`; `None` when it has not joined.
    pub fn melds(&self, seat: Seat) -> (r: Option<&Melds>)
        ensures
            r == match self.spec_seats()@[seat@ - 1] {
                Some(s) => Some(&s.spec_melds()),
                None => None::<&Melds>,
            },
    {
        match self.seats.get(seat) {
            Some(state) => Some(state.melds()),
            None => None,
        }
    }

    /// Gives `seat`, not yet joined, an empty hand, no melds and the given extension.
    ///
    /// Only duplicate membership is checked. Fails with [`JoinError::SeatOccupied`], keeping the
    /// old state and handing the extension back, when the seat already has state.
    pub fn join(&mut self, seat: Seat, variant: V::SeatContext) -> (r: Result<(), JoinError<V::SeatContext>>)
        ensures
            old(self).joined(seat) ==> r == Err::<(), JoinError<V::SeatContext>>(JoinError::SeatOccupied { seat, variant })
                && *final(self) == *old(self),
            !old(self).joined(seat) ==> r is Ok && final(self).joined(seat)
                && final(self).seat_state(seat).spec_hand().spec_tiles() == Seq::<Tile>::empty()
                && final(self).seat_state(seat).spec_hand().spec_cursor() == 0
                && final(self).seat_state(seat).spec_melds()@ == Seq::<crate::meld::Meld>::empty()
                && final(self).seat_state(seat).spec_variant() == variant
                && (forall|i: int| 0 <= i < 4 && i != seat@ - 1 ==> #[trigger] final(self).spec_seats()@[i] == old(self).spec_seats()@[i])
                && final(self).spec_wall() == old(self).spec_wall()
                && final(self).spec_river() == old(self).spec_river()
                && final(self).spec_dealer() == old(self).spec_dealer()
                && final(self).spec_east() == old(self).spec_east()
                && final(self).spec_variant() == old(self).spec_variant(),
    {
        if self.seats.contains_key(seat) {
            return Err(JoinError::SeatOccupied { seat, variant });
        }
        let _ = self.seats.insert(seat, SeatContext::new(variant));
        Ok(())
    }

    /// Sets or clears the dealer; the seat need not have joined and the anchor is unchanged.
    pub fn set_dealer(&mut self, dealer: Option<Seat>)
        ensures
            final(self).spec_rule() == old(self).spec_rule(),
            final(self).spec_seed() == old(self).spec_seed(),
            final(self).spec_dealer() == dealer,
            final(self).spec_east() == old(self).spec_east(),
            final(self).spec_seats() == old(self).spec_seats(),
            final(self).spec_wall() == old(self).spec_wall(),
            final(self).spec_river() == old(self).spec_river(),
            final(self).spec_variant() == old(self).spec_variant(),
    {
        self.dealer = dealer;
    }

    /// Moves the east anchor; dealer, seats and tiles are unchanged.
    pub fn set_east(&mut self, east: EastSeat)
        ensures
            final(self).spec_rule() == old(self).spec_rule(),
            final(self).spec_seed() == old(self).spec_seed(),
            final(self).spec_east() == east,
            final(self).spec_dealer() == old(self).spec_dealer(),
            final(self).spec_seats() == old(self).spec_seats(),
            final(self).spec_wall() == old(self).spec_wall(),
            final(self).spec_river() == old(self).spec_river(),
            final(self).spec_variant() == old(self).spec_variant(),
    {
        self.east = east;
    }

    /// Installs a prepared wall and returns the previous one. Hands and river are unchanged;
    /// this brings tiles from outside and is no conserving transfer.
    pub fn replace_wall(&mut self, wall: Wall) -> (r: Wall)
        ensures
            final(self).spec_rule() == old(self).spec_rule(),
            final(self).spec_seed() == old(self).spec_seed(),
            r == old(self).spec_wall(),
            final(self).spec_wall() == wall,
            final(self).spec_seats() == old(self).spec_seats(),
            final(self).spec_river() == old(self).spec_river(),
            final(self).spec_dealer() == old(self).spec_dealer(),
            final(self).spec_east() == old(self).spec_east(),
            final(self).spec_variant() == old(self).spec_variant(),
    {
        let mut wall = wall;
        std::mem::swap(&mut self.wall, &mut wall);
        wall
    }

    /// Every tile of the common areas, one by one: the remaining wall, each joined seat's hand
    /// and melds by seat code, then the river's present tiles by id. Taken discards and variant
    /// areas are left out; the order is no event order.
    pub fn common_tiles(&self) -> (r: Vec<Tile>)
        ensures
            r@ == common_tiles(*self),
    {
        let mut out = self.wall.iter();
        let ghost wall_part = out@;
        let slots = self.seats.as_array();
        let mut i: usize = 0;
        while i < 4
            invariant
                i <= 4,
                slots@ == self.seats@,
                slots@.len() == 4,
                out@ == wall_part + seats_tiles(self.seats@, i as int),
            decreases 4 - i,
        {
            match &slots[i] {
                Some(state) => {
                    let tiles = state.tiles();
                    let ghost before = out@;
                    let mut k: usize = 0;
                    while k < tiles.len()
                        invariant
                            k <= tiles@.len(),
                            out@ == before + tiles@.take(k as int),
                        decreases tiles@.len() - k,
                    {
                        out.push(tiles[k]);
                        proof {
                            assert(out@ =~= before + tiles@.take(k as int + 1));
                        }
                        k += 1;
                    }
                    proof {
                        assert(tiles@.take(tiles@.len() as int) =~= tiles@);
                    }
                },
                None => {
                    proof {
                        assert(out@ =~= wall_part + seats_tiles(self.seats@, i as int + 1));
                    }
                },
            }
            i += 1;
        }
        let ghost seats_part = out@;
        let present = self.river.present();
        let mut j: usize = 0;
        while j < present.len()
            invariant
                j <= present@.len(),
                out@ == seats_part + present_tiles_of(present@.take(j as int)),
            decreases present@.len() - j,
        {
            out.push(present[j].1.tile());
            proof {
                assert(present@.take(j as int + 1).drop_last() =~= present@.take(j as int));
            }
            j += 1;
        }
        proof {
            assert(present@.take(present@.len() as int) =~= present@);
            lemma_present_tiles(self.river@, present@);
        }
        out
    }

    /// The exact number of common tiles.
    pub fn common_tile_count(&self) -> (r: usize)
        ensures
            r == common_tiles(*self).len(),
    {
        self.common_tiles().len()
    }

    /// The exact number of common copies of `tile`, without wildcards.
    pub fn common_count(&self, tile: Tile) -> (r: usize)
        ensures
            r == count_code(common_tiles(*self), tile@),
    {
        let tiles = self.common_tiles();
        count_in(tiles.as_slice(), tile)
    }

    /// The set of common tiles.
    pub fn common_mask(&self) -> (r: TileMask)
        ensures
            r@ == code_set(common_tiles(*self)),
    {
        let tiles = self.common_tiles();
        TileMask::from_tiles(tiles.as_slice())
    }

    /// Counts of the common tiles, saturating at 255 per slot; use [`Self::common_count`] for
    /// exact checks.
    pub fn common_counts(&self) -> (r: TileCounts)
        ensures
            r@.len() == 64,
            forall|i: int| 0 <= i < 64 ==> #[trigger] r@[i] == sat_add(count_code(common_tiles(*self), (i + 1) as u8) as int, 0),
    {
        let tiles = self.common_tiles();
        TileCounts::from_tiles(tiles.as_slice())
    }
}

/// A copy of one seat slot, with a clone of the seat's extension.
fn clone_slot<V: Variant>(slot: &Option<SeatContext<V>>) -> (r: Option<SeatContext<V>>) where V::SeatContext: Clone
    ensures
        r is Some <==> slot is Some,
        r matches Some(c) ==> ({
            let s = slot->Some_0;
            &&& c.spec_hand().spec_tiles() == s.spec_hand().spec_tiles()
            &&& c.spec_hand().spec_cursor() == s.spec_hand().spec_cursor()
            &&& c.spec_melds()@ == s.spec_melds()@
            &&& cloned(s.spec_variant(), c.spec_variant())
        }),
{
    match slot {
        Some(state) => Some(state.clone()),
        None => None,
    }
}

impl<V: Variant> core::ops::Deref for Context<V> {
    type Target = V::Context;

    /// Shared access to the hand-wide extension.
    fn deref(&self) -> (r: &V::Context)
        ensures
            *r == self.spec_variant(),
    {
        &self.variant
    }
}

impl<V: Variant> Clone for Context<V> where V::Rule: Clone, V::Context: Clone, V::SeatContext: Clone {
    /// Copies every core container; rule and extensions are cloned and keep whatever sharing
    /// their own `Clone` has.
    fn clone(&self) -> (r: Context<V>)
        ensures
            cloned(self.spec_rule(), r.spec_rule()),
            r.spec_seed() == self.spec_seed(),
            r.spec_dealer() == self.spec_dealer(),
            r.spec_east() == self.spec_east(),
            r.spec_wall()@ == self.spec_wall()@,
            r.spec_river()@ == self.spec_river()@,
            cloned(self.spec_variant(), r.spec_variant()),
            r.spec_seats()@.len() == 4,
            forall|k: int| 0 <= k < 4 ==> (#[trigger] r.spec_seats()@[k] is Some <==> self.spec_seats()@[k] is Some),
            forall|k: int| 0 <= k < 4 && #[trigger] r.spec_seats()@[k] is Some ==> ({
                let c = r.spec_seats()@[k]->Some_0;
                let s = self.spec_seats()@[k]->Some_0;
                &&& c.spec_hand().spec_tiles() == s.spec_hand().spec_tiles()
                &&& c.spec_hand().spec_cursor() == s.spec_hand().spec_cursor()
                &&& c.spec_melds()@ == s.spec_melds()@
                &&& cloned(s.spec_variant(), c.spec_variant())
            }),
    {
        let slots = self.seats.as_array();
        let copy = [clone_slot(&slots[0]), clone_slot(&slots[1]), clone_slot(&slots[2]), clone_slot(&slots[3])];
        let seats = SeatMap::from_array(copy);
        proof {
            assert forall|k: int| 0 <= k < 4 implies seats@[k] == copy@[k] by {}
        }
        Context {
            rule: self.rule.clone(),
            seed: self.seed,
            seats,
            dealer: self.dealer,
            east: self.east,
            wall: self.wall.clone(),
            river: self.river.clone(),
            variant: self.variant.clone(),
        }
    }
}

} // verus!
