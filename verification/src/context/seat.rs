//! The common tile areas and the variant extension of one joined seat.

use vstd::prelude::*;

use crate::context::Variant;
use crate::hand::Hand;
use crate::melds::{flat_tiles, Melds};
use crate::tile::counts::sat_add;
use crate::tile::{code_set, count_code, count_in, Tile, TileCounts, TileMask};

verus! {

/// The hand, the melds and the variant extension of one joined seat.
///
/// A join builds all three together, so common and variant state always cover the same seats.
/// Hand and melds are read-only here; combined operations of the context change them.
pub struct SeatContext<V: Variant> {
    pub(crate) hand: Hand,
    pub(crate) melds: Melds,
    pub(crate) variant: V::SeatContext,
}

/// The tiles of a seat's common areas: the hand, then every meld.
pub open spec fn seat_tiles<V: Variant>(seat: SeatContext<V>) -> Seq<Tile> {
    seat.spec_hand().spec_tiles() + flat_tiles(seat.spec_melds()@)
}

impl<V: Variant> SeatContext<V> {
    /// The hand.
    pub closed spec fn spec_hand(self) -> Hand {
        self.hand
    }

    /// The melds.
    pub closed spec fn spec_melds(self) -> Melds {
        self.melds
    }

    /// The variant extension.
    pub closed spec fn spec_variant(self) -> V::SeatContext {
        self.variant
    }

    /// Empty common areas with the given extension.
    pub(crate) fn new(variant: V::SeatContext) -> (r: SeatContext<V>)
        ensures
            r.spec_hand().spec_tiles() == Seq::<Tile>::empty(),
            r.spec_hand().spec_cursor() == 0,
            r.spec_melds()@ == Seq::<crate::meld::Meld>::empty(),
            r.spec_variant() == variant,
    {
        SeatContext { hand: Hand::new(), melds: Melds::new(), variant }
    }

    /// The same seat with another hand; melds and extension stay.
    pub(crate) fn with_hand(self, hand: Hand) -> (r: SeatContext<V>)
        ensures
            r.spec_hand() == hand,
            r.spec_melds() == self.spec_melds(),
            r.spec_variant() == self.spec_variant(),
    {
        SeatContext { hand, melds: self.melds, variant: self.variant }
    }

    /// The same seat with another hand and other melds; the extension stays.
    pub(crate) fn with_parts(self, hand: Hand, melds: Melds) -> (r: SeatContext<V>)
        ensures
            r.spec_hand() == hand,
            r.spec_melds() == melds,
            r.spec_variant() == self.spec_variant(),
    {
        SeatContext { hand, melds, variant: self.variant }
    }

    /// Borrows the hand with its held and drawn parts.
    pub fn hand(&self) -> (r: &Hand)
        ensures
            *r == self.spec_hand(),
    {
        &self.hand
    }

    /// Borrows the melds in declaration order.
    pub fn melds(&self) -> (r: &Melds)
        ensures
            *r == self.spec_melds(),
    {
        &self.melds
    }

    /// Borrows the variant extension.
    pub fn variant(&self) -> (r: &V::SeatContext)
        ensures
            *r == self.spec_variant(),
    {
        &self.variant
    }

    /// Mutably borrows the variant extension; hand and melds are untouched.
    pub fn variant_mut(&mut self) -> (r: &mut V::SeatContext)
        ensures
            *r == old(self).spec_variant(),
            final(self).spec_hand() == old(self).spec_hand(),
            final(self).spec_melds() == old(self).spec_melds(),
            final(self).spec_variant() == *final(r),
    {
        &mut self.variant
    }

    /// The tiles of the hand, then of every meld in order; variant areas are not read.
    pub fn tiles(&self) -> (r: Vec<Tile>)
        ensures
            r@ == seat_tiles(*self),
    {
        let mut out = self.hand.iter();
        let meld_tiles = self.melds.tiles();
        let ghost start = out@;
        let mut i: usize = 0;
        while i < meld_tiles.len()
            invariant
                i <= meld_tiles@.len(),
                out@ == start + meld_tiles@.take(i as int),
            decreases meld_tiles@.len() - i,
        {
            out.push(meld_tiles[i]);
            proof {
                assert(out@ =~= start + meld_tiles@.take(i as int + 1));
            }
            i += 1;
        }
        proof {
            assert(meld_tiles@.take(meld_tiles@.len() as int) =~= meld_tiles@);
        }
        out
    }

    /// The exact number of tiles in hand and melds.
    pub fn tile_count(&self) -> (r: usize)
        ensures
            r == seat_tiles(*self).len(),
    {
        self.tiles().len()
    }

    /// The exact number of copies of `tile` in hand and melds.
    pub fn count(&self, tile: Tile) -> (r: usize)
        ensures
            r == count_code(seat_tiles(*self), tile@),
    {
        let tiles = self.tiles();
        count_in(tiles.as_slice(), tile)
    }

    /// The set of tiles in hand and melds.
    pub fn mask(&self) -> (r: TileMask)
        ensures
            r@ == code_set(seat_tiles(*self)),
    {
        let tiles = self.tiles();
        TileMask::from_tiles(tiles.as_slice())
    }

    /// Counts of the tiles in hand and melds, saturating at 255 per slot.
    pub fn counts(&self) -> (r: TileCounts)
        ensures
            r@.len() == 64,
            forall|i: int| 0 <= i < 64 ==> #[trigger] r@[i] == sat_add(count_code(seat_tiles(*self), (i + 1) as u8) as int, 0),
    {
        let tiles = self.tiles();
        TileCounts::from_tiles(tiles.as_slice())
    }
}

impl<V: Variant> core::ops::Deref for SeatContext<V> {
    type Target = V::SeatContext;

    /// Shared access to the seat's extension.
    fn deref(&self) -> (r: &V::SeatContext)
        ensures
            *r == self.spec_variant(),
    {
        &self.variant
    }
}

impl<V: Variant> Clone for SeatContext<V> where V::SeatContext: Clone {
    /// A copy of the hand and the melds, with a clone of the extension.
    fn clone(&self) -> (r: SeatContext<V>)
        ensures
            r.spec_hand().spec_tiles() == self.spec_hand().spec_tiles(),
            r.spec_hand().spec_cursor() == self.spec_hand().spec_cursor(),
            r.spec_melds()@ == self.spec_melds()@,
            cloned(self.spec_variant(), r.spec_variant()),
    {
        SeatContext { hand: self.hand.clone(), melds: self.melds.clone(), variant: self.variant.clone() }
    }
}

} // verus!
