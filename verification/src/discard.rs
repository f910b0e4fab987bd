//! A completed discard: the seat and the hand's removal result.

use vstd::prelude::*;

use crate::hand::HandDiscard;
use crate::seat::Seat;
use crate::tile::Tile;

verus! {

/// The content of one completed discard, without any response window or turn state.
///
/// It keeps the [`HandDiscard`] as is, so the tile and its part are stored once. Nothing checks
/// that the seat plays or may discard. Equality compares content; two equal records need not be
/// the same discard, which a [`crate::river::DiscardId`] tells apart within one river.
#[derive(Clone, Copy, Debug, PartialEq, Eq, Structural, Hash)]
pub struct Discard {
    seat: Seat,
    hand_discard: HandDiscard,
}

impl Discard {
    /// The seat that discarded.
    pub closed spec fn spec_seat(self) -> Seat {
        self.seat
    }

    /// The hand's removal result.
    pub closed spec fn spec_hand_discard(self) -> HandDiscard {
        self.hand_discard
    }

    /// Attaches the seat to a successful removal from a hand.
    pub fn new(seat: Seat, hand_discard: HandDiscard) -> (r: Discard)
        ensures
            r.spec_seat() == seat,
            r.spec_hand_discard() == hand_discard,
    {
        Discard { seat, hand_discard }
    }

    /// The seat that discarded.
    pub fn seat(&self) -> (r: Seat)
        ensures
            r == self.spec_seat(),
    {
        self.seat
    }

    /// The discarded tile, without wildcard substitution.
    pub fn tile(&self) -> (r: Tile)
        ensures
            r == self.spec_hand_discard().spec_tile(),
    {
        self.hand_discard.tile()
    }

    /// Whether the tile was in the drawn part before removal.
    pub fn is_from_draw(&self) -> (r: bool)
        ensures
            r == self.spec_hand_discard().spec_from_draw(),
    {
        self.hand_discard.is_from_draw()
    }

    /// A copy of the hand's removal result.
    pub fn hand_discard(&self) -> (r: HandDiscard)
        ensures
            r == self.spec_hand_discard(),
    {
        self.hand_discard
    }
}

} // verus!
