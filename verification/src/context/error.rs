//! Structured errors of the combined operations, and the join error that hands its input back.

use vstd::prelude::*;

use crate::hand::HandError;
use crate::melds::MeldsError;
use crate::river::{DiscardId, RiverError};
use crate::seat::Seat;
use crate::wall::WallError;

verus! {

/// A combined operation met a missing seat or a structural rule of a core container.
///
/// Rule rejections of a concrete variant are not expressed here; the source error of a container
/// is kept whole.
#[derive(Clone, Copy, Debug, PartialEq, Eq, Structural)]
pub enum ContextError {
    /// The seat has not joined.
    MissingSeat {
        /// The absent seat.
        seat: Seat,
    },
    /// A hand operation of the seat failed.
    Hand {
        /// The seat that owns the hand.
        seat: Seat,
        /// The hand's error.
        source: HandError,
    },
    /// The wall could not serve the draw.
    Wall {
        /// The wall's error.
        source: WallError,
    },
    /// Appending to the river or taking from it failed.
    River {
        /// The river's error.
        source: RiverError,
    },
    /// A meld operation of the seat failed.
    Melds {
        /// The seat that owns the melds.
        seat: Seat,
        /// The melds' error, with the target index and the kind found.
        source: MeldsError,
    },
    /// A transfer has the same seat as source and destination.
    SelfTransfer {
        /// The seat on both ends.
        seat: Seat,
    },
    /// A claim named the claiming seat's own discard.
    OwnDiscard {
        /// The claiming seat, which also made the discard.
        seat: Seat,
        /// The discard named.
        id: DiscardId,
    },
}

/// A join failed; the rejected seat extension is handed back.
pub enum JoinError<S> {
    /// The seat already has state and is not overwritten.
    SeatOccupied {
        /// The occupied seat.
        seat: Seat,
        /// The unused seat extension passed in.
        variant: S,
    },
}

impl<S> JoinError<S> {
    /// The seat that was refused.
    pub fn seat(&self) -> (r: Seat)
        ensures
            r == match self {
                JoinError::SeatOccupied { seat, .. } => *seat,
            },
    {
        match self {
            JoinError::SeatOccupied { seat, .. } => *seat,
        }
    }

    /// Borrows the extension the context did not take.
    pub fn variant(&self) -> (r: &S)
        ensures
            *r == match self {
                JoinError::SeatOccupied { variant, .. } => *variant,
            },
    {
        match self {
            JoinError::SeatOccupied { variant, .. } => variant,
        }
    }

    /// The refused seat and the unused extension.
    pub fn into_parts(self) -> (r: (Seat, S))
        ensures
            r == match self {
                JoinError::SeatOccupied { seat, variant } => (seat, variant),
            },
    {
        match self {
            JoinError::SeatOccupied { seat, variant } => (seat, variant),
        }
    }
}

} // verus!
