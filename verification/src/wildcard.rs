//! A single-step wildcard substitution, independent of tile codes.

use vstd::prelude::*;

use crate::tile::{Tile, TileMask};

verus! {

/// A one-step substitution rule for one original tile.
///
/// The wildcard never changes the original tile's code or equality. Callers always pass the set
/// of targets the rule allows; the substitution is applied once, never recursively.
#[derive(Clone, Copy, Debug, PartialEq, Eq, Structural, Hash)]
pub enum Wildcard {
    /// May stand for any tile of the caller's allowed set.
    Any {
        /// The tile that acts as a wildcard.
        tile: Tile,
    },
    /// May stand only for `target`, which the caller must still allow.
    One {
        /// The tile that acts as a wildcard.
        tile: Tile,
        /// The one tile it may stand for.
        target: Tile,
    },
}

impl Wildcard {
    /// The set of tiles this wildcard may stand for within `allowed`.
    pub open spec fn spec_targets(self, allowed: Set<u8>) -> Set<u8> {
        match self {
            Wildcard::Any { .. } => allowed,
            Wildcard::One { target, .. } => set![target@].intersect(allowed),
        }
    }

    /// The tile that acts as a wildcard.
    pub fn tile(self) -> (r: Tile)
        ensures
            r == match self {
                Wildcard::Any { tile } => tile,
                Wildcard::One { tile, .. } => tile,
            },
    {
        match self {
            Wildcard::Any { tile } => tile,
            Wildcard::One { tile, .. } => tile,
        }
    }

    /// The fixed target; `None` for [`Wildcard::Any`]. It does not check any allowed set.
    pub fn target(self) -> (r: Option<Tile>)
        ensures
            r == match self {
                Wildcard::Any { .. } => None,
                Wildcard::One { target, .. } => Some(target),
            },
    {
        match self {
            Wildcard::Any { .. } => None,
            Wildcard::One { target, .. } => Some(target),
        }
    }

    /// Every tile it may stand for within `allowed`: all of `allowed` for [`Wildcard::Any`], and
    /// the fixed target alone if allowed (else nothing) for [`Wildcard::One`]. The original tile
    /// is never added.
    pub fn targets(self, allowed: TileMask) -> (r: TileMask)
        ensures
            r@ == self.spec_targets(allowed@),
    {
        match self {
            Wildcard::Any { .. } => allowed,
            Wildcard::One { target, .. } => target.to_mask().intersection(allowed),
        }
    }

    /// Whether it may stand for `target` within `allowed`.
    pub fn allows(self, target: Tile, allowed: TileMask) -> (r: bool)
        ensures
            r == self.spec_targets(allowed@).contains(target@),
    {
        self.targets(allowed).contains(target)
    }
}

} // verus!
