//! Declared melds: their shape, original tiles and claim source.
//!
//! Fixed-size arrays fix the tile count of each kind; tile order and the claim source are kept.
//! Whether the tiles form a legal run or set, wildcard readings, claim rights and whether the
//! source is another player are the rule layer's business.

use vstd::prelude::*;

use crate::seat::Seat;
use crate::tile::{code_set, count_code, Tile, TileCounts, TileMask};
use crate::tile::counts::sat_add;

verus! {

/// How a declared meld was formed.
#[derive(Clone, Copy, Debug, PartialEq, Eq, Structural, Hash)]
pub enum MeldKind {
    /// A run claimed from a discard.
    Chow,
    /// A set of three claimed from a discard.
    Pong,
    /// A kong formed directly from another player's discard.
    ClaimedKong,
    /// A kong of four own tiles.
    ConcealedKong,
    /// A kong formed by adding a fourth tile to an existing pong.
    AddedKong,
}

impl MeldKind {
    /// Tiles in a meld of this kind: three for chow and pong, four for kongs.
    pub open spec fn spec_tile_count(self) -> nat {
        match self {
            MeldKind::Chow | MeldKind::Pong => 3,
            _ => 4,
        }
    }

    /// Number of tiles in a meld of this kind.
    pub fn tile_count(self) -> (r: usize)
        ensures
            r == self.spec_tile_count(),
    {
        match self {
            MeldKind::Chow | MeldKind::Pong => 3,
            MeldKind::ClaimedKong | MeldKind::ConcealedKong | MeldKind::AddedKong => 4,
        }
    }

    /// Whether this is one of the three kong kinds.
    pub fn is_kong(self) -> (r: bool)
        ensures
            r == (self is ClaimedKong || self is ConcealedKong || self is AddedKong),
    {
        matches!(self, MeldKind::ClaimedKong | MeldKind::ConcealedKong | MeldKind::AddedKong)
    }

    /// Whether the meld itself is open: every kind except the concealed kong.
    pub fn is_open(self) -> (r: bool)
        ensures
            r == !(self is ConcealedKong),
    {
        !self.is_concealed()
    }

    /// Whether this is a concealed kong; it says nothing about the whole hand.
    pub fn is_concealed(self) -> (r: bool)
        ensures
            r == (self is ConcealedKong),
    {
        matches!(self, MeldKind::ConcealedKong)
    }
}

/// A chow: two own tiles followed by the claimed tile, and the seat it was claimed from.
#[derive(Clone, Copy, Debug, PartialEq, Eq, Hash)]
pub struct ChowMeld {
    tiles: [Tile; 3],
    source: Seat,
}

impl ChowMeld {
    /// The three tiles, claimed tile last.
    pub closed spec fn spec_tiles(self) -> Seq<Tile> {
        self.tiles@
    }

    /// The seat the claimed tile came from.
    pub closed spec fn spec_source(self) -> Seat {
        self.source
    }

    /// A chow from two own tiles, the claimed tile and its source, in input order.
    pub fn new(owned: [Tile; 2], claimed: Tile, source: Seat) -> (r: ChowMeld)
        ensures
            r.spec_tiles() == seq![owned@[0], owned@[1], claimed],
            r.spec_source() == source,
    {
        let r = ChowMeld { tiles: [owned[0], owned[1], claimed], source };
        proof {
            assert(r.tiles@ =~= seq![owned@[0], owned@[1], claimed]);
        }
        r
    }

    /// The three tiles, claimed tile last, neither sorted nor substituted.
    pub fn tiles(&self) -> (r: &[Tile; 3])
        ensures
            r@ == self.spec_tiles(),
    {
        &self.tiles
    }

    /// Always [`MeldKind::Chow`].
    pub fn kind(&self) -> (r: MeldKind)
        ensures
            r == MeldKind::Chow,
    {
        MeldKind::Chow
    }

    /// The seat the claimed tile came from.
    pub fn source(&self) -> (r: Seat)
        ensures
            r == self.spec_source(),
    {
        self.source
    }

    /// The claimed tile.
    pub fn claimed_tile(&self) -> (r: Tile)
        ensures
            r == self.spec_tiles()[2],
    {
        self.tiles[2]
    }
}

/// A pong: two own tiles followed by the claimed tile, and the seat it was claimed from.
#[derive(Clone, Copy, Debug, PartialEq, Eq, Hash)]
pub struct PongMeld {
    tiles: [Tile; 3],
    source: Seat,
}

impl PongMeld {
    /// The three tiles, claimed tile last.
    pub closed spec fn spec_tiles(self) -> Seq<Tile> {
        self.tiles@
    }

    /// The seat the claimed tile came from.
    pub closed spec fn spec_source(self) -> Seat {
        self.source
    }

    /// A pong from two own tiles, the claimed tile and its source, in input order.
    pub fn new(owned: [Tile; 2], claimed: Tile, source: Seat) -> (r: PongMeld)
        ensures
            r.spec_tiles() == seq![owned@[0], owned@[1], claimed],
            r.spec_source() == source,
    {
        let r = PongMeld { tiles: [owned[0], owned[1], claimed], source };
        proof {
            assert(r.tiles@ =~= seq![owned@[0], owned@[1], claimed]);
        }
        r
    }

    /// The three tiles, claimed tile last.
    pub fn tiles(&self) -> (r: &[Tile; 3])
        ensures
            r@ == self.spec_tiles(),
    {
        &self.tiles
    }

    /// Always [`MeldKind::Pong`].
    pub fn kind(&self) -> (r: MeldKind)
        ensures
            r == MeldKind::Pong,
    {
        MeldKind::Pong
    }

    /// The seat the claimed tile came from.
    pub fn source(&self) -> (r: Seat)
        ensures
            r == self.spec_source(),
    {
        self.source
    }

    /// The claimed tile.
    pub fn claimed_tile(&self) -> (r: Tile)
        ensures
            r == self.spec_tiles()[2],
    {
        self.tiles[2]
    }

    /// The added kong made by appending `tile` to this pong; order and source are kept.
    pub fn with_added_tile(self, tile: Tile) -> (r: AddedKongMeld)
        ensures
            r.spec_tiles() == self.spec_tiles().push(tile),
            r.spec_source() == self.spec_source(),
    {
        AddedKongMeld::new(self, tile)
    }
}

/// A kong made directly from a claimed discard: three own tiles, then the claimed one.
#[derive(Clone, Copy, Debug, PartialEq, Eq, Hash)]
pub struct ClaimedKongMeld {
    tiles: [Tile; 4],
    source: Seat,
}

impl ClaimedKongMeld {
    /// The four tiles, claimed tile last.
    pub closed spec fn spec_tiles(self) -> Seq<Tile> {
        self.tiles@
    }

    /// The seat the claimed tile came from.
    pub closed spec fn spec_source(self) -> Seat {
        self.source
    }

    /// A claimed kong from three own tiles, the claimed tile and its source, in input order.
    pub fn new(owned: [Tile; 3], claimed: Tile, source: Seat) -> (r: ClaimedKongMeld)
        ensures
            r.spec_tiles() == seq![owned@[0], owned@[1], owned@[2], claimed],
            r.spec_source() == source,
    {
        let r = ClaimedKongMeld { tiles: [owned[0], owned[1], owned[2], claimed], source };
        proof {
            assert(r.tiles@ =~= seq![owned@[0], owned@[1], owned@[2], claimed]);
        }
        r
    }

    /// The four tiles, claimed tile last.
    pub fn tiles(&self) -> (r: &[Tile; 4])
        ensures
            r@ == self.spec_tiles(),
    {
        &self.tiles
    }

    /// Always [`MeldKind::ClaimedKong`].
    pub fn kind(&self) -> (r: MeldKind)
        ensures
            r == MeldKind::ClaimedKong,
    {
        MeldKind::ClaimedKong
    }

    /// The seat the claimed tile came from.
    pub fn source(&self) -> (r: Seat)
        ensures
            r == self.spec_source(),
    {
        self.source
    }

    /// The claimed tile.
    pub fn claimed_tile(&self) -> (r: Tile)
        ensures
            r == self.spec_tiles()[3],
    {
        self.tiles[3]
    }
}

/// A concealed kong of four own tiles; it has no claim source.
#[derive(Clone, Copy, Debug, PartialEq, Eq, Hash)]
pub struct ConcealedKongMeld {
    tiles: [Tile; 4],
}

impl ConcealedKongMeld {
    /// The four tiles in input order.
    pub closed spec fn spec_tiles(self) -> Seq<Tile> {
        self.tiles@
    }

    /// A concealed kong from four own tiles, in input order.
    pub fn new(tiles: [Tile; 4]) -> (r: ConcealedKongMeld)
        ensures
            r.spec_tiles() == tiles@,
    {
        ConcealedKongMeld { tiles }
    }

    /// The four tiles in input order; nothing is hidden or sorted.
    pub fn tiles(&self) -> (r: &[Tile; 4])
        ensures
            r@ == self.spec_tiles(),
    {
        &self.tiles
    }

    /// Always [`MeldKind::ConcealedKong`].
    pub fn kind(&self) -> (r: MeldKind)
        ensures
            r == MeldKind::ConcealedKong,
    {
        MeldKind::ConcealedKong
    }
}

/// A kong made by adding a fourth tile to a pong; the pong's order and source are kept.
#[derive(Clone, Copy, Debug, PartialEq, Eq, Hash)]
pub struct AddedKongMeld {
    tiles: [Tile; 4],
    source: Seat,
}

impl AddedKongMeld {
    /// The pong's three tiles followed by the added tile.
    pub closed spec fn spec_tiles(self) -> Seq<Tile> {
        self.tiles@
    }

    /// The source of the pong's claimed tile.
    pub closed spec fn spec_source(self) -> Seat {
        self.source
    }

    /// An added kong from a pong and the added tile.
    pub fn new(pong: PongMeld, added: Tile) -> (r: AddedKongMeld)
        ensures
            r.spec_tiles() == pong.spec_tiles().push(added),
            r.spec_source() == pong.spec_source(),
    {
        let r = AddedKongMeld {
            tiles: [pong.tiles[0], pong.tiles[1], pong.tiles[2], added],
            source: pong.source,
        };
        proof {
            assert(r.tiles@ =~= pong.tiles@.push(added));
        }
        r
    }

    /// The pong's three tiles followed by the added tile.
    pub fn tiles(&self) -> (r: &[Tile; 4])
        ensures
            r@ == self.spec_tiles(),
    {
        &self.tiles
    }

    /// Always [`MeldKind::AddedKong`].
    pub fn kind(&self) -> (r: MeldKind)
        ensures
            r == MeldKind::AddedKong,
    {
        MeldKind::AddedKong
    }

    /// The source of the pong's claimed tile, not of the added tile.
    pub fn source(&self) -> (r: Seat)
        ensures
            r == self.spec_source(),
    {
        self.source
    }

    /// The pong's claimed tile, the third one.
    pub fn claimed_tile(&self) -> (r: Tile)
        ensures
            r == self.spec_tiles()[2],
    {
        self.tiles[2]
    }

    /// The added fourth tile.
    pub fn added_tile(&self) -> (r: Tile)
        ensures
            r == self.spec_tiles()[3],
    {
        self.tiles[3]
    }

    /// The original pong, rebuilt from the first three tiles and the source.
    pub fn pong(&self) -> (r: PongMeld)
        ensures
            r.spec_tiles() == self.spec_tiles().take(3),
            r.spec_source() == self.spec_source(),
    {
        let r = PongMeld::new([self.tiles[0], self.tiles[1]], self.tiles[2], self.source);
        proof {
            assert(r.spec_tiles() =~= self.spec_tiles().take(3));
        }
        r
    }
}

/// A declared meld with its full structure and original tiles.
///
/// Array lengths fix the tile count of each kind. Equality compares kind, tile order and source.
#[derive(Clone, Copy, Debug, PartialEq, Eq, Hash)]
pub enum Meld {
    /// A chow.
    Chow(ChowMeld),
    /// A pong.
    Pong(PongMeld),
    /// A kong from a claimed discard.
    ClaimedKong(ClaimedKongMeld),
    /// A concealed kong.
    ConcealedKong(ConcealedKongMeld),
    /// An added kong.
    AddedKong(AddedKongMeld),
}

impl From<ChowMeld> for Meld {
    /// Wraps the meld in its variant.
    fn from(meld: ChowMeld) -> (r: Meld)
        ensures
            r == Meld::Chow(meld),
    {
        Meld::Chow(meld)
    }
}

impl vstd::std_specs::convert::FromSpecImpl<ChowMeld> for Meld {
    open spec fn obeys_from_spec() -> bool {
        true
    }

    open spec fn from_spec(meld: ChowMeld) -> Meld {
        Meld::Chow(meld)
    }
}

impl From<PongMeld> for Meld {
    /// Wraps the meld in its variant.
    fn from(meld: PongMeld) -> (r: Meld)
        ensures
            r == Meld::Pong(meld),
    {
        Meld::Pong(meld)
    }
}

impl vstd::std_specs::convert::FromSpecImpl<PongMeld> for Meld {
    open spec fn obeys_from_spec() -> bool {
        true
    }

    open spec fn from_spec(meld: PongMeld) -> Meld {
        Meld::Pong(meld)
    }
}

impl From<ClaimedKongMeld> for Meld {
    /// Wraps the meld in its variant.
    fn from(meld: ClaimedKongMeld) -> (r: Meld)
        ensures
            r == Meld::ClaimedKong(meld),
    {
        Meld::ClaimedKong(meld)
    }
}

impl vstd::std_specs::convert::FromSpecImpl<ClaimedKongMeld> for Meld {
    open spec fn obeys_from_spec() -> bool {
        true
    }

    open spec fn from_spec(meld: ClaimedKongMeld) -> Meld {
        Meld::ClaimedKong(meld)
    }
}

impl From<ConcealedKongMeld> for Meld {
    /// Wraps the meld in its variant.
    fn from(meld: ConcealedKongMeld) -> (r: Meld)
        ensures
            r == Meld::ConcealedKong(meld),
    {
        Meld::ConcealedKong(meld)
    }
}

impl vstd::std_specs::convert::FromSpecImpl<ConcealedKongMeld> for Meld {
    open spec fn obeys_from_spec() -> bool {
        true
    }

    open spec fn from_spec(meld: ConcealedKongMeld) -> Meld {
        Meld::ConcealedKong(meld)
    }
}

impl From<AddedKongMeld> for Meld {
    /// Wraps the meld in its variant.
    fn from(meld: AddedKongMeld) -> (r: Meld)
        ensures
            r == Meld::AddedKong(meld),
    {
        Meld::AddedKong(meld)
    }
}

impl vstd::std_specs::convert::FromSpecImpl<AddedKongMeld> for Meld {
    open spec fn obeys_from_spec() -> bool {
        true
    }

    open spec fn from_spec(meld: AddedKongMeld) -> Meld {
        Meld::AddedKong(meld)
    }
}

impl Meld {
    /// The kind of the meld.
    pub open spec fn spec_kind(self) -> MeldKind {
        match self {
            Meld::Chow(_) => MeldKind::Chow,
            Meld::Pong(_) => MeldKind::Pong,
            Meld::ClaimedKong(_) => MeldKind::ClaimedKong,
            Meld::ConcealedKong(_) => MeldKind::ConcealedKong,
            Meld::AddedKong(_) => MeldKind::AddedKong,
        }
    }

    /// The tiles of the meld in stored order.
    pub open spec fn spec_tiles(self) -> Seq<Tile> {
        match self {
            Meld::Chow(m) => m.spec_tiles(),
            Meld::Pong(m) => m.spec_tiles(),
            Meld::ClaimedKong(m) => m.spec_tiles(),
            Meld::ConcealedKong(m) => m.spec_tiles(),
            Meld::AddedKong(m) => m.spec_tiles(),
        }
    }

    /// The claim source; `None` for a concealed kong.
    pub open spec fn spec_source(self) -> Option<Seat> {
        match self {
            Meld::Chow(m) => Some(m.spec_source()),
            Meld::Pong(m) => Some(m.spec_source()),
            Meld::ClaimedKong(m) => Some(m.spec_source()),
            Meld::ConcealedKong(_) => None,
            Meld::AddedKong(m) => Some(m.spec_source()),
        }
    }

    /// The number of tiles matches the kind.
    pub proof fn lemma_tile_len(self)
        ensures
            self.spec_tiles().len() == self.spec_kind().spec_tile_count(),
    {
        match self {
            Meld::Chow(m) => assert(m.tiles@.len() == 3),
            Meld::Pong(m) => assert(m.tiles@.len() == 3),
            Meld::ClaimedKong(m) => assert(m.tiles@.len() == 4),
            Meld::ConcealedKong(m) => assert(m.tiles@.len() == 4),
            Meld::AddedKong(m) => assert(m.tiles@.len() == 4),
        }
    }

    /// How the meld was formed.
    pub fn kind(&self) -> (r: MeldKind)
        ensures
            r == self.spec_kind(),
    {
        match self {
            Meld::Chow(meld) => meld.kind(),
            Meld::Pong(meld) => meld.kind(),
            Meld::ClaimedKong(meld) => meld.kind(),
            Meld::ConcealedKong(meld) => meld.kind(),
            Meld::AddedKong(meld) => meld.kind(),
        }
    }

    /// Number of tiles: three for chow and pong, four for kongs.
    pub fn tile_count(&self) -> (r: usize)
        ensures
            r == self.spec_kind().spec_tile_count(),
            r == self.spec_tiles().len(),
    {
        proof {
            self.lemma_tile_len();
        }
        self.kind().tile_count()
    }

    /// Whether the meld is a kong.
    pub fn is_kong(&self) -> (r: bool)
        ensures
            r == (self is ClaimedKong || self is ConcealedKong || self is AddedKong),
    {
        self.kind().is_kong()
    }

    /// Whether the meld itself is open (everything but a concealed kong).
    pub fn is_open(&self) -> (r: bool)
        ensures
            r == !(self is ConcealedKong),
    {
        self.kind().is_open()
    }

    /// Whether the meld is a concealed kong.
    pub fn is_concealed(&self) -> (r: bool)
        ensures
            r == (self is ConcealedKong),
    {
        self.kind().is_concealed()
    }

    /// All original tiles in stored order: claimed tile last for chow, pong and claimed kong;
    /// the pong's three tiles then the added one for an added kong.
    pub fn tiles(&self) -> (r: &[Tile])
        ensures
            r@ == self.spec_tiles(),
    {
        match self {
            Meld::Chow(meld) => meld.tiles().as_slice(),
            Meld::Pong(meld) => meld.tiles().as_slice(),
            Meld::ClaimedKong(meld) => meld.tiles().as_slice(),
            Meld::ConcealedKong(meld) => meld.tiles().as_slice(),
            Meld::AddedKong(meld) => meld.tiles().as_slice(),
        }
    }

    /// The claim source; `None` for a concealed kong, the pong's source for an added kong.
    pub fn source(&self) -> (r: Option<Seat>)
        ensures
            r == self.spec_source(),
    {
        match self {
            Meld::Chow(meld) => Some(meld.source()),
            Meld::Pong(meld) => Some(meld.source()),
            Meld::ClaimedKong(meld) => Some(meld.source()),
            Meld::ConcealedKong(_) => None,
            Meld::AddedKong(meld) => Some(meld.source()),
        }
    }

    /// The claimed tile; `None` for a concealed kong, the pong's claimed tile for an added kong.
    pub fn claimed_tile(&self) -> (r: Option<Tile>)
        ensures
            r == match self {
                Meld::Chow(m) => Some(m.spec_tiles()[2]),
                Meld::Pong(m) => Some(m.spec_tiles()[2]),
                Meld::ClaimedKong(m) => Some(m.spec_tiles()[3]),
                Meld::ConcealedKong(_) => None,
                Meld::AddedKong(m) => Some(m.spec_tiles()[2]),
            },
    {
        match self {
            Meld::Chow(meld) => Some(meld.claimed_tile()),
            Meld::Pong(meld) => Some(meld.claimed_tile()),
            Meld::ClaimedKong(meld) => Some(meld.claimed_tile()),
            Meld::ConcealedKong(_) => None,
            Meld::AddedKong(meld) => Some(meld.claimed_tile()),
        }
    }

    /// The added tile of an added kong; `None` for the other kinds.
    pub fn added_tile(&self) -> (r: Option<Tile>)
        ensures
            r == match self {
                Meld::AddedKong(m) => Some(m.spec_tiles()[3]),
                _ => None,
            },
    {
        match self {
            Meld::AddedKong(meld) => Some(meld.added_tile()),
            _ => None,
        }
    }

    /// The set of the meld's tiles; counts and wildcard readings are dropped.
    pub fn mask(&self) -> (r: TileMask)
        ensures
            r@ == code_set(self.spec_tiles()),
    {
        TileMask::from_tiles(self.tiles())
    }

    /// The counts of the meld's tiles, one per occurrence (never saturating: at most four).
    pub fn counts(&self) -> (r: TileCounts)
        ensures
            r@.len() == 64,
            forall|i: int| 0 <= i < 64 ==> #[trigger] r@[i] == sat_add(count_code(self.spec_tiles(), (i + 1) as u8) as int, 0),
    {
        TileCounts::from_tiles(self.tiles())
    }

    /// The tiles one by one in stored order.
    pub fn iter(&self) -> (r: Vec<Tile>)
        ensures
            r@ == self.spec_tiles(),
    {
        let tiles = self.tiles();
        let mut out: Vec<Tile> = Vec::new();
        let mut i: usize = 0;
        while i < tiles.len()
            invariant
                i <= tiles@.len(),
                out@ == tiles@.take(i as int),
            decreases tiles@.len() - i,
        {
            out.push(tiles[i]);
            proof {
                assert(out@ =~= tiles@.take(i as int + 1));
            }
            i += 1;
        }
        proof {
            assert(tiles@.take(tiles@.len() as int) =~= tiles@);
        }
        out
    }
}

} // verus!
