//! Declared melds in declaration order, with independent chow, pong and kong declarations and
//! in-place added kongs.

use vstd::prelude::*;

use crate::meld::{ChowMeld, ClaimedKongMeld, ConcealedKongMeld, Meld, MeldKind, PongMeld};
use crate::seat::Seat;
use crate::tile::counts::sat_add;
use crate::tile::{code_set, count_code, Tile, TileCounts, TileMask};

verus! {

/// The tiles of a sequence of melds, meld after meld, each in stored order.
pub open spec fn flat_tiles(melds: Seq<Meld>) -> Seq<Tile>
    decreases melds.len(),
{
    if melds.len() == 0 {
        Seq::empty()
    } else {
        flat_tiles(melds.drop_last()) + melds.last().spec_tiles()
    }
}

/// Number of melds of one kind in a sequence.
pub open spec fn kind_total(melds: Seq<Meld>, kind: MeldKind) -> nat
    decreases melds.len(),
{
    if melds.len() == 0 {
        0
    } else {
        kind_total(melds.drop_last(), kind) + if melds.last().spec_kind() == kind { 1nat } else { 0nat }
    }
}

/// Each meld holds at most four tiles.
proof fn lemma_flat_len(melds: Seq<Meld>)
    ensures
        flat_tiles(melds).len() <= 4 * melds.len(),
    decreases melds.len(),
{
    if melds.len() > 0 {
        lemma_flat_len(melds.drop_last());
        melds.last().lemma_tile_len();
    }
}

/// Appending a meld appends its tiles.
pub proof fn lemma_flat_push(melds: Seq<Meld>, meld: Meld)
    ensures
        flat_tiles(melds.push(meld)) == flat_tiles(melds) + meld.spec_tiles(),
{
    assert(melds.push(meld).drop_last() =~= melds);
}

/// Replacing one meld swaps its tiles for the new meld's tiles, as a multiset.
pub proof fn lemma_flat_update(melds: Seq<Meld>, i: int, meld: Meld)
    requires
        0 <= i < melds.len(),
    ensures
        flat_tiles(melds.update(i, meld)).to_multiset().add(melds[i].spec_tiles().to_multiset())
            == flat_tiles(melds).to_multiset().add(meld.spec_tiles().to_multiset()),
    decreases melds.len(),
{
    broadcast use vstd::seq_lib::lemma_multiset_commutative;
    broadcast use vstd::multiset::group_multiset_axioms;
    let up = melds.update(i, meld);
    if i == melds.len() - 1 {
        assert(up.drop_last() =~= melds.drop_last());
        let a = flat_tiles(melds.drop_last()).to_multiset();
        assert(a.add(meld.spec_tiles().to_multiset()).add(melds[i].spec_tiles().to_multiset())
            =~= a.add(melds[i].spec_tiles().to_multiset()).add(meld.spec_tiles().to_multiset()));
    } else {
        assert(up.drop_last() =~= melds.drop_last().update(i, meld));
        lemma_flat_update(melds.drop_last(), i, meld);
        let a = flat_tiles(melds.drop_last().update(i, meld)).to_multiset();
        let b = flat_tiles(melds.drop_last()).to_multiset();
        let l = melds.last().spec_tiles().to_multiset();
        let o = melds[i].spec_tiles().to_multiset();
        let n = meld.spec_tiles().to_multiset();
        assert(a.add(l).add(o) =~= a.add(o).add(l));
        assert(b.add(l).add(n) =~= b.add(n).add(l));
    }
}

/// Declared melds in declaration order.
///
/// New declarations are appended; an added kong replaces its pong in place, so existing indices
/// never move. There is no arbitrary overwrite or removal, no limit on the number of melds, and
/// no check of runs, sets, wildcards or claim rights.
#[derive(Debug, PartialEq, Eq, Hash, Default)]
pub struct Melds {
    melds: Vec<Meld>,
}

impl Clone for Melds {
    /// The same melds in the same order.
    fn clone(&self) -> (r: Melds)
        ensures
            r@ == self@,
    {
        let r = Melds { melds: self.melds.clone() };
        proof {
            assert(r.melds@ =~= self.melds@);
        }
        r
    }
}

impl View for Melds {
    type V = Seq<Meld>;

    /// The melds in declaration order.
    closed spec fn view(&self) -> Seq<Meld> {
        self.melds@
    }
}

/// Why an operation on [`Melds`] failed.
#[derive(Clone, Copy, Debug, PartialEq, Eq, Structural)]
pub enum MeldsError {
    /// The index is not below the number of melds.
    IndexOutOfBounds {
        /// The requested index.
        index: usize,
        /// The number of melds before the operation.
        len: usize,
    },
    /// The target of an added kong is not a pong.
    ExpectedPong {
        /// The requested index.
        index: usize,
        /// The kind found there.
        actual: MeldKind,
    },
}

impl IntoIterator for Melds {
    type Item = Meld;

    type IntoIter = std::vec::IntoIter<Meld>;

    /// Moves the melds out in declaration order.
    fn into_iter(self) -> (r: std::vec::IntoIter<Meld>)
        ensures
            vstd::std_specs::iter::IteratorSpec::remaining(&r) == self@,
    {
        self.melds.into_iter()
    }
}

impl<'a> IntoIterator for &'a Melds {
    type Item = &'a Meld;

    type IntoIter = std::slice::Iter<'a, Meld>;

    /// Borrows the melds in declaration order.
    fn into_iter(self) -> (r: std::slice::Iter<'a, Meld>)
        ensures
            vstd::std_specs::iter::IteratorSpec::remaining(&r) == self@.map_values(|m: Meld| &m),
    {
        self.melds.iter()
    }
}

impl AsRef<[Meld]> for Melds {
    /// All melds in declaration order.
    fn as_ref(&self) -> (r: &[Meld])
        ensures
            r@ == self@,
    {
        self.melds.as_slice()
    }
}

impl core::ops::Index<usize> for Melds {
    type Output = Meld;

    /// The meld at `index`; the index must be below the number of melds.
    fn index(&self, index: usize) -> (r: &Meld)
        ensures
            *r == self@[index as int],
    {
        &self.melds[index]
    }
}

impl vstd::std_specs::core::IndexSpecImpl<usize> for Melds {
    open spec fn index_req(&self, index: &usize) -> bool {
        *index < self@.len()
    }
}

impl Melds {
    /// An empty collection.
    pub fn new() -> (r: Melds)
        ensures
            r@ == Seq::<Meld>::empty(),
    {
        Melds { melds: Vec::new() }
    }

    /// Takes existing melds in the given order; nothing is sorted, merged or checked.
    pub fn from_melds(melds: Vec<Meld>) -> (r: Melds)
        ensures
            r@ == melds@,
    {
        Melds { melds }
    }

    /// All melds in stored order.
    pub fn into_melds(self) -> (r: Vec<Meld>)
        ensures
            r@ == self@,
    {
        self.melds
    }

    /// Number of melds (not of tiles).
    pub fn len(&self) -> (r: usize)
        ensures
            r == self@.len(),
    {
        self.melds.len()
    }

    /// Whether there is no meld.
    pub fn is_empty(&self) -> (r: bool)
        ensures
            r == (self@.len() == 0),
    {
        self.melds.len() == 0
    }

    /// Borrows all melds in stored order.
    pub fn as_slice(&self) -> (r: &[Meld])
        ensures
            r@ == self@,
    {
        self.melds.as_slice()
    }

    /// The meld at `index`; `None` when out of bounds.
    pub fn get(&self, index: usize) -> (r: Option<&Meld>)
        ensures
            r == if index < self@.len() { Some(&self@[index as int]) } else { None::<&Meld> },
    {
        if index < self.melds.len() {
            Some(&self.melds[index])
        } else {
            None
        }
    }

    /// Copies of the melds in stored order.
    pub fn iter(&self) -> (r: Vec<Meld>)
        ensures
            r@ == self@,
    {
        let mut out: Vec<Meld> = Vec::new();
        let mut i: usize = 0;
        while i < self.melds.len()
            invariant
                i <= self.melds@.len(),
                out@ == self.melds@.take(i as int),
            decreases self.melds@.len() - i,
        {
            out.push(self.melds[i]);
            proof {
                assert(out@ =~= self.melds@.take(i as int + 1));
            }
            i += 1;
        }
        proof {
            assert(self.melds@.take(self.melds@.len() as int) =~= self.melds@);
        }
        out
    }

    /// Every tile of every meld, meld by meld, in stored order; duplicates are kept.
    pub fn tiles(&self) -> (r: Vec<Tile>)
        ensures
            r@ == flat_tiles(self@),
    {
        let mut out: Vec<Tile> = Vec::new();
        let mut i: usize = 0;
        while i < self.melds.len()
            invariant
                i <= self.melds@.len(),
                out@ == flat_tiles(self.melds@.take(i as int)),
            decreases self.melds@.len() - i,
        {
            let tiles = self.melds[i].tiles();
            let ghost before = out@;
            let mut j: usize = 0;
            while j < tiles.len()
                invariant
                    j <= tiles@.len(),
                    out@ == before + tiles@.take(j as int),
                decreases tiles@.len() - j,
            {
                out.push(tiles[j]);
                proof {
                    assert(out@ =~= before + tiles@.take(j as int + 1));
                }
                j += 1;
            }
            proof {
                assert(tiles@.take(tiles@.len() as int) =~= tiles@);
                assert(self.melds@.take(i as int + 1).drop_last() =~= self.melds@.take(i as int));
            }
            i += 1;
        }
        proof {
            assert(self.melds@.take(self.melds@.len() as int) =~= self.melds@);
        }
        out
    }

    /// The exact number of tiles in all melds; a kong counts four.
    pub fn tile_count(&self) -> (r: usize)
        requires
            self@.len() <= usize::MAX / 4,
        ensures
            r == flat_tiles(self@).len(),
    {
        let mut total: usize = 0;
        let mut i: usize = 0;
        while i < self.melds.len()
            invariant
                i <= self.melds@.len(),
                self.melds@.len() <= usize::MAX / 4,
                total == flat_tiles(self.melds@.take(i as int)).len(),
                total <= 4 * i,
            decreases self.melds@.len() - i,
        {
            proof {
                assert(self.melds@.take(i as int + 1).drop_last() =~= self.melds@.take(i as int));
                self.melds@[i as int].lemma_tile_len();
            }
            total = total + self.melds[i].tile_count();
            i += 1;
        }
        proof {
            assert(self.melds@.take(self.melds@.len() as int) =~= self.melds@);
        }
        total
    }

    /// The exact number of copies of `tile` in all melds.
    pub fn count(&self, tile: Tile) -> (r: usize)
        ensures
            r == count_code(flat_tiles(self@), tile@),
    {
        let tiles = self.tiles();
        crate::tile::count_in(tiles.as_slice(), tile)
    }

    /// Number of melds of `kind` (not of tiles).
    pub fn kind_count(&self, kind: MeldKind) -> (r: usize)
        ensures
            r == kind_total(self@, kind),
    {
        let mut total: usize = 0;
        let mut i: usize = 0;
        while i < self.melds.len()
            invariant
                i <= self.melds@.len(),
                total == kind_total(self.melds@.take(i as int), kind),
                total <= i,
            decreases self.melds@.len() - i,
        {
            proof {
                assert(self.melds@.take(i as int + 1).drop_last() =~= self.melds@.take(i as int));
            }
            if self.melds[i].kind() == kind {
                total += 1;
            }
            i += 1;
        }
        proof {
            assert(self.melds@.take(self.melds@.len() as int) =~= self.melds@);
        }
        total
    }

    /// The set of tiles in all melds; counts, boundaries and order are dropped.
    pub fn mask(&self) -> (r: TileMask)
        ensures
            r@ == code_set(flat_tiles(self@)),
    {
        let tiles = self.tiles();
        TileMask::from_tiles(tiles.as_slice())
    }

    /// Tile counts over all melds, saturating at 255 per slot.
    pub fn counts(&self) -> (r: TileCounts)
        ensures
            r@.len() == 64,
            forall|i: int| 0 <= i < 64 ==> #[trigger] r@[i] == sat_add(count_code(flat_tiles(self@), (i + 1) as u8) as int, 0),
    {
        let tiles = self.tiles();
        TileCounts::from_tiles(tiles.as_slice())
    }

    /// Appends a meld and returns its index.
    fn append(&mut self, meld: Meld) -> (r: usize)
        ensures
            r == old(self)@.len(),
            final(self)@ == old(self)@.push(meld),
    {
        let index = self.melds.len();
        self.melds.push(meld);
        index
    }

    /// Appends a chow of two own tiles and a claimed tile from `source`; returns its index.
    pub fn chow(&mut self, owned: [Tile; 2], claimed: Tile, source: Seat) -> (r: usize)
        ensures
            r == old(self)@.len(),
            final(self)@.len() == old(self)@.len() + 1,
            final(self)@.take(old(self)@.len() as int) == old(self)@,
            final(self)@.last() matches Meld::Chow(m) && m.spec_tiles() == seq![owned@[0], owned@[1], claimed]
                && m.spec_source() == source,
    {
        let r = self.append(Meld::Chow(ChowMeld::new(owned, claimed, source)));
        proof {
            assert(self@.take(old(self)@.len() as int) =~= old(self)@);
        }
        r
    }

    /// Appends a pong of two own tiles and a claimed tile from `source`; returns its index.
    pub fn pong(&mut self, owned: [Tile; 2], claimed: Tile, source: Seat) -> (r: usize)
        ensures
            r == old(self)@.len(),
            final(self)@.len() == old(self)@.len() + 1,
            final(self)@.take(old(self)@.len() as int) == old(self)@,
            final(self)@.last() matches Meld::Pong(m) && m.spec_tiles() == seq![owned@[0], owned@[1], claimed]
                && m.spec_source() == source,
    {
        let r = self.append(Meld::Pong(PongMeld::new(owned, claimed, source)));
        proof {
            assert(self@.take(old(self)@.len() as int) =~= old(self)@);
        }
        r
    }

    /// Appends a claimed kong of three own tiles and a claimed tile from `source`; returns its
    /// index.
    pub fn claimed_kong(&mut self, owned: [Tile; 3], claimed: Tile, source: Seat) -> (r: usize)
        ensures
            r == old(self)@.len(),
            final(self)@.len() == old(self)@.len() + 1,
            final(self)@.take(old(self)@.len() as int) == old(self)@,
            final(self)@.last() matches Meld::ClaimedKong(m) && m.spec_tiles() == seq![owned@[0], owned@[1], owned@[2], claimed]
                && m.spec_source() == source,
    {
        let r = self.append(Meld::ClaimedKong(ClaimedKongMeld::new(owned, claimed, source)));
        proof {
            assert(self@.take(old(self)@.len() as int) =~= old(self)@);
        }
        r
    }

    /// Appends a concealed kong of four own tiles; returns its index.
    pub fn concealed_kong(&mut self, tiles: [Tile; 4]) -> (r: usize)
        ensures
            r == old(self)@.len(),
            final(self)@.len() == old(self)@.len() + 1,
            final(self)@.take(old(self)@.len() as int) == old(self)@,
            final(self)@.last() matches Meld::ConcealedKong(m) && m.spec_tiles() == tiles@,
    {
        let r = self.append(Meld::ConcealedKong(ConcealedKongMeld::new(tiles)));
        proof {
            assert(self@.take(old(self)@.len() as int) =~= old(self)@);
        }
        r
    }

    /// Turns the pong at `index` into an added kong in place: the pong's tiles, order and source
    /// are kept and `tile` becomes the fourth tile. Nothing else moves.
    ///
    /// Fails with [`MeldsError::IndexOutOfBounds`] when `index` is not below the length, and with
    /// [`MeldsError::ExpectedPong`] when the meld there is not a pong; on failure nothing changes.
    pub fn add_kong(&mut self, index: usize, tile: Tile) -> (r: Result<(), MeldsError>)
        ensures
            index >= old(self)@.len() ==> r == Err::<(), MeldsError>(
                MeldsError::IndexOutOfBounds { index, len: old(self)@.len() as usize },
            ),
            index < old(self)@.len() && !(old(self)@[index as int] is Pong) ==> r == Err::<(), MeldsError>(
                MeldsError::ExpectedPong { index, actual: old(self)@[index as int].spec_kind() },
            ),
            r is Err ==> final(self)@ == old(self)@,
            r is Ok <==> (index < old(self)@.len() && old(self)@[index as int] is Pong),
            r is Ok ==> final(self)@.len() == old(self)@.len(),
            r is Ok ==> forall|j: int| 0 <= j < old(self)@.len() && j != index ==> #[trigger] final(self)@[j] == old(self)@[j],
            r is Ok ==> (old(self)@[index as int] matches Meld::Pong(p) && final(self)@[index as int] matches Meld::AddedKong(k)
                && k.spec_tiles() == p.spec_tiles().push(tile) && k.spec_source() == p.spec_source()),
    {
        let len = self.melds.len();
        if index >= len {
            return Err(MeldsError::IndexOutOfBounds { index, len });
        }
        let meld = self.melds[index];
        match meld {
            Meld::Pong(pong) => {
                let kong = pong.with_added_tile(tile);
                self.melds.set(index, Meld::AddedKong(kong));
                Ok(())
            },
            _ => Err(MeldsError::ExpectedPong { index, actual: meld.kind() }),
        }
    }
}

} // verus!
