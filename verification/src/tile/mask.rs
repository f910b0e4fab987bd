//! A 64-bit set of tile faces.

use vstd::prelude::*;

use crate::bits::{
    bit64, lemma_bit64_and, lemma_bit64_and_not, lemma_bit64_nonzero, lemma_bit64_not, lemma_bit64_or,
    lemma_bit64_single, lemma_bit64_xor, lemma_bit64_zero, ones64,
};
use crate::tile::{code_set, Tile};

verus! {

/// The codes whose bits are set in a 64-bit word.
pub open spec fn bit_codes(bits: u64) -> Set<u8> {
    Set::new(|c: u8| 1 <= c <= 64 && bit64(bits, (c - 1) as u64))
}

/// A set of up to 64 tile faces.
///
/// Bit `n` stands for the tile whose compact index is `n`. The set records membership only,
/// never counts. All 64 slots are allowed; which ones a game enables is the rule's business.
/// The default value is the empty set.
#[derive(Clone, Copy, Debug, PartialEq, Eq, Structural, Hash, Default)]
pub struct TileMask(u64);

impl View for TileMask {
    type V = Set<u8>;

    /// The codes whose bits are set.
    open spec fn view(&self) -> Set<u8> {
        Set::new(|c: u8| 1 <= c <= 64 && bit64(self.spec_bits(), (c - 1) as u64))
    }
}

impl From<Tile> for TileMask {
    /// The set holding only `tile`.
    fn from(tile: Tile) -> (r: TileMask)
        ensures
            r@ == set![tile@],
    {
        TileMask::from_tile(tile)
    }
}

impl vstd::std_specs::convert::FromSpecImpl<Tile> for TileMask {
    open spec fn obeys_from_spec() -> bool {
        true
    }

    closed spec fn from_spec(tile: Tile) -> TileMask {
        TileMask(1u64 << (tile@ - 1) as u64)
    }
}

impl core::ops::Not for TileMask {
    type Output = TileMask;

    /// The complement within all 64 code slots.
    fn not(self) -> (r: TileMask)
        ensures
            forall|c: u8| 1 <= c <= 64 ==> (r@.contains(c) <==> !self@.contains(c)),
            forall|c: u8| r@.contains(c) ==> 1 <= c <= 64,
    {
        self.complement()
    }
}

impl vstd::std_specs::ops::NotSpecImpl for TileMask {
    open spec fn obeys_not_spec() -> bool {
        true
    }

    open spec fn not_req(self) -> bool {
        true
    }

    closed spec fn not_spec(self) -> TileMask {
        TileMask(!self.0)
    }
}

impl core::ops::BitOr for TileMask {
    type Output = TileMask;

    /// The union of the two sets.
    fn bitor(self, rhs: TileMask) -> (r: TileMask)
        ensures
            r@ == self@.union(rhs@),
    {
        self.union(rhs)
    }
}

impl vstd::std_specs::ops::BitOrSpecImpl for TileMask {
    open spec fn obeys_bitor_spec() -> bool {
        true
    }

    open spec fn bitor_req(self, rhs: TileMask) -> bool {
        true
    }

    closed spec fn bitor_spec(self, rhs: TileMask) -> TileMask {
        TileMask(self.0 | rhs.0)
    }
}

impl core::ops::BitOrAssign for TileMask {
    /// Replaces the set with `self | rhs`.
    fn bitor_assign(&mut self, rhs: TileMask)
        ensures
            final(self)@ == old(self)@.union(rhs@),
    {
        *self = self.union(rhs);
    }
}

impl core::ops::BitAnd for TileMask {
    type Output = TileMask;

    /// The intersection of the two sets.
    fn bitand(self, rhs: TileMask) -> (r: TileMask)
        ensures
            r@ == self@.intersect(rhs@),
    {
        self.intersection(rhs)
    }
}

impl vstd::std_specs::ops::BitAndSpecImpl for TileMask {
    open spec fn obeys_bitand_spec() -> bool {
        true
    }

    open spec fn bitand_req(self, rhs: TileMask) -> bool {
        true
    }

    closed spec fn bitand_spec(self, rhs: TileMask) -> TileMask {
        TileMask(self.0 & rhs.0)
    }
}

impl core::ops::BitAndAssign for TileMask {
    /// Replaces the set with `self & rhs`.
    fn bitand_assign(&mut self, rhs: TileMask)
        ensures
            final(self)@ == old(self)@.intersect(rhs@),
    {
        *self = self.intersection(rhs);
    }
}

impl core::ops::BitXor for TileMask {
    type Output = TileMask;

    /// The tiles that are in exactly one of the two sets.
    fn bitxor(self, rhs: TileMask) -> (r: TileMask)
        ensures
            r@ == self@.difference(rhs@).union(rhs@.difference(self@)),
    {
        self.symmetric_difference(rhs)
    }
}

impl vstd::std_specs::ops::BitXorSpecImpl for TileMask {
    open spec fn obeys_bitxor_spec() -> bool {
        true
    }

    open spec fn bitxor_req(self, rhs: TileMask) -> bool {
        true
    }

    closed spec fn bitxor_spec(self, rhs: TileMask) -> TileMask {
        TileMask(self.0 ^ rhs.0)
    }
}

impl core::ops::BitXorAssign for TileMask {
    /// Replaces the set with `self ^ rhs`.
    fn bitxor_assign(&mut self, rhs: TileMask)
        ensures
            final(self)@ == old(self)@.difference(rhs@).union(rhs@.difference(old(self)@)),
    {
        *self = self.symmetric_difference(rhs);
    }
}

impl core::ops::Sub for TileMask {
    type Output = TileMask;

    /// The tiles of `self` that are not in `rhs`.
    fn sub(self, rhs: TileMask) -> (r: TileMask)
        ensures
            r@ == self@.difference(rhs@),
    {
        self.difference(rhs)
    }
}

impl vstd::std_specs::ops::SubSpecImpl for TileMask {
    open spec fn obeys_sub_spec() -> bool {
        true
    }

    open spec fn sub_req(self, rhs: TileMask) -> bool {
        true
    }

    closed spec fn sub_spec(self, rhs: TileMask) -> TileMask {
        TileMask(self.0 & !rhs.0)
    }
}

impl core::ops::SubAssign for TileMask {
    /// Replaces the set with `self - rhs`.
    fn sub_assign(&mut self, rhs: TileMask)
        ensures
            final(self)@ == old(self)@.difference(rhs@),
    {
        *self = self.difference(rhs);
    }
}

impl TileMask {
    /// Bits of the empty set.
    pub const EMPTY_BITS: u64 = 0;
    /// Bits of the set of all 64 slots.
    pub const ALL_BITS: u64 = 0xFFFF_FFFF_FFFF_FFFF;
    /// Bits of the standard faces, codes `1..=42`.
    pub const STANDARD_BITS: u64 = 0x0000_03FF_FFFF_FFFF;
    /// Bits of the extension slots, codes `43..=64`.
    pub const EXTENSIONS_BITS: u64 = 0xFFFF_FC00_0000_0000;
    /// Bits of the man suit.
    pub const MAN_BITS: u64 = 0x0000_0000_0000_01FF;
    /// Bits of the pin suit.
    pub const PIN_BITS: u64 = 0x0000_0000_0003_FE00;
    /// Bits of the sou suit.
    pub const SOU_BITS: u64 = 0x0000_0000_07FC_0000;
    /// Bits of the three numbered suits.
    pub const NUMBERED_BITS: u64 = 0x0000_0000_07FF_FFFF;
    /// Bits of the four winds.
    pub const WINDS_BITS: u64 = 0x0000_0000_7800_0000;
    /// Bits of the three dragons.
    pub const DRAGONS_BITS: u64 = 0x0000_0003_8000_0000;
    /// Bits of the winds and dragons.
    pub const HONORS_BITS: u64 = 0x0000_0003_F800_0000;
    /// Bits of the numbered suits, winds and dragons.
    pub const STANDARD_NO_FLOWER_BITS: u64 = 0x0000_0003_FFFF_FFFF;
    /// Bits of the eight flowers.
    pub const FLOWERS_BITS: u64 = 0x0000_03FC_0000_0000;
    /// Bits of the ones and nines of the numbered suits.
    pub const TERMINALS_BITS: u64 = 0x0000_0000_0406_0301;
    /// Bits of the twos to eights of the numbered suits.
    pub const SIMPLES_BITS: u64 = 0x0000_0000_03F9_FCFE;
    /// Bits of the terminals and honors.
    pub const ORPHANS_BITS: u64 = 0x0000_0003_FC06_0301;

    /// The underlying word, as a spec value.
    pub closed spec fn spec_bits(self) -> u64 {
        self.0
    }

    /// Creates a set from raw bits; every bit stands for a structurally valid tile.
    pub fn from_bits(bits: u64) -> (r: TileMask)
        ensures
            r.spec_bits() == bits,
    {
        TileMask(bits)
    }

    /// Returns the underlying 64 bits.
    pub fn bits(self) -> (r: u64)
        ensures
            r == self.spec_bits(),
    {
        self.0
    }

    /// The empty set.
    pub fn empty() -> (r: TileMask)
        ensures
            r.spec_bits() == 0,
            r@ == Set::<u8>::empty(),
    {
        proof {
            assert forall|i: u64| i < 64 implies !bit64(0u64, i) by {
                lemma_bit64_zero(i);
            }
            assert(TileMask(0)@ =~= Set::<u8>::empty());
        }
        TileMask(0)
    }

    /// The set of every code slot.
    pub fn all() -> (r: TileMask)
        ensures
            r.spec_bits() == Self::ALL_BITS,
    {
        TileMask(Self::ALL_BITS)
    }

    /// The set of the standard faces, codes `1..=42`.
    pub fn standard() -> (r: TileMask)
        ensures
            r.spec_bits() == Self::STANDARD_BITS,
    {
        TileMask(Self::STANDARD_BITS)
    }

    /// The set of the extension slots, codes `43..=64`.
    pub fn extensions() -> (r: TileMask)
        ensures
            r.spec_bits() == Self::EXTENSIONS_BITS,
    {
        TileMask(Self::EXTENSIONS_BITS)
    }

    /// The set of the man suit.
    pub fn man() -> (r: TileMask)
        ensures
            r.spec_bits() == Self::MAN_BITS,
    {
        TileMask(Self::MAN_BITS)
    }

    /// The set of the pin suit.
    pub fn pin() -> (r: TileMask)
        ensures
            r.spec_bits() == Self::PIN_BITS,
    {
        TileMask(Self::PIN_BITS)
    }

    /// The set of the sou suit.
    pub fn sou() -> (r: TileMask)
        ensures
            r.spec_bits() == Self::SOU_BITS,
    {
        TileMask(Self::SOU_BITS)
    }

    /// The set of the three numbered suits.
    pub fn numbered() -> (r: TileMask)
        ensures
            r.spec_bits() == Self::NUMBERED_BITS,
    {
        TileMask(Self::NUMBERED_BITS)
    }

    /// The set of the four winds.
    pub fn winds() -> (r: TileMask)
        ensures
            r.spec_bits() == Self::WINDS_BITS,
    {
        TileMask(Self::WINDS_BITS)
    }

    /// The set of the three dragons.
    pub fn dragons() -> (r: TileMask)
        ensures
            r.spec_bits() == Self::DRAGONS_BITS,
    {
        TileMask(Self::DRAGONS_BITS)
    }

    /// The set of the winds and dragons.
    pub fn honors() -> (r: TileMask)
        ensures
            r.spec_bits() == Self::HONORS_BITS,
    {
        TileMask(Self::HONORS_BITS)
    }

    /// The set of the numbered suits, winds and dragons.
    pub fn standard_no_flower() -> (r: TileMask)
        ensures
            r.spec_bits() == Self::STANDARD_NO_FLOWER_BITS,
    {
        TileMask(Self::STANDARD_NO_FLOWER_BITS)
    }

    /// The set of the eight flowers.
    pub fn flowers() -> (r: TileMask)
        ensures
            r.spec_bits() == Self::FLOWERS_BITS,
    {
        TileMask(Self::FLOWERS_BITS)
    }

    /// The set of the ones and nines of the numbered suits.
    pub fn terminals() -> (r: TileMask)
        ensures
            r.spec_bits() == Self::TERMINALS_BITS,
    {
        TileMask(Self::TERMINALS_BITS)
    }

    /// The set of the twos to eights of the numbered suits.
    pub fn simples() -> (r: TileMask)
        ensures
            r.spec_bits() == Self::SIMPLES_BITS,
    {
        TileMask(Self::SIMPLES_BITS)
    }

    /// The set of the terminals and honors.
    pub fn orphans() -> (r: TileMask)
        ensures
            r.spec_bits() == Self::ORPHANS_BITS,
    {
        TileMask(Self::ORPHANS_BITS)
    }

    /// The set that holds only `tile`.
    pub fn from_tile(tile: Tile) -> (r: TileMask)
        ensures
            r.spec_bits() == 1u64 << (tile@ - 1) as u64,
            r@ == set![tile@],
    {
        let idx = tile.index() as u64;
        let r = TileMask(1u64 << idx);
        proof {
            assert forall|c: u8| r@.contains(c) == (c == tile@) by {
                if 1 <= c <= 64 {
                    lemma_bit64_single(idx, (c - 1) as u64);
                }
            }
            assert(r@ =~= set![tile@]);
        }
        r
    }

    /// Whether the set holds `tile`.
    pub fn contains(self, tile: Tile) -> (r: bool)
        ensures
            r == self@.contains(tile@),
    {
        let idx = tile.index() as u64;
        (self.0 >> idx) & 1u64 == 1u64
    }

    /// The set of the tiles in a slice; repeated tiles count once.
    pub fn from_tiles(tiles: &[Tile]) -> (r: TileMask)
        ensures
            r@ == code_set(tiles@),
    {
        let mut mask = TileMask::empty();
        let mut index: usize = 0;
        while index < tiles.len()
            invariant
                index <= tiles@.len(),
                mask@ == code_set(tiles@.take(index as int)),
            decreases tiles@.len() - index,
        {
            let ghost before = mask@;
            mask.insert(tiles[index]);
            proof {
                assert(code_set(tiles@.take(index as int + 1)) =~= before.insert(tiles@[index as int]@)) by {
                    assert forall|c: u8| code_set(tiles@.take(index as int + 1)).contains(c) implies
                        before.insert(tiles@[index as int]@).contains(c) by {
                        let i = choose|i: int| 0 <= i < index + 1 && #[trigger] tiles@.take(index as int + 1)[i]@ == c;
                        if i < index {
                            assert(tiles@.take(index as int)[i]@ == c);
                        }
                    }
                    assert forall|c: u8| before.insert(tiles@[index as int]@).contains(c) implies
                        code_set(tiles@.take(index as int + 1)).contains(c) by {
                        if c == tiles@[index as int]@ {
                            assert(tiles@.take(index as int + 1)[index as int]@ == c);
                        } else {
                            let i = choose|i: int| 0 <= i < index && #[trigger] tiles@.take(index as int)[i]@ == c;
                            assert(tiles@.take(index as int + 1)[i]@ == c);
                        }
                    }
                }
            }
            index += 1;
        }
        proof {
            assert(tiles@.take(tiles@.len() as int) =~= tiles@);
        }
        mask
    }

    /// Number of distinct tiles in the set, in `0..=64`.
    pub fn len(self) -> (r: usize)
        ensures
            r == ones64(self.spec_bits(), 64),
            r <= 64,
    {
        let mut count: usize = 0;
        let mut i: u64 = 0;
        while i < 64
            invariant
                i <= 64,
                count == ones64(self.0, i as nat),
                count <= i,
            decreases 64 - i,
        {
            if (self.0 >> i) & 1u64 == 1u64 {
                count += 1;
            }
            i += 1;
        }
        count
    }

    /// Whether the set holds no tile.
    pub fn is_empty(self) -> (r: bool)
        ensures
            r == (self.spec_bits() == 0),
            r == (self@ == Set::<u8>::empty()),
    {
        proof {
            if self.0 == 0 {
                assert forall|i: u64| i < 64 implies !bit64(0u64, i) by {
                    lemma_bit64_zero(i);
                }
                assert(self@ =~= Set::<u8>::empty());
            } else {
                lemma_bit64_nonzero(self.0);
                let i = choose|i: u64| i < 64 && bit64(self.0, i);
                assert(self@.contains((i + 1) as u8));
            }
        }
        self.0 == 0
    }

    /// Whether every tile of `self` is in `other`; equal and empty sets qualify.
    pub fn is_subset(self, other: TileMask) -> (r: bool)
        ensures
            r == self@.subset_of(other@),
    {
        let d = self.difference(other);
        let r = d.is_empty();
        proof {
            if r {
                assert forall|c: u8| self@.contains(c) implies other@.contains(c) by {
                    if !other@.contains(c) {
                        assert(d@.contains(c));
                    }
                }
            } else {
                if forall|c: u8| !d@.contains(c) {
                    assert(d@ =~= Set::<u8>::empty());
                }
            }
        }
        r
    }

    /// Whether the two sets share no tile.
    pub fn is_disjoint(self, other: TileMask) -> (r: bool)
        ensures
            r == self@.disjoint(other@),
    {
        let d = self.intersection(other);
        let r = d.is_empty();
        proof {
            if !r {
                if forall|c: u8| !d@.contains(c) {
                    assert(d@ =~= Set::<u8>::empty());
                }
                let c = choose|c: u8| d@.contains(c);
                assert(self@.contains(c) && other@.contains(c));
            } else {
                assert forall|c: u8| !(self@.contains(c) && other@.contains(c)) by {
                    if self@.contains(c) && other@.contains(c) {
                        assert(d@.contains(c));
                    }
                }
            }
        }
        r
    }

    /// The union of the two sets.
    pub fn union(self, other: TileMask) -> (r: TileMask)
        ensures
            r.spec_bits() == self.spec_bits() | other.spec_bits(),
            r@ == self@.union(other@),
    {
        let r = TileMask(self.0 | other.0);
        proof {
            assert forall|c: u8| r@.contains(c) == self@.union(other@).contains(c) by {
                if 1 <= c <= 64 {
                    lemma_bit64_or(self.0, other.0, (c - 1) as u64);
                }
            }
            assert(r@ =~= self@.union(other@));
        }
        r
    }

    /// The intersection of the two sets.
    pub fn intersection(self, other: TileMask) -> (r: TileMask)
        ensures
            r.spec_bits() == self.spec_bits() & other.spec_bits(),
            r@ == self@.intersect(other@),
    {
        let r = TileMask(self.0 & other.0);
        proof {
            assert forall|c: u8| r@.contains(c) == self@.intersect(other@).contains(c) by {
                if 1 <= c <= 64 {
                    lemma_bit64_and(self.0, other.0, (c - 1) as u64);
                }
            }
            assert(r@ =~= self@.intersect(other@));
        }
        r
    }

    /// The tiles of `self` that are not in `other`.
    pub fn difference(self, other: TileMask) -> (r: TileMask)
        ensures
            r.spec_bits() == self.spec_bits() & !other.spec_bits(),
            r@ == self@.difference(other@),
    {
        let r = TileMask(self.0 & !other.0);
        proof {
            assert forall|c: u8| r@.contains(c) == self@.difference(other@).contains(c) by {
                if 1 <= c <= 64 {
                    lemma_bit64_and_not(self.0, other.0, (c - 1) as u64);
                }
            }
            assert(r@ =~= self@.difference(other@));
        }
        r
    }

    /// The tiles that are in exactly one of the two sets.
    pub fn symmetric_difference(self, other: TileMask) -> (r: TileMask)
        ensures
            r.spec_bits() == self.spec_bits() ^ other.spec_bits(),
            r@ == self@.difference(other@).union(other@.difference(self@)),
    {
        let r = TileMask(self.0 ^ other.0);
        proof {
            assert forall|c: u8| r@.contains(c) == self@.difference(other@).union(
                other@.difference(self@),
            ).contains(c) by {
                if 1 <= c <= 64 {
                    lemma_bit64_xor(self.0, other.0, (c - 1) as u64);
                }
            }
            assert(r@ =~= self@.difference(other@).union(other@.difference(self@)));
        }
        r
    }

    /// The complement within all 64 code slots, unused extension slots included.
    pub fn complement(self) -> (r: TileMask)
        ensures
            r.spec_bits() == !self.spec_bits(),
            forall|c: u8| 1 <= c <= 64 ==> (r@.contains(c) <==> !self@.contains(c)),
            forall|c: u8| r@.contains(c) ==> 1 <= c <= 64,
    {
        let r = TileMask(!self.0);
        proof {
            assert forall|c: u8| 1 <= c <= 64 implies (r@.contains(c) <==> !self@.contains(c)) by {
                lemma_bit64_not(self.0, (c - 1) as u64);
            }
        }
        r
    }

    /// Adds `tile`; returns `true` when it was not in the set before.
    pub fn insert(&mut self, tile: Tile) -> (r: bool)
        ensures
            r == !old(self)@.contains(tile@),
            final(self)@ == old(self)@.insert(tile@),
    {
        let inserted = !self.contains(tile);
        *self = self.union(TileMask::from_tile(tile));
        inserted
    }

    /// Removes `tile`; returns `true` when it was in the set before.
    pub fn remove(&mut self, tile: Tile) -> (r: bool)
        ensures
            r == old(self)@.contains(tile@),
            final(self)@ == old(self)@.remove(tile@),
    {
        let removed = self.contains(tile);
        *self = self.difference(TileMask::from_tile(tile));
        proof {
            assert(set![tile@] =~= Set::empty().insert(tile@));
            assert(old(self)@.difference(set![tile@]) =~= old(self)@.remove(tile@));
        }
        removed
    }

    /// The members in ascending code order, each once.
    pub fn iter(self) -> (r: Vec<Tile>)
        ensures
            forall|i: int| 0 <= i < r@.len() ==> self@.contains(#[trigger] r@[i]@),
            forall|i: int, j: int| 0 <= i < j < r@.len() ==> r@[i]@ < r@[j]@,
            forall|c: u8| self@.contains(c) ==> exists|i: int| 0 <= i < r@.len() && #[trigger] r@[i]@ == c,
    {
        let mut out: Vec<Tile> = Vec::new();
        let mut index: usize = 0;
        while index < 64
            invariant
                index <= 64,
                forall|i: int| 0 <= i < out@.len() ==> self@.contains(#[trigger] out@[i]@),
                forall|i: int| 0 <= i < out@.len() ==> #[trigger] out@[i]@ <= index,
                forall|i: int, j: int| 0 <= i < j < out@.len() ==> out@[i]@ < out@[j]@,
                forall|c: u8| self@.contains(c) && c <= index ==> exists|i: int| 0 <= i < out@.len() && #[trigger] out@[i]@ == c,
            decreases 64 - index,
        {
            if (self.0 >> (index as u64)) & 1u64 == 1u64 {
                let tile = Tile::from_index(index).unwrap();
                let ghost prev = out@;
                out.push(tile);
                proof {
                    assert forall|i: int| 0 <= i < prev.len() implies out@[i] == prev[i] by {}
                    assert(out@[out@.len() - 1]@ == index + 1);
                    assert forall|c: u8| self@.contains(c) && c <= index + 1 implies exists|i: int| 0 <= i < out@.len() && #[trigger] out@[i]@ == c by {
                        if c == index + 1 {
                            assert(out@[out@.len() - 1]@ == c);
                        } else {
                            let i = choose|i: int| 0 <= i < prev.len() && #[trigger] prev[i]@ == c;
                            assert(out@[i]@ == c);
                        }
                    }
                }
            } else {
                proof {
                    assert forall|c: u8| self@.contains(c) && c <= index + 1 implies exists|i: int| 0 <= i < out@.len() && #[trigger] out@[i]@ == c by {
                        if c == index + 1 {
                            assert(!self@.contains(c));
                        }
                    }
                }
            }
            index += 1;
        }
        out
    }
}

} // verus!
