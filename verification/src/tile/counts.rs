//! Per-face tile counts in a fixed vector of 64 slots.

use vstd::prelude::*;

use crate::bits::{bit64, lemma_bit64_or, lemma_bit64_single, lemma_bit64_zero, ones64};
use crate::tile::mask::bit_codes;
use crate::tile::{count_code, lemma_count_code_push, Tile, TileMask};

verus! {

/// `a + b` saturated at 255.
pub open spec fn sat_add(a: int, b: int) -> u8 {
    if a + b > 255 {
        255u8
    } else {
        (a + b) as u8
    }
}

/// Sum of all entries of a sequence of counts.
pub open spec fn sum_counts(s: Seq<u8>) -> int
    decreases s.len(),
{
    if s.len() == 0 {
        0
    } else {
        sum_counts(s.drop_last()) + s.last()
    }
}

/// Saturated total that the groups `groups[..k]` give the slot of code `code`.
pub open spec fn group_count(groups: Seq<(TileMask, u8)>, k: int, code: u8) -> u8
    decreases k,
{
    if k <= 0 {
        0u8
    } else {
        let prev = group_count(groups, k - 1, code);
        if groups[k - 1].0@.contains(code) {
            sat_add(prev as int, groups[k - 1].1 as int)
        } else {
            prev
        }
    }
}

/// Tile counts indexed by compact index: slot `n` holds the count of the tile with code `n + 1`.
///
/// Each slot is a `u8`; additions through this type saturate at 255 per slot, independently of
/// every other slot. The total of all slots can therefore exceed 255.
#[derive(Clone, Copy, Debug, PartialEq, Eq, Hash)]
pub struct TileCounts([u8; 64]);

impl View for TileCounts {
    type V = Seq<u8>;

    /// The 64 slots, by compact index.
    closed spec fn view(&self) -> Seq<u8> {
        self.0@
    }
}

/// The codes whose slot holds a nonzero count.
pub open spec fn nonzero_codes(counts: Seq<u8>) -> Set<u8> {
    Set::new(|c: u8| 1 <= c <= 64 && counts[c - 1] != 0)
}

/// Number of nonzero slots among the first `n`.
pub open spec fn nonzero_count(counts: Seq<u8>, n: nat) -> nat
    decreases n,
{
    if n == 0 {
        0
    } else {
        nonzero_count(counts, (n - 1) as nat) + if counts[n - 1] != 0 { 1nat } else { 0nat }
    }
}

/// The counts that give `count` to every code of `codes` and zero to the others.
pub open spec fn mask_counts(codes: Set<u8>, count: u8) -> Seq<u8> {
    Seq::new(64, |i: int| if codes.contains((i + 1) as u8) { count } else { 0u8 })
}

/// Counts made from a mask with a nonzero count give that mask back, and only the all-zero
/// counts give the empty mask.
pub proof fn law_mask_round_trip(mask: TileMask, count: u8, counts: Seq<u8>)
    requires
        count > 0,
        counts.len() == 64,
        forall|i: int| 0 <= i < 64 ==> #[trigger] counts[i] == if mask@.contains((i + 1) as u8) { count } else { 0u8 },
    ensures
        nonzero_codes(counts) == mask@,
{
    assert forall|c: u8| nonzero_codes(counts).contains(c) == mask@.contains(c) by {
        if 1 <= c <= 64 {
            assert(counts[c - 1] == if mask@.contains(((c - 1) + 1) as u8) { count } else { 0u8 });
        }
    }
    assert(nonzero_codes(counts) =~= mask@);
}

/// The mask of some counts is empty exactly when every count is zero.
pub proof fn law_mask_empty(counts: Seq<u8>)
    requires
        counts.len() == 64,
    ensures
        (nonzero_codes(counts) == Set::<u8>::empty()) <==> (forall|i: int| 0 <= i < 64 ==> #[trigger] counts[i] == 0u8),
{
    if nonzero_codes(counts) == Set::<u8>::empty() {
        assert forall|i: int| 0 <= i < 64 implies #[trigger] counts[i] == 0u8 by {
            assert(!nonzero_codes(counts).contains((i + 1) as u8));
        }
    }
    if forall|i: int| 0 <= i < 64 ==> #[trigger] counts[i] == 0u8 {
        assert(nonzero_codes(counts) =~= Set::<u8>::empty());
    }
}

/// A mask that holds exactly the codes with a nonzero count has one member per nonzero slot:
/// its [`TileMask::len`], the number of its set bits, is the number of nonzero slots.
pub proof fn law_mask_size(counts: Seq<u8>, mask: TileMask)
    requires
        counts.len() == 64,
        forall|c: u8| #[trigger] mask@.contains(c) <==> (1 <= c <= 64 && counts[c - 1] != 0),
    ensures
        ones64(mask.spec_bits(), 64) == nonzero_count(counts, 64),
{
    assert forall|i: int| 0 <= i < 64 implies #[trigger] bit64(mask.spec_bits(), i as u64) == (counts[i] != 0) by {
        let c = (i + 1) as u8;
        assert(mask@.contains(c) == (1 <= c <= 64 && counts[c - 1] != 0));
    }
    lemma_ones_nonzero(counts, mask.spec_bits(), 64);
}

proof fn lemma_ones_nonzero(counts: Seq<u8>, bits: u64, n: nat)
    requires
        n <= 64,
        forall|i: int| 0 <= i < 64 ==> #[trigger] bit64(bits, i as u64) == (counts[i] != 0),
    ensures
        ones64(bits, n) == nonzero_count(counts, n),
    decreases n,
{
    if n > 0 {
        lemma_ones_nonzero(counts, bits, (n - 1) as nat);
        assert(bit64(bits, ((n - 1) as int) as u64) == (counts[n - 1] != 0));
    }
}

impl Default for TileCounts {
    /// Every slot zero.
    fn default() -> (r: TileCounts)
        ensures
            r@ == Seq::new(64, |i: int| 0u8),
    {
        TileCounts::empty()
    }
}

impl core::ops::Index<Tile> for TileCounts {
    type Output = u8;

    /// Borrows the count of `tile`.
    fn index(&self, tile: Tile) -> (r: &u8)
        ensures
            *r == self@[tile@ - 1],
    {
        &self.0[tile.index()]
    }
}

impl vstd::std_specs::core::IndexSpecImpl<Tile> for TileCounts {
    open spec fn index_req(&self, tile: &Tile) -> bool {
        true
    }
}

/// Slot-by-slot saturating sum of two count vectors.
pub open spec fn counts_sum(a: Seq<u8>, b: Seq<u8>) -> Seq<u8> {
    Seq::new(64, |i: int| sat_add(a[i] as int, b[i] as int))
}

impl core::ops::Add for TileCounts {
    type Output = TileCounts;

    /// Adds two count vectors slot by slot, saturating at 255 per slot.
    fn add(self, rhs: TileCounts) -> (r: TileCounts)
        ensures
            r@ == counts_sum(self@, rhs@),
    {
        let mut out = self;
        let mut index: usize = 0;
        while index < 64
            invariant
                index <= 64,
                out.0@.len() == 64,
                self.0@.len() == 64,
                rhs.0@.len() == 64,
                forall|i: int| 0 <= i < index ==> #[trigger] out.0@[i] == sat_add(self.0@[i] as int, rhs.0@[i] as int),
                forall|i: int| index <= i < 64 ==> #[trigger] out.0@[i] == self.0@[i],
            decreases 64 - index,
        {
            out.0[index] = out.0[index].saturating_add(rhs.0[index]);
            index += 1;
        }
        proof {
            assert(out.0@ =~= counts_sum(self.0@, rhs.0@));
            let chosen = choose|r: TileCounts| r.0@ == counts_sum(self.0@, rhs.0@);
            assert(chosen.0 == out.0);
        }
        out
    }
}

impl vstd::std_specs::ops::AddSpecImpl for TileCounts {
    open spec fn obeys_add_spec() -> bool {
        true
    }

    open spec fn add_req(self, rhs: TileCounts) -> bool {
        true
    }

    closed spec fn add_spec(self, rhs: TileCounts) -> TileCounts {
        choose|r: TileCounts| r.0@ == counts_sum(self.0@, rhs.0@)
    }
}

impl core::ops::AddAssign for TileCounts {
    /// Adds `rhs` slot by slot, saturating at 255 per slot.
    fn add_assign(&mut self, rhs: TileCounts)
        ensures
            final(self)@ == counts_sum(old(self)@, rhs@),
    {
        *self = *self + rhs;
    }
}

impl TileCounts {
    /// Every view has exactly 64 slots.
    pub proof fn lemma_len(self)
        ensures
            self@.len() == 64,
    {
    }

    /// All slots zero.
    pub fn empty() -> (r: TileCounts)
        ensures
            r@ == Seq::new(64, |i: int| 0u8),
    {
        let r = TileCounts([0u8; 64]);
        proof {
            assert(r@ =~= Seq::new(64, |i: int| 0u8));
        }
        r
    }

    /// Creates counts from a full array laid out by compact index; no slot is checked.
    pub fn from_array(counts: [u8; 64]) -> (r: TileCounts)
        ensures
            r@ == counts@,
    {
        TileCounts(counts)
    }

    /// Borrows the full array laid out by compact index, zero slots included.
    pub fn as_array(&self) -> (r: &[u8; 64])
        ensures
            r@ == self@,
    {
        &self.0
    }

    /// Returns the full array laid out by compact index, zero slots included.
    pub fn into_array(self) -> (r: [u8; 64])
        ensures
            r@ == self@,
    {
        self.0
    }

    /// The standard 108-tile set: four of each numbered face.
    pub fn standard_108() -> (r: TileCounts)
        ensures
            r@ == mask_counts(bit_codes(TileMask::NUMBERED_BITS), 4u8),
    {
        let mask = TileMask::numbered();
        proof {
            assert(mask@ =~= bit_codes(TileMask::NUMBERED_BITS));
        }
        let r = TileCounts::from_mask(mask, 4);
        proof {
            assert(r@ =~= mask_counts(bit_codes(TileMask::NUMBERED_BITS), 4u8));
        }
        r
    }

    /// The standard 136-tile set without flowers: four of each numbered face, wind and dragon.
    pub fn standard_136() -> (r: TileCounts)
        ensures
            r@ == mask_counts(bit_codes(TileMask::STANDARD_NO_FLOWER_BITS), 4u8),
    {
        let mask = TileMask::standard_no_flower();
        proof {
            assert(mask@ =~= bit_codes(TileMask::STANDARD_NO_FLOWER_BITS));
        }
        let r = TileCounts::from_mask(mask, 4);
        proof {
            assert(r@ =~= mask_counts(bit_codes(TileMask::STANDARD_NO_FLOWER_BITS), 4u8));
        }
        r
    }

    /// The eight standard flowers, one of each.
    pub fn standard_flower() -> (r: TileCounts)
        ensures
            r@ == mask_counts(bit_codes(TileMask::FLOWERS_BITS), 1u8),
    {
        let mask = TileMask::flowers();
        proof {
            assert(mask@ =~= bit_codes(TileMask::FLOWERS_BITS));
        }
        let r = TileCounts::from_mask(mask, 1);
        proof {
            assert(r@ =~= mask_counts(bit_codes(TileMask::FLOWERS_BITS), 1u8));
        }
        r
    }

    /// The standard 144-tile set: the 136 tiles and the eight flowers.
    pub fn standard_144() -> (r: TileCounts)
        ensures
            r@ == counts_sum(mask_counts(bit_codes(TileMask::STANDARD_NO_FLOWER_BITS), 4u8), mask_counts(bit_codes(TileMask::FLOWERS_BITS), 1u8)),
    {
        TileCounts::standard_136() + TileCounts::standard_flower()
    }

    /// Gives every tile of `mask` the count `count` and every other tile zero.
    pub fn from_mask(mask: TileMask, count: u8) -> (r: TileCounts)
        ensures
            r@.len() == 64,
            forall|i: int| 0 <= i < 64 ==> #[trigger] r@[i] == if mask@.contains((i + 1) as u8) {
                count
            } else {
                0u8
            },
    {
        let mut counts = [0u8; 64];
        let mut index: usize = 0;
        while index < 64
            invariant
                index <= 64,
                counts@.len() == 64,
                forall|i: int| 0 <= i < index ==> #[trigger] counts@[i] == if mask@.contains((i + 1) as u8) {
                    count
                } else {
                    0u8
                },
                forall|i: int| index <= i < 64 ==> #[trigger] counts@[i] == 0u8,
            decreases 64 - index,
        {
            if (mask.bits() >> (index as u64)) & 1u64 == 1u64 {
                counts[index] = count;
            }
            index += 1;
        }
        TileCounts(counts)
    }

    /// Adds, for each group `(mask, count)`, `count` to every tile of `mask`; groups that share a
    /// tile add up, saturating at 255 per slot.
    pub fn from_groups(groups: &[(TileMask, u8)]) -> (r: TileCounts)
        ensures
            r@.len() == 64,
            forall|i: int| 0 <= i < 64 ==> #[trigger] r@[i] == group_count(groups@, groups@.len() as int, (i + 1) as u8),
    {
        let mut counts = [0u8; 64];
        let mut group_index: usize = 0;
        while group_index < groups.len()
            invariant
                group_index <= groups@.len(),
                counts@.len() == 64,
                forall|i: int| 0 <= i < 64 ==> #[trigger] counts@[i] == group_count(groups@, group_index as int, (i + 1) as u8),
            decreases groups@.len() - group_index,
        {
            let (mask, count) = groups[group_index];
            let ghost before = counts@;
            let mut index: usize = 0;
            while index < 64
                invariant
                    index <= 64,
                    group_index < groups@.len(),
                    (mask, count) == groups@[group_index as int],
                    counts@.len() == 64,
                    forall|i: int| 0 <= i < index ==> #[trigger] counts@[i] == group_count(groups@, group_index + 1, (i + 1) as u8),
                    forall|i: int| index <= i < 64 ==> #[trigger] counts@[i] == before[i],
                    forall|i: int| 0 <= i < 64 ==> #[trigger] before[i] == group_count(groups@, group_index as int, (i + 1) as u8),
                decreases 64 - index,
            {
                if (mask.bits() >> (index as u64)) & 1u64 == 1u64 {
                    counts[index] = counts[index].saturating_add(count);
                }
                index += 1;
            }
            group_index += 1;
        }
        TileCounts(counts)
    }

    /// The count of `tile`.
    pub fn get(&self, tile: Tile) -> (r: u8)
        ensures
            r == self@[tile@ - 1],
    {
        self.0[tile.index()]
    }

    /// Sets the count of `tile` and returns the previous one; zero clears the slot.
    pub fn set(&mut self, tile: Tile, count: u8) -> (r: u8)
        ensures
            r == old(self)@[tile@ - 1],
            final(self)@ == old(self)@.update(tile@ - 1, count),
    {
        let idx = tile.index();
        let previous = self.0[idx];
        self.0[idx] = count;
        previous
    }

    /// The sum of all slots, at most `64 * 255 = 16320`.
    pub fn total(&self) -> (r: u16)
        ensures
            r == sum_counts(self@),
    {
        let mut total: u16 = 0;
        let mut index: usize = 0;
        while index < 64
            invariant
                index <= 64,
                self.0@.len() == 64,
                total == sum_counts(self.0@.take(index as int)),
                total <= index * 255,
            decreases 64 - index,
        {
            proof {
                assert(self.0@.take(index as int + 1).drop_last() =~= self.0@.take(index as int));
            }
            total = total + self.0[index] as u16;
            index += 1;
        }
        proof {
            assert(self.0@.take(64) =~= self.0@);
        }
        total
    }

    /// Whether every slot is zero.
    pub fn is_empty(&self) -> (r: bool)
        ensures
            r == (forall|i: int| 0 <= i < 64 ==> #[trigger] self@[i] == 0u8),
    {
        let mut index: usize = 0;
        while index < 64
            invariant
                index <= 64,
                forall|i: int| 0 <= i < index ==> #[trigger] self.0@[i] == 0u8,
            decreases 64 - index,
        {
            if self.0[index] != 0 {
                proof {
                    assert(self@[index as int] != 0u8);
                }
                return false;
            }
            index += 1;
        }
        true
    }

    /// Whether `tile` has at least one copy.
    pub fn contains(&self, tile: Tile) -> (r: bool)
        ensures
            r == (self@[tile@ - 1] != 0),
    {
        self.get(tile) != 0
    }

    /// The set of tiles whose count is not zero.
    pub fn mask(&self) -> (r: TileMask)
        ensures
            forall|c: u8| #[trigger] r@.contains(c) <==> (1 <= c <= 64 && self@[c - 1] != 0),
            r@ == nonzero_codes(self@),
            ones64(r.spec_bits(), 64) == nonzero_count(self@, 64),
    {
        let mut bits: u64 = 0;
        let mut index: u64 = 0;
        proof {
            assert forall|j: u64| j < 64 implies !bit64(0u64, j) by {
                lemma_bit64_zero(j);
            }
        }
        while index < 64
            invariant
                index <= 64,
                self.0@.len() == 64,
                forall|j: u64| j < 64 ==> #[trigger] bit64(bits, j) == (j < index && self.0@[j as int] != 0),
            decreases 64 - index,
        {
            if self.0[index as usize] != 0 {
                let ghost old_bits = bits;
                bits = bits | (1u64 << index);
                proof {
                    assert forall|j: u64| j < 64 implies #[trigger] bit64(bits, j) == (j < index + 1 && self.0@[j as int] != 0) by {
                        lemma_bit64_or(old_bits, 1u64 << index, j);
                        lemma_bit64_single(index, j);
                    }
                }
            }
            index += 1;
        }
        let r = TileMask::from_bits(bits);
        proof {
            assert forall|c: u8| #[trigger] r@.contains(c) <==> (1 <= c <= 64 && self@[c - 1] != 0) by {
                if 1 <= c <= 64 {
                    assert(bit64(bits, (c - 1) as u64) == (self.0@[c - 1] != 0));
                }
            }
            law_mask_size(self@, r);
        }
        r
    }

    /// The tiles with a non-zero count and their counts, in ascending code order.
    pub fn iter(&self) -> (r: Vec<(Tile, u8)>)
        ensures
            forall|i: int| 0 <= i < r@.len() ==> #[trigger] r@[i].1 == self@[r@[i].0@ - 1] && r@[i].1 != 0,
            forall|i: int, j: int| 0 <= i < j < r@.len() ==> r@[i].0@ < r@[j].0@,
            forall|c: u8| 1 <= c <= 64 && #[trigger] self@[c - 1] != 0 ==> exists|i: int| 0 <= i < r@.len() && #[trigger] r@[i].0@ == c,
    {
        let mut out: Vec<(Tile, u8)> = Vec::new();
        let mut index: usize = 0;
        while index < 64
            invariant
                index <= 64,
                self.0@.len() == 64,
                forall|i: int| 0 <= i < out@.len() ==> #[trigger] out@[i].1 == self@[out@[i].0@ - 1] && out@[i].1 != 0,
                forall|i: int| 0 <= i < out@.len() ==> 1 <= #[trigger] out@[i].0@ <= index,
                forall|i: int, j: int| 0 <= i < j < out@.len() ==> out@[i].0@ < out@[j].0@,
                forall|c: u8| 1 <= c <= index && #[trigger] self@[c - 1] != 0 ==> exists|i: int| 0 <= i < out@.len() && #[trigger] out@[i].0@ == c,
            decreases 64 - index,
        {
            let count = self.0[index];
            if count != 0 {
                let tile = Tile::from_index(index).unwrap();
                let ghost prev = out@;
                out.push((tile, count));
                proof {
                    assert forall|i: int| 0 <= i < prev.len() implies out@[i] == prev[i] by {}
                    assert forall|c: u8| 1 <= c <= index + 1 && #[trigger] self@[c - 1] != 0 implies exists|i: int| 0 <= i < out@.len() && #[trigger] out@[i].0@ == c by {
                        if c == index + 1 {
                            assert(out@[prev.len() as int].0@ == c);
                        } else {
                            let i = choose|i: int| 0 <= i < prev.len() && #[trigger] prev[i].0@ == c;
                            assert(out@[i].0@ == c);
                        }
                    }
                }
            }
            index += 1;
        }
        out
    }

    /// Adds `count` to the slot of `tile`, saturating at 255.
    pub fn saturating_add_tile(&mut self, tile: Tile, count: u8)
        ensures
            final(self)@ == old(self)@.update(tile@ - 1, sat_add(old(self)@[tile@ - 1] as int, count as int)),
    {
        let index = tile.index();
        self.0[index] = self.0[index].saturating_add(count);
    }

    /// Removes `count` copies of `tile` when there are enough and returns `true`; otherwise
    /// returns `false` and changes nothing. Removing zero copies always succeeds.
    pub fn checked_remove(&mut self, tile: Tile, count: u8) -> (r: bool)
        ensures
            r == (old(self)@[tile@ - 1] >= count),
            r ==> final(self)@ == old(self)@.update(tile@ - 1, (old(self)@[tile@ - 1] - count) as u8),
            !r ==> final(self)@ == old(self)@,
    {
        let index = tile.index();
        match self.0[index].checked_sub(count) {
            Some(remaining) => {
                self.0[index] = remaining;
                true
            },
            None => false,
        }
    }

    /// Subtracts `rhs` slot by slot; `None` when any slot of `rhs` exceeds the one of `self`.
    pub fn checked_sub(self, rhs: TileCounts) -> (r: Option<TileCounts>)
        ensures
            r is Some <==> (forall|i: int| 0 <= i < 64 ==> #[trigger] self@[i] >= rhs@[i]),
            r matches Some(d) ==> d@.len() == 64 && forall|i: int| 0 <= i < 64 ==> #[trigger] d@[i] == self@[i] - rhs@[i],
    {
        let mut out = self;
        let mut index: usize = 0;
        while index < 64
            invariant
                index <= 64,
                out.0@.len() == 64,
                self.0@.len() == 64,
                rhs.0@.len() == 64,
                forall|i: int| 0 <= i < index ==> #[trigger] self.0@[i] >= rhs.0@[i],
                forall|i: int| 0 <= i < index ==> #[trigger] out.0@[i] == self.0@[i] - rhs.0@[i],
                forall|i: int| index <= i < 64 ==> #[trigger] out.0@[i] == self.0@[i],
            decreases 64 - index,
        {
            match out.0[index].checked_sub(rhs.0[index]) {
                Some(remaining) => {
                    out.0[index] = remaining;
                },
                None => {
                    proof {
                        assert(!(self@[index as int] >= rhs@[index as int]));
                    }
                    return None;
                },
            }
            index += 1;
        }
        Some(out)
    }

    /// Counts the tiles of a slice, one per occurrence, saturating at 255 per slot.
    pub fn from_tiles(tiles: &[Tile]) -> (r: TileCounts)
        ensures
            r@.len() == 64,
            forall|i: int| 0 <= i < 64 ==> #[trigger] r@[i] == sat_add(count_code(tiles@, (i + 1) as u8) as int, 0),
    {
        let mut counts = TileCounts::empty();
        let mut k: usize = 0;
        while k < tiles.len()
            invariant
                k <= tiles@.len(),
                counts@.len() == 64,
                forall|i: int| 0 <= i < 64 ==> #[trigger] counts@[i] == sat_add(count_code(tiles@.take(k as int), (i + 1) as u8) as int, 0),
            decreases tiles@.len() - k,
        {
            let tile = tiles[k];
            let ghost before = counts@;
            let idx = tile.index();
            counts.0[idx] = counts.0[idx].saturating_add(1);
            proof {
                assert(tiles@.take(k as int + 1) =~= tiles@.take(k as int).push(tile));
                assert forall|i: int| 0 <= i < 64 implies #[trigger] counts@[i] == sat_add(count_code(tiles@.take(k as int + 1), (i + 1) as u8) as int, 0) by {
                    lemma_count_code_push(tiles@.take(k as int), tile, (i + 1) as u8);
                    assert(before[i] == sat_add(count_code(tiles@.take(k as int), (i + 1) as u8) as int, 0));
                    if i == tile@ - 1 {
                        assert((i + 1) as u8 == tile@);
                    } else {
                        assert((i + 1) as u8 != tile@);
                        assert(counts@[i] == before[i]);
                    }
                }
            }
            k += 1;
        }
        proof {
            assert(tiles@.take(tiles@.len() as int) =~= tiles@);
        }
        counts
    }
}

} // verus!

