//! A set of the four seats in the low four bits of a byte; it implies no turn order.

use vstd::prelude::*;

use super::Seat;
use crate::bits::{
    bit8, lemma_bit8_and, lemma_bit8_and_not, lemma_bit8_not, lemma_bit8_or, lemma_bit8_single,
    lemma_bit8_xor, lemma_nibble_bits, lemma_nibble_closed, ones8,
};

verus! {

/// The codes of the seats of a slice.
pub open spec fn seat_code_set(seats: Seq<Seat>) -> Set<u8> {
    Set::new(|c: u8| exists|i: int| 0 <= i < seats.len() && #[trigger] seats[i]@ == c)
}

/// The number of seat codes `1..=4` in a set of codes.
pub open spec fn seat_count(codes: Set<u8>) -> nat {
    (if codes.contains(1u8) { 1nat } else { 0nat }) + (if codes.contains(2u8) { 1nat } else { 0nat }) + (if codes.contains(
        3u8,
    ) { 1nat } else { 0nat }) + (if codes.contains(4u8) { 1nat } else { 0nat })
}

/// A set of the four seats. Bit `n` stands for the seat with index `n`; only the low four bits
/// are ever set. The default value is the empty set.
#[derive(Clone, Copy, Debug, PartialEq, Eq, Structural, Hash)]
pub struct SeatMask(u8);

impl View for SeatMask {
    type V = Set<u8>;

    /// The codes of the seats in the set.
    open spec fn view(&self) -> Set<u8> {
        Set::new(|c: u8| 1 <= c <= 4 && bit8(self.spec_bits(), (c - 1) as u8))
    }
}

impl Default for SeatMask {
    /// The empty set.
    fn default() -> (r: SeatMask)
        ensures
            r@ == Set::<u8>::empty(),
    {
        SeatMask::empty()
    }
}

/// The complement within the four seats, on the low nibble: it stays in the nibble, taking it
/// twice gives the bits back, and a set and its complement are disjoint and cover all four seats.
pub proof fn law_seat_complement(bits: u8)
    requires
        bits < 16,
    ensures
        (!bits & 15u8) < 16,
        (!(!bits & 15u8) & 15u8) == bits,
        ((!bits & 15u8) | bits) == 15u8,
        ((!bits & 15u8) & bits) == 0u8,
{
    assert((!bits & 15u8) < 16) by (bit_vector);
    assert(bits < 16 ==> (!(!bits & 15u8) & 15u8) == bits) by (bit_vector);
    assert(bits < 16 ==> ((!bits & 15u8) | bits) == 15u8) by (bit_vector);
    assert(((!bits & 15u8) & bits) == 0u8) by (bit_vector);
}

/// On seat sets: complementing twice gives the set back, and a set and its complement are
/// disjoint and together hold all four seats.
pub proof fn law_seat_set_complement(mask: SeatMask)
    ensures
        set![1u8, 2u8, 3u8, 4u8].difference(set![1u8, 2u8, 3u8, 4u8].difference(mask@)) == mask@,
        set![1u8, 2u8, 3u8, 4u8].difference(mask@).union(mask@) == set![1u8, 2u8, 3u8, 4u8],
        set![1u8, 2u8, 3u8, 4u8].difference(mask@).disjoint(mask@),
{
    let full = set![1u8, 2u8, 3u8, 4u8];
    assert(full.difference(full.difference(mask@)) =~= mask@);
    assert(full.difference(mask@).union(mask@) =~= full);
}

impl From<Seat> for SeatMask {
    /// The set holding only `seat`.
    fn from(seat: Seat) -> (r: SeatMask)
        ensures
            r@ == set![seat@],
    {
        let idx = seat.index() as u8;
        proof {
            assert(idx < 4 ==> (1u8 << idx) < 16) by (bit_vector);
        }
        let r = SeatMask(1u8 << idx);
        proof {
            assert forall|c: u8| r@.contains(c) == (c == seat@) by {
                if 1 <= c <= 4 {
                    lemma_bit8_single(idx, (c - 1) as u8);
                }
            }
            assert(r@ =~= set![seat@]);
        }
        r
    }
}

impl vstd::std_specs::convert::FromSpecImpl<Seat> for SeatMask {
    open spec fn obeys_from_spec() -> bool {
        true
    }

    closed spec fn from_spec(seat: Seat) -> SeatMask {
        SeatMask(1u8 << ((seat@ - 1) as u8))
    }
}

impl core::ops::BitOr for SeatMask {
    type Output = SeatMask;

    /// The union of the two sets.
    fn bitor(self, rhs: SeatMask) -> (r: SeatMask)
        ensures
            r@ == self@.union(rhs@),
    {
        proof {
            use_type_invariant(self);
            use_type_invariant(rhs);
            lemma_nibble_closed(self.0, rhs.0);
        }
        let r = SeatMask(self.0 | rhs.0);
        proof {
            assert forall|c: u8| r@.contains(c) == self@.union(rhs@).contains(c) by {
                if 1 <= c <= 4 {
                    lemma_bit8_or(self.0, rhs.0, (c - 1) as u8);
                }
            }
            assert(r@ =~= self@.union(rhs@));
        }
        r
    }
}

impl vstd::std_specs::ops::BitOrSpecImpl for SeatMask {
    open spec fn obeys_bitor_spec() -> bool {
        true
    }

    open spec fn bitor_req(self, rhs: SeatMask) -> bool {
        true
    }

    closed spec fn bitor_spec(self, rhs: SeatMask) -> SeatMask {
        SeatMask(self.0 | rhs.0)
    }
}

impl core::ops::BitOrAssign for SeatMask {
    /// Replaces the set with `self | rhs`.
    fn bitor_assign(&mut self, rhs: SeatMask)
        ensures
            final(self)@ == old(self)@.union(rhs@),
    {
        *self = *self | rhs;
    }
}

impl core::ops::BitAnd for SeatMask {
    type Output = SeatMask;

    /// The intersection of the two sets.
    fn bitand(self, rhs: SeatMask) -> (r: SeatMask)
        ensures
            r@ == self@.intersect(rhs@),
    {
        proof {
            use_type_invariant(self);
            use_type_invariant(rhs);
            lemma_nibble_closed(self.0, rhs.0);
        }
        let r = SeatMask(self.0 & rhs.0);
        proof {
            assert forall|c: u8| r@.contains(c) == self@.intersect(rhs@).contains(c) by {
                if 1 <= c <= 4 {
                    lemma_bit8_and(self.0, rhs.0, (c - 1) as u8);
                }
            }
            assert(r@ =~= self@.intersect(rhs@));
        }
        r
    }
}

impl vstd::std_specs::ops::BitAndSpecImpl for SeatMask {
    open spec fn obeys_bitand_spec() -> bool {
        true
    }

    open spec fn bitand_req(self, rhs: SeatMask) -> bool {
        true
    }

    closed spec fn bitand_spec(self, rhs: SeatMask) -> SeatMask {
        SeatMask(self.0 & rhs.0)
    }
}

impl core::ops::BitAndAssign for SeatMask {
    /// Replaces the set with `self & rhs`.
    fn bitand_assign(&mut self, rhs: SeatMask)
        ensures
            final(self)@ == old(self)@.intersect(rhs@),
    {
        *self = *self & rhs;
    }
}

impl core::ops::Sub for SeatMask {
    type Output = SeatMask;

    /// The seats of `self` that are not in `other`.
    fn sub(self, rhs: SeatMask) -> (r: SeatMask)
        ensures
            r@ == self@.difference(rhs@),
    {
        proof {
            use_type_invariant(self);
            use_type_invariant(rhs);
            lemma_nibble_closed(self.0, rhs.0);
        }
        let r = SeatMask(self.0 & !rhs.0);
        proof {
            assert forall|c: u8| r@.contains(c) == self@.difference(rhs@).contains(c) by {
                if 1 <= c <= 4 {
                    lemma_bit8_and_not(self.0, rhs.0, (c - 1) as u8);
                }
            }
            assert(r@ =~= self@.difference(rhs@));
        }
        r
    }
}

impl vstd::std_specs::ops::SubSpecImpl for SeatMask {
    open spec fn obeys_sub_spec() -> bool {
        true
    }

    open spec fn sub_req(self, rhs: SeatMask) -> bool {
        true
    }

    closed spec fn sub_spec(self, rhs: SeatMask) -> SeatMask {
        SeatMask(self.0 & ! rhs.0)
    }
}

impl core::ops::SubAssign for SeatMask {
    /// Replaces the set with `self - rhs`.
    fn sub_assign(&mut self, rhs: SeatMask)
        ensures
            final(self)@ == old(self)@.difference(rhs@),
    {
        *self = core::ops::Sub::sub(*self, rhs);
    }
}

impl core::ops::BitXor for SeatMask {
    type Output = SeatMask;

    /// The seats that are in exactly one of the two sets.
    fn bitxor(self, rhs: SeatMask) -> (r: SeatMask)
        ensures
            r@ == self@.difference(rhs@).union(rhs@.difference(self@)),
    {
        proof {
            use_type_invariant(self);
            use_type_invariant(rhs);
            lemma_nibble_closed(self.0, rhs.0);
        }
        let r = SeatMask(self.0 ^ rhs.0);
        proof {
            assert forall|c: u8| r@.contains(c) == self@.difference(rhs@).union(rhs@.difference(self@)).contains(c) by {
                if 1 <= c <= 4 {
                    lemma_bit8_xor(self.0, rhs.0, (c - 1) as u8);
                }
            }
            assert(r@ =~= self@.difference(rhs@).union(rhs@.difference(self@)));
        }
        r
    }
}

impl vstd::std_specs::ops::BitXorSpecImpl for SeatMask {
    open spec fn obeys_bitxor_spec() -> bool {
        true
    }

    open spec fn bitxor_req(self, rhs: SeatMask) -> bool {
        true
    }

    closed spec fn bitxor_spec(self, rhs: SeatMask) -> SeatMask {
        SeatMask(self.0 ^ rhs.0)
    }
}

impl core::ops::BitXorAssign for SeatMask {
    /// Replaces the set with `self ^ rhs`.
    fn bitxor_assign(&mut self, rhs: SeatMask)
        ensures
            final(self)@ == old(self)@.difference(rhs@).union(rhs@.difference(old(self)@)),
    {
        *self = *self ^ rhs;
    }
}

impl core::ops::Not for SeatMask {
    type Output = SeatMask;

    /// The seats of the ring that are not in the set; the high bits stay clear.
    fn not(self) -> (r: SeatMask)
        ensures
            r@ == set![1u8, 2u8, 3u8, 4u8].difference(self@),
            r.spec_bits() == !self.spec_bits() & 15u8,
    {
        proof {
            use_type_invariant(self);
            lemma_nibble_closed(self.0, 0);
        }
        let r = SeatMask(!self.0 & 15u8);
        proof {
            assert forall|c: u8| r@.contains(c) == set![1u8, 2u8, 3u8, 4u8].difference(self@).contains(c) by {
                if 1 <= c <= 4 {
                    lemma_bit8_and(!self.0, 15u8, (c - 1) as u8);
                    lemma_bit8_not(self.0, (c - 1) as u8);
                    crate::bits::lemma_bit8_low_nibble_full((c - 1) as u8);
                }
            }
            assert(r@ =~= set![1u8, 2u8, 3u8, 4u8].difference(self@));
        }
        r
    }
}

impl vstd::std_specs::ops::NotSpecImpl for SeatMask {
    open spec fn obeys_not_spec() -> bool {
        true
    }

    open spec fn not_req(self) -> bool {
        true
    }

    closed spec fn not_spec(self) -> SeatMask {
        SeatMask(!self.0 & 15u8)
    }
}

impl SeatMask {
    #[verifier::type_invariant]
    spec fn low_nibble(self) -> bool {
        self.0 < 16
    }

    /// The underlying byte, as a spec value.
    pub closed spec fn spec_bits(self) -> u8 {
        self.0
    }

    /// The empty set.
    pub fn empty() -> (r: SeatMask)
        ensures
            r@ == Set::<u8>::empty(),
            r.spec_bits() == 0,
    {
        let r = SeatMask(0);
        proof {
            assert forall|c: u8| !r@.contains(c) by {
                if 1 <= c <= 4 {
                    lemma_nibble_bits(0u8, (c - 1) as u8);
                    assert(!bit8(0u8, (c - 1) as u8)) by (bit_vector)
                        requires
                            c - 1 < 8,
                    ;
                }
            }
            assert(r@ =~= Set::<u8>::empty());
        }
        r
    }

    /// The set of all four seats.
    pub fn all() -> (r: SeatMask)
        ensures
            r@ == set![1u8, 2u8, 3u8, 4u8],
            r.spec_bits() == 15,
    {
        let r = SeatMask(15);
        proof {
            assert forall|c: u8| r@.contains(c) == (1 <= c <= 4) by {
                if 1 <= c <= 4 {
                    lemma_nibble_bits(15u8, (c - 1) as u8);
                    assert(bit8(15u8 & 15u8, (c - 1) as u8) == bit8(15u8, (c - 1) as u8));
                    crate::bits::lemma_bit8_low_nibble_full((c - 1) as u8);
                }
            }
            assert(r@ =~= set![1u8, 2u8, 3u8, 4u8]);
        }
        r
    }

    /// The set with raw `bits`; `None` when any of the high four bits is set.
    pub fn from_bits(bits: u8) -> (r: Option<SeatMask>)
        ensures
            r is Some <==> bits < 16,
            r matches Some(m) ==> m.spec_bits() == bits,
    {
        proof {
            lemma_nibble_bits(bits, 0);
        }
        if bits & !15u8 != 0 {
            None
        } else {
            Some(SeatMask(bits))
        }
    }

    /// The set with the low four bits of `bits`; the high bits are dropped.
    pub fn from_bits_truncate(bits: u8) -> (r: SeatMask)
        ensures
            r.spec_bits() == bits & 15u8,
            forall|c: u8| 1 <= c <= 4 ==> (r@.contains(c) <==> bit8(bits, (c - 1) as u8)),
    {
        proof {
            lemma_nibble_bits(bits, 0);
            assert forall|c: u8| 1 <= c <= 4 implies (SeatMask(bits & 15u8)@.contains(c) <==> bit8(bits, (c - 1) as u8)) by {
                lemma_nibble_bits(bits, (c - 1) as u8);
            }
        }
        SeatMask(bits & 15u8)
    }

    /// The underlying byte; only the low four bits can be set.
    pub fn bits(self) -> (r: u8)
        ensures
            r == self.spec_bits(),
            r < 16,
    {
        proof {
            use_type_invariant(self);
        }
        self.0
    }

    /// The set that holds only `seat`.
    pub fn from_seat(seat: Seat) -> (r: SeatMask)
        ensures
            r@ == set![seat@],
    {
        SeatMask::from(seat)
    }

    /// The set of the seats in a slice; repeated seats count once.
    pub fn from_seats(seats: &[Seat]) -> (r: SeatMask)
        ensures
            r@ == seat_code_set(seats@),
    {
        let mut mask = SeatMask::empty();
        let mut index: usize = 0;
        while index < seats.len()
            invariant
                index <= seats@.len(),
                mask@ == seat_code_set(seats@.take(index as int)),
            decreases seats@.len() - index,
        {
            let ghost before = mask@;
            mask.insert(seats[index]);
            proof {
                let next = seats@.take(index as int + 1);
                let prev = seats@.take(index as int);
                assert forall|c: u8| seat_code_set(next).contains(c) == before.insert(seats@[index as int]@).contains(c) by {
                    if seat_code_set(next).contains(c) {
                        let i = choose|i: int| 0 <= i < next.len() && #[trigger] next[i]@ == c;
                        if i < index {
                            assert(prev[i]@ == c);
                        }
                    }
                    if before.contains(c) {
                        let i = choose|i: int| 0 <= i < prev.len() && #[trigger] prev[i]@ == c;
                        assert(next[i]@ == c);
                    }
                    if c == seats@[index as int]@ {
                        assert(next[index as int]@ == c);
                    }
                }
                assert(seat_code_set(next) =~= before.insert(seats@[index as int]@));
            }
            index += 1;
        }
        proof {
            assert(seats@.take(seats@.len() as int) =~= seats@);
        }
        mask
    }

    /// Whether the set holds `seat`.
    pub fn contains(self, seat: Seat) -> (r: bool)
        ensures
            r == self@.contains(seat@),
    {
        let idx = seat.index() as u8;
        (self.0 >> idx) & 1u8 == 1u8
    }

    /// Number of seats in the set, in `0..=4`.
    pub fn len(self) -> (r: usize)
        ensures
            r == ones8(self.spec_bits(), 4),
            r == seat_count(self@),
            r <= 4,
    {
        proof {
            reveal_with_fuel(ones8, 5);
            assert(self@.contains(1u8) == bit8(self.0, 0u8));
            assert(self@.contains(2u8) == bit8(self.0, 1u8));
            assert(self@.contains(3u8) == bit8(self.0, 2u8));
            assert(self@.contains(4u8) == bit8(self.0, 3u8));
        }
        let mut count: usize = 0;
        let mut i: u8 = 0;
        while i < 4
            invariant
                i <= 4,
                count == ones8(self.0, i as nat),
                count <= i,
            decreases 4 - i,
        {
            if (self.0 >> i) & 1u8 == 1u8 {
                count += 1;
            }
            i += 1;
        }
        count
    }

    /// Whether the set holds no seat.
    pub fn is_empty(self) -> (r: bool)
        ensures
            r == (self@ == Set::<u8>::empty()),
    {
        proof {
            use_type_invariant(self);
        }
        let r = self.0 == 0;
        proof {
            if r {
                assert forall|c: u8| !self@.contains(c) by {
                    if 1 <= c <= 4 {
                        assert(c - 1 < 8 ==> !bit8(0u8, (c - 1) as u8)) by (bit_vector);
                    }
                }
                assert(self@ =~= Set::<u8>::empty());
            } else {
                if self@ =~= Set::<u8>::empty() {
                    assert forall|i: u8| i < 8 implies bit8(self.0, i) == bit8(0u8, i) by {
                        lemma_nibble_bits(self.0, i);
                        lemma_nibble_bits(0u8, i);
                        if i < 4 {
                            assert(!self@.contains((i + 1) as u8));
                            assert(!bit8(0u8, i)) by (bit_vector);
                        }
                    }
                    crate::bits::lemma_bit8_ext(self.0, 0u8);
                }
            }
        }
        r
    }

    /// Whether every seat of `self` is in `other`.
    pub fn is_subset(self, other: SeatMask) -> (r: bool)
        ensures
            r == self@.subset_of(other@),
    {
        let d = self.difference(other);
        let r = d.is_empty();
        proof {
            if r {
                assert forall|c: u8| self@.contains(c) implies other@.contains(c) by {
                    if !other@.contains(c) {
                        assert(d@.contains(c));
                    }
                }
            } else {
                if forall|c: u8| !d@.contains(c) {
                    assert(d@ =~= Set::<u8>::empty());
                }
            }
        }
        r
    }

    /// Whether the two sets share no seat.
    pub fn is_disjoint(self, other: SeatMask) -> (r: bool)
        ensures
            r == self@.disjoint(other@),
    {
        let d = self.intersection(other);
        let r = d.is_empty();
        proof {
            if !r {
                if forall|c: u8| !d@.contains(c) {
                    assert(d@ =~= Set::<u8>::empty());
                }
                let c = choose|c: u8| d@.contains(c);
                assert(self@.contains(c) && other@.contains(c));
            } else {
                assert forall|c: u8| !(self@.contains(c) && other@.contains(c)) by {
                    if self@.contains(c) && other@.contains(c) {
                        assert(d@.contains(c));
                    }
                }
            }
        }
        r
    }

    /// The union of the two sets.
    pub fn union(self, other: SeatMask) -> (r: SeatMask)
        ensures
            r@ == self@.union(other@),
    {
        self | other
    }

    /// The intersection of the two sets.
    pub fn intersection(self, other: SeatMask) -> (r: SeatMask)
        ensures
            r@ == self@.intersect(other@),
    {
        self & other
    }

    /// The seats of `self` that are not in `other`.
    pub fn difference(self, other: SeatMask) -> (r: SeatMask)
        ensures
            r@ == self@.difference(other@),
    {
        core::ops::Sub::sub(self, other)
    }

    /// The seats that are in exactly one of the two sets.
    pub fn symmetric_difference(self, other: SeatMask) -> (r: SeatMask)
        ensures
            r@ == self@.difference(other@).union(other@.difference(self@)),
    {
        self ^ other
    }

    /// The seats of the ring that are not in the set; the high bits stay clear.
    pub fn complement(self) -> (r: SeatMask)
        ensures
            r@ == set![1u8, 2u8, 3u8, 4u8].difference(self@),
            r.spec_bits() == !self.spec_bits() & 15u8,
    {
        core::ops::Not::not(self)
    }

    /// Adds `seat`; returns `true` when it was not in the set before.
    pub fn insert(&mut self, seat: Seat) -> (r: bool)
        ensures
            r == !old(self)@.contains(seat@),
            final(self)@ == old(self)@.insert(seat@),
    {
        let inserted = !self.contains(seat);
        *self = self.union(SeatMask::from_seat(seat));
        inserted
    }

    /// Removes `seat`; returns `true` when it was in the set before.
    pub fn remove(&mut self, seat: Seat) -> (r: bool)
        ensures
            r == old(self)@.contains(seat@),
            final(self)@ == old(self)@.remove(seat@),
    {
        let removed = self.contains(seat);
        *self = self.difference(SeatMask::from_seat(seat));
        proof {
            assert(old(self)@.difference(set![seat@]) =~= old(self)@.remove(seat@));
        }
        removed
    }

    /// Removes every seat.
    pub fn clear(&mut self)
        ensures
            final(self)@ == Set::<u8>::empty(),
    {
        *self = SeatMask::empty();
    }

    /// The members in ascending code order, each once; the order is not a turn order.
    pub fn iter(self) -> (r: Vec<Seat>)
        ensures
            forall|i: int| 0 <= i < r@.len() ==> self@.contains(#[trigger] r@[i]@),
            forall|i: int, j: int| 0 <= i < j < r@.len() ==> r@[i]@ < r@[j]@,
            forall|c: u8| self@.contains(c) ==> exists|i: int| 0 <= i < r@.len() && #[trigger] r@[i]@ == c,
    {
        let mut out: Vec<Seat> = Vec::new();
        let mut index: usize = 0;
        while index < 4
            invariant
                index <= 4,
                forall|i: int| 0 <= i < out@.len() ==> self@.contains(#[trigger] out@[i]@),
                forall|i: int| 0 <= i < out@.len() ==> #[trigger] out@[i]@ <= index,
                forall|i: int, j: int| 0 <= i < j < out@.len() ==> out@[i]@ < out@[j]@,
                forall|c: u8| self@.contains(c) && c <= index ==> exists|i: int| 0 <= i < out@.len() && #[trigger] out@[i]@ == c,
            decreases 4 - index,
        {
            let seat = Seat::from_index(index).unwrap();
            if self.contains(seat) {
                let ghost prev = out@;
                out.push(seat);
                proof {
                    assert forall|i: int| 0 <= i < prev.len() implies out@[i] == prev[i] by {}
                    assert forall|c: u8| self@.contains(c) && c <= index + 1 implies exists|i: int| 0 <= i < out@.len() && #[trigger] out@[i]@ == c by {
                        if c == index + 1 {
                            assert(out@[prev.len() as int]@ == c);
                        } else {
                            let i = choose|i: int| 0 <= i < prev.len() && #[trigger] prev[i]@ == c;
                            assert(out@[i]@ == c);
                        }
                    }
                }
            }
            index += 1;
        }
        out
    }
}

} // verus!

