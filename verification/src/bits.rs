//! Bit-level facts shared by the tile and seat sets.

use vstd::prelude::*;

verus! {

/// Whether bit `i` of a 64-bit word is set.
pub open spec fn bit64(bits: u64, i: u64) -> bool {
    (bits >> i) & 1u64 == 1u64
}

/// Whether bit `i` of an 8-bit word is set.
pub open spec fn bit8(bits: u8, i: u8) -> bool {
    (bits >> i) & 1u8 == 1u8
}

/// Number of set bits among the lowest `n` bits of a 64-bit word.
pub open spec fn ones64(bits: u64, n: nat) -> nat
    decreases n,
{
    if n == 0 {
        0
    } else {
        ones64(bits, (n - 1) as nat) + if bit64(bits, (n - 1) as u64) { 1nat } else { 0nat }
    }
}

/// Number of set bits among the lowest `n` bits of an 8-bit word.
pub open spec fn ones8(bits: u8, n: nat) -> nat
    decreases n,
{
    if n == 0 {
        0
    } else {
        ones8(bits, (n - 1) as nat) + if bit8(bits, (n - 1) as u8) { 1nat } else { 0nat }
    }
}

pub proof fn lemma_bit64_or(a: u64, b: u64, i: u64)
    requires
        i < 64,
    ensures
        bit64(a | b, i) == (bit64(a, i) || bit64(b, i)),
{
    assert(((a | b) >> i) & 1u64 == 1u64 <==> ((a >> i) & 1u64 == 1u64 || (b >> i) & 1u64 == 1u64))
        by (bit_vector)
        requires
            i < 64,
    ;
}

pub proof fn lemma_bit64_and(a: u64, b: u64, i: u64)
    requires
        i < 64,
    ensures
        bit64(a & b, i) == (bit64(a, i) && bit64(b, i)),
{
    assert(((a & b) >> i) & 1u64 == 1u64 <==> ((a >> i) & 1u64 == 1u64 && (b >> i) & 1u64 == 1u64))
        by (bit_vector)
        requires
            i < 64,
    ;
}

pub proof fn lemma_bit64_xor(a: u64, b: u64, i: u64)
    requires
        i < 64,
    ensures
        bit64(a ^ b, i) == (bit64(a, i) != bit64(b, i)),
{
    assert(((a ^ b) >> i) & 1u64 == 1u64 <==> ((a >> i) & 1u64 == 1u64) != ((b >> i) & 1u64
        == 1u64)) by (bit_vector)
        requires
            i < 64,
    ;
}

pub proof fn lemma_bit64_not(a: u64, i: u64)
    requires
        i < 64,
    ensures
        bit64(!a, i) == !bit64(a, i),
{
    assert(((!a) >> i) & 1u64 == 1u64 <==> !((a >> i) & 1u64 == 1u64)) by (bit_vector)
        requires
            i < 64,
    ;
}

pub proof fn lemma_bit64_and_not(a: u64, b: u64, i: u64)
    requires
        i < 64,
    ensures
        bit64(a & !b, i) == (bit64(a, i) && !bit64(b, i)),
{
    assert(((a & !b) >> i) & 1u64 == 1u64 <==> ((a >> i) & 1u64 == 1u64 && !((b >> i) & 1u64
        == 1u64))) by (bit_vector)
        requires
            i < 64,
    ;
}

pub proof fn lemma_bit64_single(j: u64, i: u64)
    requires
        i < 64,
        j < 64,
    ensures
        bit64(1u64 << j, i) == (i == j),
{
    assert(((1u64 << j) >> i) & 1u64 == 1u64 <==> i == j) by (bit_vector)
        requires
            i < 64,
            j < 64,
    ;
}

pub proof fn lemma_bit64_zero(i: u64)
    ensures
        !bit64(0u64, i),
{
    assert((0u64 >> i) & 1u64 != 1u64) by (bit_vector);
}

/// A word with no set bit below 64 is zero.
pub proof fn lemma_bit64_nonzero(a: u64)
    requires
        a != 0,
    ensures
        exists|i: u64| i < 64 && bit64(a, i),
{
    assert(a != 0 ==> a >> 0u64 != 0) by (bit_vector);
    lemma_bit64_nonzero_from(a, 0);
}

proof fn lemma_bit64_nonzero_from(a: u64, n: u64)
    requires
        n < 64,
        a >> n != 0,
    ensures
        exists|i: u64| n <= i < 64 && bit64(a, i),
    decreases 64 - n,
{
    if bit64(a, n) {
    } else if n == 63 {
        assert(a >> n != 0 && n == 63 ==> (a >> n) & 1u64 == 1u64) by (bit_vector);
    } else {
        assert(a >> n != 0 && (a >> n) & 1u64 != 1u64 && n < 63 ==> a >> ((n + 1) as u64) != 0)
            by (bit_vector);
        lemma_bit64_nonzero_from(a, (n + 1) as u64);
    }
}

pub proof fn lemma_bit8_or(a: u8, b: u8, i: u8)
    requires
        i < 8,
    ensures
        bit8(a | b, i) == (bit8(a, i) || bit8(b, i)),
{
    assert(((a | b) >> i) & 1u8 == 1u8 <==> ((a >> i) & 1u8 == 1u8 || (b >> i) & 1u8 == 1u8))
        by (bit_vector)
        requires
            i < 8,
    ;
}

pub proof fn lemma_bit8_and(a: u8, b: u8, i: u8)
    requires
        i < 8,
    ensures
        bit8(a & b, i) == (bit8(a, i) && bit8(b, i)),
{
    assert(((a & b) >> i) & 1u8 == 1u8 <==> ((a >> i) & 1u8 == 1u8 && (b >> i) & 1u8 == 1u8))
        by (bit_vector)
        requires
            i < 8,
    ;
}

pub proof fn lemma_bit8_xor(a: u8, b: u8, i: u8)
    requires
        i < 8,
    ensures
        bit8(a ^ b, i) == (bit8(a, i) != bit8(b, i)),
{
    assert(((a ^ b) >> i) & 1u8 == 1u8 <==> ((a >> i) & 1u8 == 1u8) != ((b >> i) & 1u8 == 1u8))
        by (bit_vector)
        requires
            i < 8,
    ;
}

pub proof fn lemma_bit8_and_not(a: u8, b: u8, i: u8)
    requires
        i < 8,
    ensures
        bit8(a & !b, i) == (bit8(a, i) && !bit8(b, i)),
{
    assert(((a & !b) >> i) & 1u8 == 1u8 <==> ((a >> i) & 1u8 == 1u8 && !((b >> i) & 1u8 == 1u8)))
        by (bit_vector)
        requires
            i < 8,
    ;
}

pub proof fn lemma_bit8_not(a: u8, i: u8)
    requires
        i < 8,
    ensures
        bit8(!a, i) == !bit8(a, i),
{
    assert(((!a) >> i) & 1u8 == 1u8 <==> !((a >> i) & 1u8 == 1u8)) by (bit_vector)
        requires
            i < 8,
    ;
}

pub proof fn lemma_bit8_single(j: u8, i: u8)
    requires
        i < 8,
        j < 8,
    ensures
        bit8(1u8 << j, i) == (i == j),
{
    assert(((1u8 << j) >> i) & 1u8 == 1u8 <==> i == j) by (bit_vector)
        requires
            i < 8,
            j < 8,
    ;
}

/// An 8-bit word whose bits all agree with another's below 8 equals it.
pub proof fn lemma_bit8_ext(a: u8, b: u8)
    requires
        forall|i: u8| i < 8 ==> bit8(a, i) == bit8(b, i),
    ensures
        a == b,
{
    let i0 = 0u8; let i1 = 1u8; let i2 = 2u8; let i3 = 3u8;
    let i4 = 4u8; let i5 = 5u8; let i6 = 6u8; let i7 = 7u8;
    assert(bit8(a, i0) == bit8(b, i0));
    assert(bit8(a, i1) == bit8(b, i1));
    assert(bit8(a, i2) == bit8(b, i2));
    assert(bit8(a, i3) == bit8(b, i3));
    assert(bit8(a, i4) == bit8(b, i4));
    assert(bit8(a, i5) == bit8(b, i5));
    assert(bit8(a, i6) == bit8(b, i6));
    assert(bit8(a, i7) == bit8(b, i7));
    assert(((a >> 0u8) & 1u8 == 1u8) == ((b >> 0u8) & 1u8 == 1u8) && ((a >> 1u8) & 1u8 == 1u8)
        == ((b >> 1u8) & 1u8 == 1u8) && ((a >> 2u8) & 1u8 == 1u8) == ((b >> 2u8) & 1u8 == 1u8) && (
    (a >> 3u8) & 1u8 == 1u8) == ((b >> 3u8) & 1u8 == 1u8) && ((a >> 4u8) & 1u8 == 1u8) == ((b
        >> 4u8) & 1u8 == 1u8) && ((a >> 5u8) & 1u8 == 1u8) == ((b >> 5u8) & 1u8 == 1u8) && ((a
        >> 6u8) & 1u8 == 1u8) == ((b >> 6u8) & 1u8 == 1u8) && ((a >> 7u8) & 1u8 == 1u8) == ((b
        >> 7u8) & 1u8 == 1u8) ==> a == b) by (bit_vector);
}

/// The four low bits of 15 are set.
pub proof fn lemma_bit8_low_nibble_full(i: u8)
    requires
        i < 4,
    ensures
        bit8(15u8, i),
{
    assert((15u8 >> i) & 1u8 == 1u8) by (bit_vector)
        requires
            i < 4,
    ;
}

/// The low-nibble words are closed under the set operations.
pub proof fn lemma_nibble_closed(a: u8, b: u8)
    requires
        a < 16,
        b < 16,
    ensures
        (a | b) < 16,
        (a & b) < 16,
        (a ^ b) < 16,
        (a & !b) < 16,
        (!a & 15u8) < 16,
{
    assert(a < 16 && b < 16 ==> (a | b) < 16 && (a & b) < 16 && (a ^ b) < 16 && (a & !b) < 16
        && (!a & 15u8) < 16) by (bit_vector);
}

/// In a low-nibble word no bit at or above 4 is set, and masking with 15 keeps the low bits.
pub proof fn lemma_nibble_bits(a: u8, i: u8)
    requires
        i < 8,
    ensures
        a < 16 && i >= 4 ==> !bit8(a, i),
        i < 4 ==> bit8(a & 15u8, i) == bit8(a, i),
        i >= 4 ==> !bit8(a & 15u8, i),
        (a & 15u8) < 16,
        a < 16 ==> (a & 15u8) == a,
        (a & !15u8 == 0) == (a < 16),
{
    assert(i < 8 ==> (a < 16 && i >= 4 ==> !((a >> i) & 1u8 == 1u8)) && (i < 4 ==> (((a & 15u8)
        >> i) & 1u8 == 1u8) == ((a >> i) & 1u8 == 1u8)) && (i >= 4 ==> !(((a & 15u8) >> i) & 1u8
        == 1u8)) && (a & 15u8) < 16 && (a < 16 ==> (a & 15u8) == a) && ((a & !15u8 == 0) == (a
        < 16))) by (bit_vector);
}

} // verus!
