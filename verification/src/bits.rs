//! The bit-packing convention: within a byte, the most significant bit comes
//! first. Everything here is about single bytes and about sequences of whole
//! bytes; how a stream ends is the business of the padding strategies.

use vstd::arithmetic::power2::{lemma2_to64, pow2};
use vstd::prelude::*;

verus! {

/// The place value of bit position `i` of a byte, position 0 being the most
/// significant: 128, 64, ..., 1.
pub open spec fn weight(i: int) -> int {
    pow2((7 - i) as nat) as int
}

/// Bit `i` of `byte`, counted from the most significant bit.
pub open spec fn bit_at(byte: u8, i: int) -> bool {
    (byte as int / weight(i)) % 2 == 1
}

/// What position `i` of `bits` contributes to the byte that packs them: its
/// place value if the bit is there and set, nothing otherwise.
pub open spec fn place(bits: Seq<bool>, i: int) -> int {
    if 0 <= i < bits.len() && bits[i] {
        weight(i)
    } else {
        0
    }
}

/// The byte that holds the first eight of `bits`, most significant bit first.
/// Where there are fewer than eight, the low bits are zero.
pub open spec fn pack(bits: Seq<bool>) -> u8 {
    (place(bits, 0) + place(bits, 1) + place(bits, 2) + place(bits, 3) + place(bits, 4) + place(
        bits,
        5,
    ) + place(bits, 6) + place(bits, 7)) as u8
}

/// All the bits of `bytes`, eight for each byte, in stream order.
pub open spec fn unpack(bytes: Seq<u8>) -> Seq<bool> {
    Seq::new(8 * bytes.len(), |i: int| bit_at(bytes[i / 8], i % 8))
}

/// The bytes that `bits` fill completely, in stream order. Bits past the last
/// byte boundary are not part of it: see [`tail`].
pub open spec fn packed(bits: Seq<bool>) -> Seq<u8> {
    Seq::new(bits.len() / 8, |k: int| pack(bits.subrange(8 * k, 8 * k + 8)))
}

/// The bits of `bits` past its last byte boundary: between none and seven.
pub open spec fn tail(bits: Seq<bool>) -> Seq<bool> {
    bits.skip(bits.len() - bits.len() % 8)
}

/// The place values, spelled out.
pub proof fn lemma_weights()
    ensures
        weight(0) == 128,
        weight(1) == 64,
        weight(2) == 32,
        weight(3) == 16,
        weight(4) == 8,
        weight(5) == 4,
        weight(6) == 2,
        weight(7) == 1,
{
    lemma2_to64();
}

/// Packing fewer than eight bits and then one more adds the place value of
/// the new bit, if it is set, and changes nothing else.
pub proof fn lemma_pack_push(bits: Seq<bool>, bit: bool)
    requires
        bits.len() < 8,
    ensures
        pack(bits.push(bit)) as int == pack(bits) as int + (if bit {
            weight(bits.len() as int)
        } else {
            0
        }),
{
    lemma_weights();
    let more = bits.push(bit);
    assert forall|i: int| 0 <= i < 8 implies #[trigger] place(more, i) == if i == bits.len() {
        if bit {
            weight(i)
        } else {
            0
        }
    } else {
        place(bits, i)
    } by {}
}

/// A byte that is the sum of eight binary digits, each at its place value,
/// has those digits.
proof fn lemma_digits(d0: u8, d1: u8, d2: u8, d3: u8, d4: u8, d5: u8, d6: u8, d7: u8, byte: u8)
    by (bit_vector)
    requires
        d0 <= 1,
        d1 <= 1,
        d2 <= 1,
        d3 <= 1,
        d4 <= 1,
        d5 <= 1,
        d6 <= 1,
        d7 <= 1,
        byte == d0 * 128 + d1 * 64 + d2 * 32 + d3 * 16 + d4 * 8 + d5 * 4 + d6 * 2 + d7,
    ensures
        (byte / 128) % 2 == d0,
        (byte / 64) % 2 == d1,
        (byte / 32) % 2 == d2,
        (byte / 16) % 2 == d3,
        (byte / 8) % 2 == d4,
        (byte / 4) % 2 == d5,
        (byte / 2) % 2 == d6,
        (byte / 1) % 2 == d7,
{
}

/// Whether position `i` of `bits` is there and set, as a binary digit.
spec fn digit(bits: Seq<bool>, i: int) -> u8 {
    if 0 <= i < bits.len() && bits[i] {
        1
    } else {
        0
    }
}

/// Reading a packed byte bit by bit gives back the bits that went in, and
/// zeros in the positions that were not filled.
pub proof fn lemma_bit_at_pack(bits: Seq<bool>, i: int)
    requires
        bits.len() <= 8,
        0 <= i < 8,
    ensures
        bit_at(pack(bits), i) == (i < bits.len() && bits[i]),
{
    lemma_weights();
    assert forall|k: int| 0 <= k < 8 implies #[trigger] place(bits, k) == digit(bits, k) * weight(
        k,
    ) by {}
    lemma_digits(
        digit(bits, 0),
        digit(bits, 1),
        digit(bits, 2),
        digit(bits, 3),
        digit(bits, 4),
        digit(bits, 5),
        digit(bits, 6),
        digit(bits, 7),
        pack(bits),
    );
}

/// Bit `i` of a stream, where it lies in a byte that the bits fill, is found
/// in that byte at position `i % 8`.
pub proof fn lemma_bit_at_packed(bits: Seq<bool>, i: int)
    requires
        0 <= i < 8 * (bits.len() / 8),
    ensures
        bit_at(packed(bits)[i / 8], i % 8) == bits[i],
{
    let k = i / 8;
    let group = bits.subrange(8 * k, 8 * k + 8);
    lemma_bit_at_pack(group, i % 8);
}

/// Bit `i` of a stream, where it lies past the last byte boundary, is found
/// in the packed tail at position `i % 8`; the positions after the tail hold
/// zeros.
pub proof fn lemma_bit_at_tail(bits: Seq<bool>, i: int)
    requires
        0 <= i < 8,
    ensures
        bit_at(pack(tail(bits)), i) == (i < bits.len() % 8 && bits[bits.len() - bits.len() % 8 + i]),
{
    lemma_bit_at_pack(tail(bits), i);
}

/// The mask `0x80 >> i` has the place value of position `i`, and selects
/// exactly bit `i` of a byte.
pub proof fn lemma_mask(byte: u8, i: u8)
    requires
        i < 8,
    ensures
        (0x80u8 >> i) as int == weight(i as int),
        (byte & (0x80u8 >> i) == (0x80u8 >> i)) == bit_at(byte, i as int),
        (byte & (0x80u8 >> i) == 0) == !bit_at(byte, i as int),
        !bit_at(byte, i as int) ==> (byte | (0x80u8 >> i)) as int == byte as int + weight(i as int),
{
    lemma_weights();
    let m = 0x80u8 >> i;
    assert(m == if i == 0 {
        128u8
    } else if i == 1 {
        64u8
    } else if i == 2 {
        32u8
    } else if i == 3 {
        16u8
    } else if i == 4 {
        8u8
    } else if i == 5 {
        4u8
    } else if i == 6 {
        2u8
    } else {
        1u8
    }) by (bit_vector)
        requires
            i < 8,
            m == 0x80u8 >> i,
    ;
    assert((byte & m == m) == ((byte / m) % 2 == 1) && (byte & m == 0) == ((byte / m) % 2 != 1) && (
    byte & m == 0 ==> (byte | m) == byte + m)) by (bit_vector)
        requires
            m == 128 || m == 64 || m == 32 || m == 16 || m == 8 || m == 4 || m == 2 || m == 1,
    ;
}

} // verus!
