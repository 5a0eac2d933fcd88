//! Binary digits: the mathematical model that the encoder and the decoder share.
//!
//! A byte is written as eight binary digits, most significant first; a byte sequence
//! as the concatenation of its bytes' digits, in order. Going back, a sequence of
//! digits is cut into consecutive groups of eight and each group read as a number.

use vstd::arithmetic::power2::{lemma2_to64, lemma_pow2_unfold, pow2};
use vstd::prelude::*;

verus! {

/// The number that a sequence of binary digits denotes, most significant digit first.
pub open spec fn binary_value(digits: Seq<bool>) -> nat
    decreases digits.len(),
{
    if digits.len() == 0 {
        0
    } else {
        2 * binary_value(digits.drop_last()) + if digits.last() {
            1nat
        } else {
            0nat
        }
    }
}

/// The eight binary digits of a byte, most significant digit first.
pub open spec fn byte_digits(byte: u8) -> Seq<bool> {
    Seq::new(8, |i: int| (byte as nat / pow2((7 - i) as nat)) % 2 == 1)
}

/// The digits of all the bytes, one byte after the other.
pub open spec fn bitstream(bytes: Seq<u8>) -> Seq<bool>
    decreases bytes.len(),
{
    if bytes.len() == 0 {
        Seq::empty()
    } else {
        bitstream(bytes.drop_last()) + byte_digits(bytes.last())
    }
}

/// The group of eight digits that starts at digit `8 * k`.
pub open spec fn group(bits: Seq<bool>, k: int) -> Seq<bool> {
    bits.subrange(8 * k, 8 * k + 8)
}

/// The bytes that consecutive groups of eight digits denote, in the order of the groups.
/// Digits after the last whole group are left out.
pub open spec fn packed_bytes(bits: Seq<bool>) -> Seq<u8> {
    Seq::new(bits.len() / 8, |k: int| binary_value(group(bits, k)) as u8)
}

/// A sequence of `n` digits denotes a number below 2 to the power `n`.
pub proof fn lemma_value_below_power(digits: Seq<bool>)
    ensures
        binary_value(digits) < pow2(digits.len()),
    decreases digits.len(),
{
    if digits.len() == 0 {
        lemma2_to64();
    } else {
        lemma_value_below_power(digits.drop_last());
        lemma_pow2_unfold(digits.len());
    }
}

/// The first `n` digits of a sequence denote no more than the whole sequence does.
pub proof fn lemma_value_of_prefix(digits: Seq<bool>, n: int)
    requires
        0 <= n <= digits.len(),
    ensures
        binary_value(digits.take(n)) <= binary_value(digits),
    decreases digits.len() - n,
{
    if n == digits.len() {
        assert(digits.take(n) =~= digits);
    } else {
        lemma_value_of_prefix(digits.drop_last(), n);
        assert(digits.drop_last().take(n) =~= digits.take(n));
    }
}

/// Reading one more digit doubles the number read so far and adds the digit.
pub proof fn lemma_value_of_next_prefix(digits: Seq<bool>, n: int)
    requires
        0 <= n < digits.len(),
    ensures
        binary_value(digits.take(n + 1)) == 2 * binary_value(digits.take(n)) + if digits[n] {
            1nat
        } else {
            0nat
        },
{
    assert(digits.take(n + 1).drop_last() =~= digits.take(n));
}

/// Digits that are all 0 denote the number 0.
pub proof fn lemma_value_of_zeros(digits: Seq<bool>)
    requires
        forall|i: int| 0 <= i < digits.len() ==> !digits[i],
    ensures
        binary_value(digits) == 0,
    decreases digits.len(),
{
    if digits.len() > 0 {
        lemma_value_of_zeros(digits.drop_last());
    }
}

/// The digits of a byte denote that byte.
pub proof fn lemma_byte_digits_value(byte: u8)
    ensures
        binary_value(byte_digits(byte)) == byte,
{
    let digits = byte_digits(byte);
    lemma2_to64();
    assert(binary_value(digits.take(0)) == byte as nat / 256);
    lemma_value_of_next_prefix(digits, 0);
    assert(binary_value(digits.take(1)) == byte as nat / 128);
    lemma_value_of_next_prefix(digits, 1);
    assert(binary_value(digits.take(2)) == byte as nat / 64);
    lemma_value_of_next_prefix(digits, 2);
    assert(binary_value(digits.take(3)) == byte as nat / 32);
    lemma_value_of_next_prefix(digits, 3);
    assert(binary_value(digits.take(4)) == byte as nat / 16);
    lemma_value_of_next_prefix(digits, 4);
    assert(binary_value(digits.take(5)) == byte as nat / 8);
    lemma_value_of_next_prefix(digits, 5);
    assert(binary_value(digits.take(6)) == byte as nat / 4);
    lemma_value_of_next_prefix(digits, 6);
    assert(binary_value(digits.take(7)) == byte as nat / 2);
    lemma_value_of_next_prefix(digits, 7);
    assert(digits[7] == (byte as nat % 2 == 1)) by {
        assert(byte as nat / 1 == byte as nat);
    }
    assert(digits.take(8) =~= digits);
}

/// The bitstream of `n` bytes has `8 * n` digits, and its `k`-th group of eight
/// holds the digits of the `k`-th byte.
pub proof fn lemma_bitstream_groups(bytes: Seq<u8>)
    ensures
        bitstream(bytes).len() == 8 * bytes.len(),
        forall|k: int|
            0 <= k < bytes.len() ==> #[trigger] group(bitstream(bytes), k) == byte_digits(bytes[k]),
    decreases bytes.len(),
{
    if bytes.len() > 0 {
        let earlier = bytes.drop_last();
        lemma_bitstream_groups(earlier);
        assert forall|k: int| 0 <= k < bytes.len() implies #[trigger] group(bitstream(bytes), k)
            == byte_digits(bytes[k]) by {
            if k < earlier.len() {
                assert(group(bitstream(bytes), k) =~= group(bitstream(earlier), k));
            } else {
                assert(group(bitstream(bytes), k) =~= byte_digits(bytes.last()));
            }
        }
    }
}

/// Packing the bitstream of a byte sequence gives the byte sequence back.
pub proof fn lemma_packed_bitstream(bytes: Seq<u8>)
    ensures
        packed_bytes(bitstream(bytes)) == bytes,
{
    lemma_bitstream_groups(bytes);
    assert forall|k: int| 0 <= k < bytes.len() implies packed_bytes(bitstream(bytes))[k]
        == bytes[k] by {
        assert(group(bitstream(bytes), k) == byte_digits(bytes[k]));
        lemma_byte_digits_value(bytes[k]);
    }
    assert(packed_bytes(bitstream(bytes)) =~= bytes);
}

/// Reads the digit of `byte` that stands `index` places after the most significant one.
pub fn digit_at(byte: u8, index: u8) -> (digit: bool)
    requires
        index < 8,
    ensures
        digit == byte_digits(byte)[index as int],
{
    let weight: u8 = 1u8 << (7 - index);
    proof {
        lemma2_to64();
        assert(1u8 << 0u8 == 1u8) by (bit_vector);
        assert(1u8 << 1u8 == 2u8) by (bit_vector);
        assert(1u8 << 2u8 == 4u8) by (bit_vector);
        assert(1u8 << 3u8 == 8u8) by (bit_vector);
        assert(1u8 << 4u8 == 16u8) by (bit_vector);
        assert(1u8 << 5u8 == 32u8) by (bit_vector);
        assert(1u8 << 6u8 == 64u8) by (bit_vector);
        assert(1u8 << 7u8 == 128u8) by (bit_vector);
        assert(weight == pow2((7 - index) as nat));
    }
    (byte / weight) % 2 == 1
}

} // verus!
