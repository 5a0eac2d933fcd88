//! Recovering hidden bytes from a carrier text.

use crate::bits::{
    binary_value, group, lemma_value_below_power, lemma_value_of_next_prefix,
    lemma_value_of_prefix, packed_bytes,
};
use crate::error::{DecodeError, DecodeErrorKind};
use crate::symbols::{collected_bits, INVSEP, ZWNJ};
use vstd::arithmetic::power2::lemma2_to64;
use vstd::prelude::*;

verus! {

/// What decoding yields. Where the carrier holds no symbol there is nothing hidden in
/// it; where the symbols do not make up whole bytes the carrier is refused, with the
/// number of symbols found; else the symbols' bits, packed into bytes, are the payload.
pub open spec fn decode_spec(carrier: Seq<char>, low: char, high: char) -> Result<
    Option<Seq<u8>>,
    DecodeError,
> {
    let bits = collected_bits(carrier, low, high);
    if bits.len() == 0 {
        Ok(None)
    } else if bits.len() % 8 != 0 {
        Err(DecodeError { kind: DecodeErrorKind::IncorrectLength(bits.len() as usize) })
    } else {
        Ok(Some(packed_bytes(bits)))
    }
}

/// A decoder's result as a mathematical value: the payload as a sequence of bytes, if
/// there is one.
pub open spec fn decoded_view(result: Result<Option<Vec<u8>>, DecodeError>) -> Result<
    Option<Seq<u8>>,
    DecodeError,
> {
    match result {
        Ok(Some(bytes)) => Ok(Some(bytes@)),
        Ok(None) => Ok(None),
        Err(error) => Err(error),
    }
}

/// Scans `carrier` character by character and collects the bit of every symbol in it:
/// a 0 for `low`, a 1 for `high`. Every other character is passed over.
pub fn collect_bits(carrier: &str, low: char, high: char) -> (bits: Vec<bool>)
    ensures
        bits@ == collected_bits(carrier@, low, high),
{
    let mut bits: Vec<bool> = Vec::new();
    for c in it: carrier.chars()
        invariant
            it.seq() == carrier@,
            bits@ == collected_bits(carrier@.take(it.index() as int), low, high),
    {
        assert(carrier@.take(it.index() + 1).drop_last() =~= carrier@.take(it.index() as int));
        if c == low {
            bits.push(false);
        } else if c == high {
            bits.push(true);
        }
    }
    assert(carrier@.take(carrier@.len() as int) =~= carrier@);
    bits
}

/// Reads binary digits, most significant first, as a byte. There is no such byte, and
/// the error is `InvalidInt`, where there is no digit at all or where the number that
/// the digits denote is above 255.
pub fn parse_byte(digits: &[bool]) -> (result: Result<u8, DecodeError>)
    ensures
        match result {
            Ok(byte) => digits@.len() > 0 && byte == binary_value(digits@),
            Err(error) => error.kind == DecodeErrorKind::InvalidInt && (digits@.len() == 0
                || binary_value(digits@) > 255),
        },
{
    if digits.len() == 0 {
        return Err(DecodeError { kind: DecodeErrorKind::InvalidInt });
    }
    let mut value: u8 = 0;
    for i in 0..digits.len()
        invariant
            value == binary_value(digits@.take(i as int)),
    {
        proof {
            lemma_value_of_next_prefix(digits@, i as int);
            lemma_value_of_prefix(digits@, i + 1);
        }
        if value > 127 {
            return Err(DecodeError { kind: DecodeErrorKind::InvalidInt });
        }
        value = 2 * value + if digits[i] {
            1
        } else {
            0
        };
    }
    assert(digits@.take(digits@.len() as int) =~= digits@);
    Ok(value)
}

/// Decodes what is hidden in `text`. The characters equal to `low_char` are read as
/// 0, the others equal to `high_char` as 1, in the order in which they stand; a symbol
/// that is not given is the default one; every other character is passed over. The
/// bits, eight to a byte and most significant first, are the bytes that were hidden:
/// they are handed out as they are, text or not.
///
/// A text without a symbol gives `Ok(None)`. A number of symbols that is not a multiple
/// of eight gives the error `IncorrectLength`, which holds that number. No other error
/// is returned.
pub fn decode_hidden(text: String, low_char: Option<char>, high_char: Option<char>) -> (result:
    Result<Option<Vec<u8>>, DecodeError>)
    ensures
        decoded_view(result) == decode_spec(
            text@,
            low_char.unwrap_or(ZWNJ),
            high_char.unwrap_or(INVSEP),
        ),
        collected_bits(text@, low_char.unwrap_or(ZWNJ), high_char.unwrap_or(INVSEP)).len()
            <= usize::MAX,
{
    let bits = collect_bits(text.as_str(), low_char.unwrap_or(ZWNJ), high_char.unwrap_or(INVSEP));
    let count: usize = bits.len();
    if count % 8 != 0 {
        return Err(DecodeError { kind: DecodeErrorKind::IncorrectLength(count) });
    } else if count == 0 {
        return Ok(None);
    }
    let mut output: Vec<u8> = Vec::new();
    for k in 0..count / 8
        invariant
            count == bits@.len(),
            count % 8 == 0,
            output@ == packed_bytes(bits@).take(k as int),
    {
        proof {
            lemma_value_below_power(group(bits@, k as int));
            lemma2_to64();
        }
        match parse_byte(&bits.as_slice()[8 * k..8 * k + 8]) {
            Ok(byte) => output.push(byte),
            Err(error) => {
                return Err(error);
            },
        }
        assert(output@ =~= packed_bytes(bits@).take(k + 1));
    }
    assert(output@ =~= packed_bytes(bits@));
    Ok(Some(output))
}

} // verus!
