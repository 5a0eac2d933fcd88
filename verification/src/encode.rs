//! Hiding bytes: one symbol for each bit.

use crate::bits::{bitstream, byte_digits, digit_at, lemma_bitstream_groups};
use crate::symbols::{hidden_symbols, INVSEP, ZWNJ};
use vstd::prelude::*;
use vstd::string::StringExecFns;
use vstd::utf8::encode_utf8;

verus! {

/// What encoding yields: nothing for an empty plaintext, else the plaintext's
/// bitstream written in the two symbols.
pub open spec fn encode_spec(plaintext: Seq<u8>, low: char, high: char) -> Option<Seq<char>> {
    if plaintext.len() == 0 {
        None
    } else {
        Some(hidden_symbols(bitstream(plaintext), low, high))
    }
}

/// An encoder's result as a mathematical value: the characters of the string, if
/// there is one.
pub open spec fn encoded_view(result: Option<String>) -> Option<Seq<char>> {
    match result {
        Some(hidden) => Some(hidden@),
        None => None,
    }
}

/// Encodes `plaintext`, any sequence of bytes, as a string of symbols: eight for each
/// byte, most significant bit first, `low_char` for a 0 and `high_char` for a 1. A
/// symbol that is not given is the default one. The symbols are taken as they are:
/// nothing asks that the two differ. An empty plaintext gives `None`.
pub fn encode_bytes(plaintext: &[u8], low_char: Option<char>, high_char: Option<char>) -> (result:
    Option<String>)
    ensures
        encoded_view(result) == encode_spec(
            plaintext@,
            low_char.unwrap_or(ZWNJ),
            high_char.unwrap_or(INVSEP),
        ),
        result is None <==> plaintext@.len() == 0,
        result matches Some(hidden) ==> hidden@.len() == 8 * plaintext@.len(),
{
    if plaintext.len() == 0 {
        return None;
    }
    let low = low_char.unwrap_or(ZWNJ);
    let high = high_char.unwrap_or(INVSEP);
    let mut output = String::new();
    for i in 0..plaintext.len()
        invariant
            output@ == hidden_symbols(bitstream(plaintext@.take(i as int)), low, high),
    {
        let byte = plaintext[i];
        let ghost earlier = bitstream(plaintext@.take(i as int));
        for j in 0..8u8
            invariant
                output@ == hidden_symbols(earlier + byte_digits(byte).take(j as int), low, high),
        {
            if digit_at(byte, j) {
                output.push(high);
            } else {
                output.push(low);
            }
            assert(earlier + byte_digits(byte).take(j + 1) =~= (earlier + byte_digits(byte).take(
                j as int,
            )).push(byte_digits(byte)[j as int]));
        }
        assert(plaintext@.take(i + 1).drop_last() =~= plaintext@.take(i as int));
        assert(byte_digits(byte).take(8) =~= byte_digits(byte));
    }
    proof {
        assert(plaintext@.take(plaintext@.len() as int) =~= plaintext@);
        lemma_bitstream_groups(plaintext@);
    }
    Some(output)
}

/// Encodes `text` byte by byte, the bytes being those of its UTF-8 form: a character
/// that takes several bytes gives eight symbols for each of them. An empty text gives
/// `None`. For the symbols see `encode_bytes`.
pub fn encode_hidden(text: String, low_char: Option<char>, high_char: Option<char>) -> (result:
    Option<String>)
    ensures
        encoded_view(result) == encode_spec(
            encode_utf8(text@),
            low_char.unwrap_or(ZWNJ),
            high_char.unwrap_or(INVSEP),
        ),
        result is None <==> text@.len() == 0,
        result matches Some(hidden) ==> hidden@.len() == 8 * encode_utf8(text@).len(),
{
    encode_bytes(text.as_str().as_bytes(), low_char, high_char)
}

/// Appends the visible `plain_text`, where there is one, to an encoded string.
pub fn add_plain_text(encoded_string: String, plain_text: &Option<String>) -> (result: String)
    ensures
        result@ == match plain_text {
            Some(plain) => encoded_string@ + plain@,
            None => encoded_string@,
        },
{
    match plain_text {
        Some(plain) => encoded_string.concat(plain.as_str()),
        None => encoded_string,
    }
}

} // verus!
