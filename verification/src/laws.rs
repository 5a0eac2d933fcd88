//! What holds of encoding and decoding together, whatever the payload, the carrier and
//! the symbols.

use crate::bits::{
    bitstream, group, lemma_bitstream_groups, lemma_packed_bitstream, lemma_value_of_zeros,
    packed_bytes,
};
use crate::decode::decode_spec;
use crate::encode::encode_spec;
use crate::error::{DecodeError, DecodeErrorKind};
use crate::symbols::{
    collected_bits, hidden_symbols, is_noise, lemma_collect_concat, lemma_collect_equal_symbols,
    lemma_collect_hidden, lemma_collect_noise, lemma_collect_symbols, lemma_symbol_removed,
    symbol_count, symbols_of,
};
use vstd::prelude::*;

verus! {

/// Decoding what was encoded gives the plaintext back: for every plaintext that is
/// not empty and every two symbols that differ.
pub proof fn round_trip(plaintext: Seq<u8>, low: char, high: char)
    requires
        plaintext.len() > 0,
        low != high,
    ensures
        encode_spec(plaintext, low, high) matches Some(hidden) && decode_spec(hidden, low, high)
            == Ok::<Option<Seq<u8>>, DecodeError>(Some(plaintext)),
{
    lemma_collect_hidden(bitstream(plaintext), low, high);
    lemma_bitstream_groups(plaintext);
    lemma_packed_bitstream(plaintext);
}

/// Where one character is given as both symbols, encoding is not refused, and decoding
/// gives as many bytes as were encoded, every one of them 0: the two symbols have to
/// differ for the plaintext to come back.
pub proof fn equal_symbols_collapse(plaintext: Seq<u8>, symbol: char)
    requires
        plaintext.len() > 0,
    ensures
        encode_spec(plaintext, symbol, symbol) matches Some(hidden) && decode_spec(
            hidden,
            symbol,
            symbol,
        ) == Ok::<Option<Seq<u8>>, DecodeError>(Some(Seq::new(plaintext.len(), |i: int| 0u8))),
{
    let bits = collected_bits(
        hidden_symbols(bitstream(plaintext), symbol, symbol),
        symbol,
        symbol,
    );
    lemma_bitstream_groups(plaintext);
    lemma_collect_equal_symbols(bitstream(plaintext), symbol);
    assert forall|k: int| 0 <= k < plaintext.len() implies #[trigger] packed_bytes(bits)[k]
        == 0u8 by {
        lemma_value_of_zeros(group(bits, k));
    }
    assert(packed_bytes(bits) =~= Seq::new(plaintext.len(), |i: int| 0u8));
}

/// An empty plaintext encodes to nothing, whatever the symbols.
pub proof fn empty_plaintext(low: char, high: char)
    ensures
        encode_spec(Seq::<u8>::empty(), low, high) == None::<Seq<char>>,
{
}

/// A carrier that holds neither symbol has nothing hidden in it, and decoding it is
/// no error.
pub proof fn no_signal(carrier: Seq<char>, low: char, high: char)
    requires
        is_noise(carrier, low, high),
    ensures
        decode_spec(carrier, low, high) == Ok::<Option<Seq<u8>>, DecodeError>(None),
{
    lemma_collect_noise(carrier, low, high);
}

/// A carrier whose number of symbols is not a multiple of eight is refused, and the
/// error holds that very number.
pub proof fn length_validation(carrier: Seq<char>, low: char, high: char)
    requires
        symbol_count(carrier, low, high) % 8 != 0,
        symbol_count(carrier, low, high) <= usize::MAX,
    ensures
        decode_spec(carrier, low, high) matches Err(error) && error.kind
            matches DecodeErrorKind::IncorrectLength(count) && count == symbol_count(
            carrier,
            low,
            high,
        ),
{
    lemma_collect_symbols(carrier, low, high);
}

/// Characters that are not symbols, put into a carrier at any place, do not change
/// what decoding it gives.
pub proof fn noise_tolerance(
    before: Seq<char>,
    noise: Seq<char>,
    after: Seq<char>,
    low: char,
    high: char,
)
    requires
        is_noise(noise, low, high),
    ensures
        decode_spec(before + noise + after, low, high) == decode_spec(before + after, low, high),
{
    lemma_collect_noise(noise, low, high);
    lemma_collect_concat(before, noise, low, high);
    lemma_collect_concat(before + noise, after, low, high);
    lemma_collect_concat(before, after, low, high);
    assert(collected_bits(before + noise + after, low, high) =~= collected_bits(
        before + after,
        low,
        high,
    ));
}

/// Decoding passes over everything but the symbols: a carrier gives what its symbols
/// alone give.
pub proof fn noise_is_passed_over(carrier: Seq<char>, low: char, high: char)
    ensures
        decode_spec(symbols_of(carrier, low, high), low, high) == decode_spec(carrier, low, high),
{
    lemma_collect_symbols(carrier, low, high);
}

/// An encoded sequence from which any three symbols were taken out, those at the
/// places `i`, `j` and `k`, is refused, with the number of symbols that are left: three
/// less than eight for each byte.
pub proof fn truncation(plaintext: Seq<u8>, low: char, high: char, i: int, j: int, k: int)
    requires
        0 <= i < j < k < 8 * plaintext.len(),
        8 * plaintext.len() <= usize::MAX,
    ensures
        decode_spec(
            hidden_symbols(bitstream(plaintext), low, high).remove(k).remove(j).remove(i),
            low,
            high,
        ) == Err::<Option<Seq<u8>>, DecodeError>(
            DecodeError {
                kind: DecodeErrorKind::IncorrectLength((8 * plaintext.len() - 3) as usize),
            },
        ),
{
    let hidden = hidden_symbols(bitstream(plaintext), low, high);
    lemma_bitstream_groups(plaintext);
    lemma_collect_hidden(bitstream(plaintext), low, high);
    lemma_symbol_removed(hidden, k, low, high);
    lemma_symbol_removed(hidden.remove(k), j, low, high);
    lemma_symbol_removed(hidden.remove(k).remove(j), i, low, high);
}

} // verus!
