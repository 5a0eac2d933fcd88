//! The two symbols of the hidden channel, and how bits and symbols correspond.

use vstd::prelude::*;

verus! {

/// The symbol that stands for the binary digit 0 where the caller names none:
/// the zero-width non-joiner.
pub const ZWNJ: char = '\u{200c}';

/// The symbol that stands for the binary digit 1 where the caller names none:
/// the invisible separator.
pub const INVSEP: char = '\u{2063}';

/// A bit sequence written out in symbols: `low` for each 0, `high` for each 1.
pub open spec fn hidden_symbols(bits: Seq<bool>, low: char, high: char) -> Seq<char> {
    bits.map_values(|bit: bool| if bit { high } else { low })
}

/// The bits that a scan of `carrier` collects, in the order of the scan: a 0 for each
/// character equal to `low`, a 1 for each other character equal to `high`, and nothing
/// for any other character.
pub open spec fn collected_bits(carrier: Seq<char>, low: char, high: char) -> Seq<bool>
    decreases carrier.len(),
{
    if carrier.len() == 0 {
        Seq::empty()
    } else {
        let earlier = collected_bits(carrier.drop_last(), low, high);
        if carrier.last() == low {
            earlier.push(false)
        } else if carrier.last() == high {
            earlier.push(true)
        } else {
            earlier
        }
    }
}

/// Whether `c` is one of the two symbols.
pub open spec fn is_symbol(c: char, low: char, high: char) -> bool {
    c == low || c == high
}

/// Whether no character of `text` is a symbol.
pub open spec fn is_noise(text: Seq<char>, low: char, high: char) -> bool {
    forall|i: int| 0 <= i < text.len() ==> !is_symbol(#[trigger] text[i], low, high)
}

/// The symbols of `carrier`, in the order in which they stand: the carrier without
/// its noise.
pub open spec fn symbols_of(carrier: Seq<char>, low: char, high: char) -> Seq<char> {
    carrier.filter(|c: char| is_symbol(c, low, high))
}

/// The number of characters of `carrier` that are symbols.
pub open spec fn symbol_count(carrier: Seq<char>, low: char, high: char) -> nat {
    symbols_of(carrier, low, high).len()
}

/// A scan collects one bit for each symbol in the carrier, a 0 where the symbol is
/// `low` and a 1 where it is not, and the same bits from the symbols alone as from the
/// whole carrier.
pub proof fn lemma_collect_symbols(carrier: Seq<char>, low: char, high: char)
    ensures
        collected_bits(carrier, low, high).len() == symbol_count(carrier, low, high),
        collected_bits(carrier, low, high) == symbols_of(carrier, low, high).map_values(
            |symbol: char| symbol != low,
        ),
        collected_bits(symbols_of(carrier, low, high), low, high) == collected_bits(
            carrier,
            low,
            high,
        ),
    decreases carrier.len(),
{
    reveal(Seq::filter);
    if carrier.len() > 0 {
        lemma_collect_symbols(carrier.drop_last(), low, high);
        if is_symbol(carrier.last(), low, high) {
            assert(symbols_of(carrier, low, high).drop_last() =~= symbols_of(
                carrier.drop_last(),
                low,
                high,
            ));
        }
    }
}

/// The scan of two texts, one after the other, collects the bits of the first and
/// then those of the second.
pub proof fn lemma_collect_concat(first: Seq<char>, second: Seq<char>, low: char, high: char)
    ensures
        collected_bits(first + second, low, high) == collected_bits(first, low, high)
            + collected_bits(second, low, high),
    decreases second.len(),
{
    if second.len() == 0 {
        assert(first + second =~= first);
        assert(collected_bits(first, low, high) + collected_bits(second, low, high)
            =~= collected_bits(first, low, high));
    } else {
        lemma_collect_concat(first, second.drop_last(), low, high);
        assert((first + second).drop_last() =~= first + second.drop_last());
        assert(collected_bits(first + second, low, high) =~= collected_bits(first, low, high)
            + collected_bits(second, low, high));
    }
}

/// The scan of a text without symbols collects nothing.
pub proof fn lemma_collect_noise(noise: Seq<char>, low: char, high: char)
    requires
        is_noise(noise, low, high),
    ensures
        collected_bits(noise, low, high) == Seq::<bool>::empty(),
    decreases noise.len(),
{
    if noise.len() > 0 {
        assert(!is_symbol(noise[noise.len() - 1], low, high));
        lemma_collect_noise(noise.drop_last(), low, high);
    }
}

/// The scan of bits written out in symbols collects as many bits as were written,
/// and, where the two symbols differ, the very bits.
pub proof fn lemma_collect_hidden(bits: Seq<bool>, low: char, high: char)
    ensures
        collected_bits(hidden_symbols(bits, low, high), low, high).len() == bits.len(),
        low != high ==> collected_bits(hidden_symbols(bits, low, high), low, high) == bits,
    decreases bits.len(),
{
    if bits.len() > 0 {
        lemma_collect_hidden(bits.drop_last(), low, high);
        assert(hidden_symbols(bits, low, high).drop_last() =~= hidden_symbols(
            bits.drop_last(),
            low,
            high,
        ));
        if low != high {
            assert(collected_bits(hidden_symbols(bits, low, high), low, high) =~= bits);
        }
    } else {
        assert(collected_bits(hidden_symbols(bits, low, high), low, high) =~= bits);
    }
}

/// Where one character serves as both symbols, a scan reads it as 0 wherever it
/// stands: of the bits that were written out only their number is left.
pub proof fn lemma_collect_equal_symbols(bits: Seq<bool>, symbol: char)
    ensures
        collected_bits(hidden_symbols(bits, symbol, symbol), symbol, symbol) == Seq::new(
            bits.len(),
            |i: int| false,
        ),
    decreases bits.len(),
{
    if bits.len() > 0 {
        lemma_collect_equal_symbols(bits.drop_last(), symbol);
        assert(hidden_symbols(bits, symbol, symbol).drop_last() =~= hidden_symbols(
            bits.drop_last(),
            symbol,
            symbol,
        ));
    }
    assert(collected_bits(hidden_symbols(bits, symbol, symbol), symbol, symbol) =~= Seq::new(
        bits.len(),
        |i: int| false,
    ));
}

/// Taking one symbol out of a carrier leaves a scan one bit less to collect.
pub proof fn lemma_symbol_removed(carrier: Seq<char>, i: int, low: char, high: char)
    requires
        0 <= i < carrier.len(),
        is_symbol(carrier[i], low, high),
    ensures
        collected_bits(carrier.remove(i), low, high).len() + 1 == collected_bits(
            carrier,
            low,
            high,
        ).len(),
{
    let before = carrier.take(i);
    let symbol = seq![carrier[i]];
    let after = carrier.skip(i + 1);
    assert(carrier =~= before + symbol + after);
    assert(carrier.remove(i) =~= before + after);
    lemma_collect_concat(before, symbol, low, high);
    lemma_collect_concat(before + symbol, after, low, high);
    lemma_collect_concat(before, after, low, high);
    assert(collected_bits(symbol, low, high).len() == 1) by {
        reveal_with_fuel(collected_bits, 2);
    }
}

} // verus!
