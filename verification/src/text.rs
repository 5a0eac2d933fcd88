//! Building strings: appending a character, and writing a number in decimal.

use vstd::prelude::*;

verus! {

/// `String::push` of the standard library appends the character to the end of the
/// string: afterwards the string holds the characters it held before, followed by `c`.
/// As with `Vec::push` in vstd, running out of memory is outside of what is modelled.
pub assume_specification[ String::push ](s: &mut String, c: char)
    ensures
        final(s)@ == old(s)@.push(c),
;

/// The character that stands for a decimal digit.
pub open spec fn digit_char(digit: nat) -> char
    recommends
        digit < 10,
{
    ('0' as nat + digit) as char
}

/// A number written in decimal, without leading zeros.
pub open spec fn decimal(n: nat) -> Seq<char>
    decreases n,
{
    if n < 10 {
        seq![digit_char(n)]
    } else {
        decimal(n / 10).push(digit_char(n % 10))
    }
}

/// Appends `n`, written in decimal, to `text`.
pub fn push_decimal(text: &mut String, n: usize)
    ensures
        final(text)@ == old(text)@ + decimal(n as nat),
    decreases n,
{
    if n >= 10 {
        push_decimal(text, n / 10);
    }
    let digit: u8 = (n % 10) as u8;
    text.push(('0' as u8 + digit) as char);
    assert(text@ =~= old(text)@ + decimal(n as nat));
}

} // verus!
