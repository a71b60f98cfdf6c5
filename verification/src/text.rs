//! Building message strings: decimal numbers and single characters.

use vstd::prelude::*;

verus! {

/// Appends `c` to `s`, through `String::push`.
///
/// Trusted: std documents `push` as appending the character to the end of
/// the string, which is what the contract states over the character view.
#[verifier::external_body]
pub(crate) fn string_push(s: &mut String, c: char)
    ensures
        final(s)@ == old(s)@.push(c),
{
    s.push(c);
}

/// The ASCII digit for `d`, where `d < 10`.
pub open spec fn digit_char(d: nat) -> char {
    ((d + 48) as u8) as char
}

/// The decimal representation of `n`, most significant digit first, with no
/// leading zeros (zero itself is "0").
pub open spec fn decimal(n: nat) -> Seq<char>
    decreases n,
{
    if n < 10 {
        seq![digit_char(n)]
    } else {
        decimal(n / 10).push(digit_char(n % 10))
    }
}

/// Appends the decimal representation of `n` to `s`.
pub fn push_decimal(s: &mut String, n: u64)
    ensures
        final(s)@ == old(s)@ + decimal(n as nat),
    decreases n,
{
    if n >= 10 {
        push_decimal(s, n / 10);
    }
    let ghost mid = s@;
    string_push(s, ((n % 10) as u8 + 48) as char);
    assert(old(s)@ + decimal(n as nat) =~= mid.push(digit_char((n % 10) as nat)));
}

} // verus!
