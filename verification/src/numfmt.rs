//! Decimal rendering of the run count and the match score.

use vstd::prelude::*;

verus! {

/// The character of one decimal digit.
pub open spec fn digit_char(d: nat) -> char {
    ((48 + d) as u8) as char
}

/// The decimal digits of `n`, most significant first, no leading zeros
/// (a single zero for zero itself).
pub open spec fn dec_digits(n: nat) -> Seq<char>
    decreases n,
{
    if n < 10 {
        seq![digit_char(n)]
    } else {
        dec_digits(n / 10) + seq![digit_char(n % 10)]
    }
}

/// The decimal rendering of a signed value: a minus sign before the digits of
/// the magnitude for negative values, the plain digits otherwise.
pub open spec fn int_digits(n: int) -> Seq<char> {
    if n < 0 {
        seq!['-'] + dec_digits((-n) as nat)
    } else {
        dec_digits(n as nat)
    }
}

/// Relies on `String::push` (std): appends exactly the given character.
#[verifier::external_body]
fn push_char(s: &mut String, c: char)
    ensures
        final(s)@ == old(s)@ + seq![c],
{
    s.push(c);
}

/// Appends the decimal digits of `n`.
pub fn push_u64_digits(s: &mut String, n: u64)
    ensures
        final(s)@ == old(s)@ + dec_digits(n as nat),
    decreases n,
{
    if n >= 10 {
        push_u64_digits(s, n / 10);
    }
    let d: u8 = (n % 10) as u8;
    let c: char = (48 + d) as char;
    proof {
        assert(c == digit_char((n % 10) as nat));
        assert(n < 10 ==> n % 10 == n);
    }
    push_char(s, c);
    proof {
        if n >= 10 {
            assert((old(s)@ + dec_digits((n / 10) as nat)) + seq![c] =~= old(s)@ + (dec_digits(
                (n / 10) as nat,
            ) + seq![c]));
        }
    }
}

/// Appends the decimal rendering of a signed value.
pub fn push_i64_digits(s: &mut String, n: i64)
    ensures
        final(s)@ == old(s)@ + int_digits(n as int),
{
    if n < 0 {
        push_char(s, '-');
        let mag: u64 = (-(n as i128)) as u64;
        proof {
            assert(mag as int == -(n as int));
        }
        push_u64_digits(s, mag);
        proof {
            assert((old(s)@ + seq!['-']) + dec_digits(mag as nat) =~= old(s)@ + (seq!['-']
                + dec_digits(mag as nat)));
        }
    } else {
        push_u64_digits(s, n as u64);
    }
}

} // verus!
