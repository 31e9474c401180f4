//! Building the small strings the library hands out: decimal renderings
//! of fixed-point values and the two trusted `String` wrappers they rest
//! on.

use vstd::prelude::*;
use crate::fixed::{iabs, Fx, FX_SCALE};

verus! {

/// Relies on String::push: appends one character at the end.
#[verifier::external_body]
pub(crate) fn push_char(s: &mut String, c: char)
    ensures
        final(s)@ == old(s)@.push(c),
{
    s.push(c);
}

/// Relies on String::push_str: appends a string slice at the end.
#[verifier::external_body]
pub(crate) fn push_str(s: &mut String, t: &str)
    ensures
        final(s)@ == old(s)@ + t@,
{
    s.push_str(t);
}

/// The decimal digit character for a value below ten; larger values share
/// the last digit.
pub open spec fn dec_digit_spec(n: int) -> char {
    if n == 0 { '0' } else if n == 1 { '1' } else if n == 2 { '2' } else if n == 3 { '3' }
    else if n == 4 { '4' } else if n == 5 { '5' } else if n == 6 { '6' } else if n == 7 { '7' }
    else if n == 8 { '8' } else { '9' }
}

/// The decimal digit character of a value below ten.
fn dec_digit(n: u64) -> (r: char)
    requires
        n < 10,
    ensures
        r == dec_digit_spec(n as int),
{
    if n == 0 { '0' } else if n == 1 { '1' } else if n == 2 { '2' } else if n == 3 { '3' }
    else if n == 4 { '4' } else if n == 5 { '5' } else if n == 6 { '6' } else if n == 7 { '7' }
    else if n == 8 { '8' } else { '9' }
}

/// The decimal spelling of a natural number, most significant digit first.
pub open spec fn dec_str(n: nat) -> Seq<char>
    decreases n,
{
    if n < 10 {
        seq![dec_digit_spec(n as int)]
    } else {
        dec_str(n / 10).push(dec_digit_spec(n as int % 10))
    }
}

/// The decimal spelling of a 64-bit natural number.
pub fn u64_to_dec(n: u64) -> (s: String)
    ensures
        s@ == dec_str(n as nat),
    decreases n,
{
    if n < 10 {
        let mut s = String::new();
        push_char(&mut s, dec_digit(n));
        s
    } else {
        let mut s = u64_to_dec(n / 10);
        push_char(&mut s, dec_digit(n % 10));
        s
    }
}

/// Four zero-padded decimal digits of a value below ten thousand.
pub open spec fn pad4_str(n: int) -> Seq<char> {
    seq![
        dec_digit_spec(n / 1000),
        dec_digit_spec((n / 100) % 10),
        dec_digit_spec((n / 10) % 10),
        dec_digit_spec(n % 10),
    ]
}

/// The decimal spelling of a fixed-point value: an optional minus sign,
/// the whole part, a point, and exactly four fractional digits
/// (truncated).
pub open spec fn fx_str(v: int) -> Seq<char> {
    let mag = iabs(v);
    let whole = mag / (FX_SCALE as int);
    let frac = (mag % (FX_SCALE as int)) * 10000 / (FX_SCALE as int);
    let body = dec_str(whole as nat) + seq!['.'] + pad4_str(frac);
    if v < 0 {
        seq!['-'] + body
    } else {
        body
    }
}

/// The decimal spelling of a fixed-point value.
pub fn fx_to_string(v: Fx) -> (s: String)
    ensures
        s@ == fx_str(v@),
{
    let mag: u64 = if v.bits < 0 {
        (-(v.bits as i128)) as u64
    } else {
        v.bits as u64
    };
    let whole: u64 = mag / 65536;
    let fbits: u64 = mag % 65536;
    let frac: u64 = fbits * 10000 / 65536;
    let mut s = String::new();
    if v.bits < 0 {
        push_char(&mut s, '-');
    }
    let whole_str = u64_to_dec(whole);
    push_str(&mut s, whole_str.as_str());
    push_char(&mut s, '.');
    proof {
        vstd::arithmetic::div_mod::lemma_div_pos_is_pos((fbits * 10000) as int, FX_SCALE as int);
        vstd::arithmetic::div_mod::lemma_div_is_ordered(
            (fbits * 10000) as int,
            (65535 * 10000) as int,
            FX_SCALE as int,
        );
    }
    push_char(&mut s, dec_digit(frac / 1000));
    push_char(&mut s, dec_digit((frac / 100) % 10));
    push_char(&mut s, dec_digit((frac / 10) % 10));
    push_char(&mut s, dec_digit(frac % 10));
    proof {
        assert(s@ =~= fx_str(v@));
    }
    s
}

} // verus!
