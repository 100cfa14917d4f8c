//! Small text helpers shared by the lexer, the parser diagnostics and the
//! display routines: appending a single character to a `String` and turning
//! integers into their decimal form.
use vstd::prelude::*;

verus! {

/// Relies on `String::push`: appends exactly the given character.
#[verifier::external_body]
pub fn push_char(s: &mut String, c: char)
    ensures
        final(s)@ == old(s)@.push(c),
{
    s.push(c);
}

/// The decimal digit character for `d` (meaningful for `0 <= d <= 9`).
pub open spec fn dec_digit(d: int) -> char {
    ((48 + d) as u8) as char
}

/// The decimal form of a non-negative number, most significant digit first.
pub open spec fn dec_nat(n: nat) -> Seq<char>
    decreases n,
{
    if n < 10 {
        seq![dec_digit(n as int)]
    } else {
        dec_nat(n / 10).push(dec_digit((n % 10) as int))
    }
}

/// The decimal form of a signed number, with a leading `-` when negative.
pub open spec fn dec_int(i: int) -> Seq<char> {
    if i < 0 {
        "-"@ + dec_nat((-i) as nat)
    } else {
        dec_nat(i as nat)
    }
}

pub fn dec_u128(n: u128) -> (r: String)
    ensures
        r@ == dec_nat(n as nat),
    decreases n,
{
    if n < 10 {
        let mut s = String::new();
        let d: u8 = 48 + (n as u8);
        push_char(&mut s, d as char);
        assert(s@ =~= seq![dec_digit(n as int)]);
        s
    } else {
        let mut s = dec_u128(n / 10);
        let d: u8 = 48 + ((n % 10) as u8);
        push_char(&mut s, d as char);
        s
    }
}

pub fn dec_usize(n: usize) -> (r: String)
    ensures
        r@ == dec_nat(n as nat),
{
    dec_u128(n as u128)
}

pub fn dec_isize(v: isize) -> (r: String)
    ensures
        r@ == dec_int(v as int),
{
    if v < 0 {
        let mut s = String::from_str("-");
        let m: u128 = (-(v as i128)) as u128;
        let digits = dec_u128(m);
        s.append(digits.as_str());
        s
    } else {
        dec_u128(v as u128)
    }
}

} // verus!
