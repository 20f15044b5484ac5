//! Building text: decimal and hexadecimal digits appended to strings.

use vstd::prelude::*;

verus! {

/// The ASCII digit for `d` (0..=9).
pub open spec fn digit_char(d: nat) -> char {
    ((48 + d) as u8) as char
}

/// The lower-case hexadecimal digit for `d` (0..=15).
pub open spec fn hex_lower_char(d: nat) -> char {
    if d < 10 {
        ((48 + d) as u8) as char
    } else {
        ((87 + d) as u8) as char
    }
}

/// The upper-case hexadecimal digit for `d` (0..=15).
pub open spec fn hex_upper_char(d: nat) -> char {
    if d < 10 {
        ((48 + d) as u8) as char
    } else {
        ((55 + d) as u8) as char
    }
}

/// Decimal digits of `n`, without leading zeros (`"0"` for zero).
pub open spec fn dec(n: nat) -> Seq<char>
    decreases n,
{
    if n < 10 {
        seq![digit_char(n)]
    } else {
        dec(n / 10).push(digit_char(n % 10))
    }
}

/// Decimal digits of `n`, left-padded with zeros to at least two digits.
pub open spec fn dec2(n: nat) -> Seq<char> {
    if n < 10 {
        seq!['0', digit_char(n)]
    } else {
        dec(n)
    }
}

/// Upper-case hexadecimal digits of `n`, without leading zeros.
pub open spec fn hex_upper(n: nat) -> Seq<char>
    decreases n,
{
    if n < 16 {
        seq![hex_upper_char(n)]
    } else {
        hex_upper(n / 16).push(hex_upper_char(n % 16))
    }
}

/// Two lower-case hexadecimal digits of a byte.
pub open spec fn hex2_lower(b: u8) -> Seq<char> {
    seq![hex_lower_char(b as nat / 16), hex_lower_char(b as nat % 16)]
}

/// Two upper-case hexadecimal digits of a byte.
pub open spec fn hex2_upper(b: u8) -> Seq<char> {
    seq![hex_upper_char(b as nat / 16), hex_upper_char(b as nat % 16)]
}

/// Appends one character (`String::push`).
#[verifier::external_body]
pub fn push_char(s: &mut String, c: char)
    ensures
        final(s)@ == old(s)@.push(c),
{
    s.push(c);
}

/// Compares two string slices (`str == str`).
#[verifier::external_body]
pub fn str_equal(a: &str, b: &str) -> (r: bool)
    ensures
        r == (a@ == b@),
{
    a == b
}

/// Appends the decimal digits of `n`.
pub fn push_dec(s: &mut String, n: u64)
    ensures
        final(s)@ == old(s)@ + dec(n as nat),
    decreases n,
{
    if n >= 10 {
        push_dec(s, n / 10);
    }
    let d = (n % 10) as u8;
    push_char(s, (48u8 + d) as char);
    assert(final(s)@ =~= old(s)@ + dec(n as nat));
}

/// Appends the decimal digits of `n`, padded to at least two digits.
pub fn push_dec2(s: &mut String, n: u64)
    ensures
        final(s)@ == old(s)@ + dec2(n as nat),
{
    if n < 10 {
        push_char(s, '0');
        push_char(s, (48u8 + n as u8) as char);
        assert(final(s)@ =~= old(s)@ + dec2(n as nat));
    } else {
        push_dec(s, n);
    }
}

/// Appends the upper-case hexadecimal digits of `n`.
pub fn push_hex_upper(s: &mut String, n: u64)
    ensures
        final(s)@ == old(s)@ + hex_upper(n as nat),
    decreases n,
{
    if n >= 16 {
        push_hex_upper(s, n / 16);
    }
    let d = (n % 16) as u8;
    let c = if d < 10 { (48u8 + d) as char } else { (55u8 + d) as char };
    push_char(s, c);
    assert(final(s)@ =~= old(s)@ + hex_upper(n as nat));
}

/// Appends the two lower-case hexadecimal digits of `b`.
pub fn push_hex2_lower(s: &mut String, b: u8)
    ensures
        final(s)@ == old(s)@ + hex2_lower(b),
{
    let hi = b / 16;
    let lo = b % 16;
    let c1 = if hi < 10 { (48u8 + hi) as char } else { (87u8 + hi) as char };
    let c2 = if lo < 10 { (48u8 + lo) as char } else { (87u8 + lo) as char };
    push_char(s, c1);
    push_char(s, c2);
    assert(final(s)@ =~= old(s)@ + hex2_lower(b));
}

/// Appends the two upper-case hexadecimal digits of `b`.
pub fn push_hex2_upper(s: &mut String, b: u8)
    ensures
        final(s)@ == old(s)@ + hex2_upper(b),
{
    let hi = b / 16;
    let lo = b % 16;
    let c1 = if hi < 10 { (48u8 + hi) as char } else { (55u8 + hi) as char };
    let c2 = if lo < 10 { (48u8 + lo) as char } else { (55u8 + lo) as char };
    push_char(s, c1);
    push_char(s, c2);
    assert(final(s)@ =~= old(s)@ + hex2_upper(b));
}

/// Appends the characters of a string slice.
pub fn push_text(s: &mut String, t: &str)
    ensures
        final(s)@ == old(s)@ + t@,
{
    s.append(t);
}

} // verus!
