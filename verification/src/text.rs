//! Decimal text, as the standard formatter writes integers.
use vstd::prelude::*;

verus! {

/// The digit character of a number below ten.
pub open spec fn digit_char(d: nat) -> char {
    if d == 0 {
        '0'
    } else if d == 1 {
        '1'
    } else if d == 2 {
        '2'
    } else if d == 3 {
        '3'
    } else if d == 4 {
        '4'
    } else if d == 5 {
        '5'
    } else if d == 6 {
        '6'
    } else if d == 7 {
        '7'
    } else if d == 8 {
        '8'
    } else {
        '9'
    }
}

/// The decimal digits of a natural number, most significant first, without leading zeros.
pub open spec fn decimal_digits(n: nat) -> Seq<char>
    decreases n,
{
    if n < 10 {
        seq![digit_char(n)]
    } else {
        decimal_digits(n / 10).push(digit_char(n % 10))
    }
}

/// The decimal text of an integer: a minus sign before the digits of a negative one.
pub open spec fn decimal(v: int) -> Seq<char> {
    if v < 0 {
        seq!['-'] + decimal_digits((-v) as nat)
    } else {
        decimal_digits(v as nat)
    }
}

/// Text right-aligned in a field of at least `width` characters, padded with spaces.
pub open spec fn pad_left(s: Seq<char>, width: nat) -> Seq<char> {
    if s.len() >= width {
        s
    } else {
        Seq::new((width - s.len()) as nat, |i: int| ' ') + s
    }
}

/// `format!("{:width$}", value)`: the decimal text of an integer, right-aligned in a field of
/// `width` characters (integers align right by default and pad with spaces). A width given at
/// run time must fit in 16 bits, or formatting panics.
#[verifier::external_body]
pub(crate) fn format_padded(value: i32, width: usize) -> (r: String)
    requires
        width <= 65535,
    ensures
        r@ == pad_left(decimal(value as int), width as nat),
{
    format!("{:1$}", value, width)
}

} // verus!
