//! Decimal text rendering of the heap's live elements, offered as a
//! debugging aid.

use vstd::prelude::*;

verus! {

/// The slot value that the legacy textual rendering treats as an empty
/// marker and therefore skips.
pub const LEGACY_SENTINEL: i32 = 1000;

/// The decimal digit character for `d`.
pub open spec fn digit_char(d: int) -> char {
    if d == 0 {
        '0'
    } else if d == 1 {
        '1'
    } else if d == 2 {
        '2'
    } else if d == 3 {
        '3'
    } else if d == 4 {
        '4'
    } else if d == 5 {
        '5'
    } else if d == 6 {
        '6'
    } else if d == 7 {
        '7'
    } else if d == 8 {
        '8'
    } else {
        '9'
    }
}

/// The decimal digits of a non-negative integer, most significant first.
pub open spec fn dec_digits(n: int) -> Seq<char>
    decreases n,
{
    if n < 10 {
        seq![digit_char(n)]
    } else {
        dec_digits(n / 10).push(digit_char(n % 10))
    }
}

/// The decimal rendering of an integer: its digits, preceded by a minus
/// sign when it is negative.
pub open spec fn decimal_of(x: int) -> Seq<char> {
    if x < 0 {
        seq!['-'] + dec_digits(-x)
    } else {
        dec_digits(x)
    }
}

/// The rendering of the values of `s` in order, each preceded by one
/// space, skipping values equal to the legacy sentinel.
pub open spec fn rendered(s: Seq<i32>) -> Seq<char>
    decreases s.len(),
{
    if s.len() == 0 {
        Seq::empty()
    } else if s.last() == LEGACY_SENTINEL {
        rendered(s.drop_last())
    } else {
        rendered(s.drop_last()) + seq![' '] + decimal_of(s.last() as int)
    }
}

/// Relies on i32's Display implementation, through std's ToString: the
/// decimal digits of the value, with a leading minus sign when it is
/// negative.
#[verifier::external_body]
pub(crate) fn i32_decimal(x: i32) -> (r: String)
    ensures
        r@ == decimal_of(x as int),
{
    x.to_string()
}

} // verus!
