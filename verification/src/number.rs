//! Numbers of the query language and their order.
//!
//! A JSON number compares by the IEEE-754 binary64 value that it reads as.
//! That value is handled by its 64-bit pattern: among finite values the
//! bit patterns of non-negative numbers increase with the value and those
//! of negative numbers decrease with it, and the two zeros are equal.
use vstd::prelude::*;

verus! {

/// The bit pattern of the finite binary64 value that `str::parse` reads
/// from a text (as `serde_json::Number::from_f64` keeps it); `None` when the
/// text reads as no number, or as an infinite or NaN value.
pub uninterp spec fn decimal_bits(text: Seq<char>) -> Option<u64>;

/// Parses a text as a binary64 value with `str::parse`, keeps it only when
/// `serde_json::Number::from_f64` accepts it (finite), and returns the bit
/// pattern of the number's value. The value itself is named, not stated;
/// the contract adds what `from_f64` documents: an accepted value is finite
/// (its exponent field is not all ones).
#[verifier::external_body]
pub(crate) fn finite_number_bits(text: &str) -> (r: Option<u64>)
    ensures
        r == decimal_bits(text@),
        r matches Some(b) ==> (b / 0x10_0000_0000_0000) % 0x800 != 0x7ff,
{
    text.parse().ok().and_then(serde_json::Number::from_f64).and_then(|n| n.as_f64()).map(
        |x| x.to_bits(),
    )
}

/// Sign bit of a bit pattern.
pub open spec fn bits_negative(b: u64) -> bool {
    b / 0x8000_0000_0000_0000 == 1
}

/// Magnitude bits of a bit pattern.
pub open spec fn bits_magnitude(b: u64) -> int {
    (b % 0x8000_0000_0000_0000) as int
}

/// An integer that orders finite binary64 values as their values do:
/// zero for both zeros, the magnitude bits for positive values, their
/// negation for negative ones.
pub open spec fn number_key(b: u64) -> int {
    if bits_negative(b) {
        -bits_magnitude(b)
    } else {
        bits_magnitude(b)
    }
}

/// Three-way comparison of two finite binary64 values given by their bits:
/// -1, 0 or 1.
pub open spec fn compare_bits(a: u64, b: u64) -> int {
    if number_key(a) < number_key(b) {
        -1
    } else if number_key(a) == number_key(b) {
        0
    } else {
        1
    }
}

/// Three-way comparison of two finite binary64 values given by their bits.
pub fn compare_number_bits(a: u64, b: u64) -> (r: i8)
    ensures
        r as int == compare_bits(a, b),
{
    let na = a / 0x8000_0000_0000_0000 == 1;
    let nb = b / 0x8000_0000_0000_0000 == 1;
    let ma = a % 0x8000_0000_0000_0000;
    let mb = b % 0x8000_0000_0000_0000;
    if na && nb {
        if ma > mb {
            -1
        } else if ma == mb {
            0
        } else {
            1
        }
    } else if na {
        if ma == 0 && mb == 0 {
            0
        } else {
            -1
        }
    } else if nb {
        if ma == 0 && mb == 0 {
            0
        } else {
            1
        }
    } else {
        if ma < mb {
            -1
        } else if ma == mb {
            0
        } else {
            1
        }
    }
}

} // verus!
