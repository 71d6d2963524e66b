//! IEEE-754 double comparison over bit patterns.
//!
//! A price is carried as the 64-bit pattern of a double: bit 63 is the sign,
//! bits 52..62 the biased exponent, bits 0..51 the mantissa. The scan only ever
//! asks how two prices compare, so that comparison is defined here over the bit
//! patterns and proved against executable integer code: NaN compares with
//! nothing, the two zeros are equal, negatives sort below positives, and within
//! one sign values order by their magnitude bits (descending for negatives).

use vstd::prelude::*;

verus! {

/// Sign bit of a double's bit pattern: set means the value is negative.
pub open spec fn f64_sign_negative(bits: u64) -> bool {
    bits >= 0x8000_0000_0000_0000
}

/// The 63 magnitude bits of a double's bit pattern: biased exponent and
/// mantissa, with the sign bit cleared.
pub open spec fn f64_magnitude(bits: u64) -> u64 {
    if bits >= 0x8000_0000_0000_0000 {
        (bits - 0x8000_0000_0000_0000) as u64
    } else {
        bits
    }
}

/// A double is NaN exactly when its biased exponent is all ones and its
/// mantissa is non-zero, i.e. when its magnitude bits lie strictly above the
/// pattern of positive infinity.
pub open spec fn f64_is_nan(bits: u64) -> bool {
    f64_magnitude(bits) > 0x7FF0_0000_0000_0000
}

/// IEEE-754 `<` on doubles given as bit patterns. False when either operand is
/// NaN and when both operands are zeros; otherwise a negative sorts below a
/// non-negative, and two values of one sign order by magnitude, reversed for
/// negatives. For same-sign finite or infinite doubles this magnitude order is
/// exactly the numeric order.
pub open spec fn f64_lt(a: u64, b: u64) -> bool {
    if f64_is_nan(a) || f64_is_nan(b) {
        false
    } else if f64_magnitude(a) == 0 && f64_magnitude(b) == 0 {
        false
    } else if f64_sign_negative(a) && f64_sign_negative(b) {
        f64_magnitude(b) < f64_magnitude(a)
    } else if f64_sign_negative(a) {
        true
    } else if f64_sign_negative(b) {
        false
    } else {
        f64_magnitude(a) < f64_magnitude(b)
    }
}

/// The sign of the move between two consecutive prices.
#[derive(Clone, Copy, PartialEq, Eq, Structural, Debug)]
pub enum Direction {
    Flat,
    Up,
    Down,
}

/// Direction of the step from `prev` to `cur`: `Up` on a strict rise, `Down` on
/// a strict fall, `Flat` otherwise — so any comparison against NaN yields
/// `Flat`.
pub open spec fn direction_of(prev: u64, cur: u64) -> Direction {
    if f64_lt(prev, cur) {
        Direction::Up
    } else if f64_lt(cur, prev) {
        Direction::Down
    } else {
        Direction::Flat
    }
}

/// Magnitude bits of a double's bit pattern.
fn magnitude(bits: u64) -> (m: u64)
    ensures
        m == f64_magnitude(bits),
{
    if bits >= 0x8000_0000_0000_0000 {
        bits - 0x8000_0000_0000_0000
    } else {
        bits
    }
}

/// Whether a double's bit pattern is a NaN.
pub fn is_nan_bits(bits: u64) -> (r: bool)
    ensures
        r == f64_is_nan(bits),
{
    magnitude(bits) > 0x7FF0_0000_0000_0000
}

/// IEEE-754 `<` on doubles, computed on their bit patterns.
pub fn price_lt(a: u64, b: u64) -> (r: bool)
    ensures
        r == f64_lt(a, b),
{
    if is_nan_bits(a) || is_nan_bits(b) {
        false
    } else {
        let ma = magnitude(a);
        let mb = magnitude(b);
        if ma == 0 && mb == 0 {
            false
        } else if a >= 0x8000_0000_0000_0000 && b >= 0x8000_0000_0000_0000 {
            mb < ma
        } else if a >= 0x8000_0000_0000_0000 {
            true
        } else if b >= 0x8000_0000_0000_0000 {
            false
        } else {
            ma < mb
        }
    }
}

/// Direction of the step from `prev` to `cur`.
pub fn get_direction(prev: u64, cur: u64) -> (d: Direction)
    ensures
        d == direction_of(prev, cur),
{
    if price_lt(prev, cur) {
        Direction::Up
    } else if price_lt(cur, prev) {
        Direction::Down
    } else {
        Direction::Flat
    }
}

} // verus!
