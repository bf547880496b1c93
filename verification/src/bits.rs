//! Single-precision values as IEEE 754 bit patterns, and their order.
//!
//! A pattern has a sign bit (the top bit) and a 31-bit magnitude. Magnitudes
//! above that of infinity are NaN. Among the other patterns, the numeric order
//! of the values is the order of their signed magnitudes, and the two zeros
//! are equal.

use vstd::prelude::*;

verus! {

/// The sign bit.
pub const SIGN: u32 = 0x8000_0000;

/// Positive infinity.
pub const INFINITY: u32 = 0x7f80_0000;

/// Positive zero.
pub const ZERO: u32 = 0;

/// The value one.
pub const ONE: u32 = 0x3f80_0000;

/// One step of the exponent field.
pub const EXPONENT_STEP: u32 = 0x0080_0000;

/// The smallest magnitude whose half is still a normal number: exponent field
/// two, fraction zero.
pub const HALVES_EXACTLY: u32 = 0x0100_0000;

/// The pattern with its sign bit cleared.
pub open spec fn magnitude(b: u32) -> int {
    if b >= SIGN {
        b - SIGN
    } else {
        b as int
    }
}

/// Whether the pattern is not a number.
pub open spec fn is_nan(b: u32) -> bool {
    magnitude(b) > INFINITY
}

/// The signed magnitude: for patterns that are numbers, `rank` is monotone in
/// the value, and two patterns have the same rank exactly when their values
/// compare equal.
pub open spec fn rank(b: u32) -> int {
    if b >= SIGN {
        -magnitude(b)
    } else {
        b as int
    }
}

/// Numeric `<`: false as soon as either side is NaN.
pub open spec fn lt(a: u32, b: u32) -> bool {
    !is_nan(a) && !is_nan(b) && rank(a) < rank(b)
}

/// Numeric `<=`: false as soon as either side is NaN.
pub open spec fn le(a: u32, b: u32) -> bool {
    !is_nan(a) && !is_nan(b) && rank(a) <= rank(b)
}

/// A number that is not below zero (negative zero counts as zero).
pub open spec fn non_negative(b: u32) -> bool {
    !is_nan(b) && rank(b) >= 0
}

/// The smaller of two values; a NaN on one side yields the other side, and
/// `a` is kept when the two compare equal.
pub open spec fn min(a: u32, b: u32) -> u32 {
    if is_nan(a) || lt(b, a) {
        b
    } else {
        a
    }
}

/// Half of the integer `m`, rounded to the nearest integer and to the even one
/// on a tie.
pub open spec fn half_to_even(m: int) -> int {
    if m % 2 == 1 && (m / 2) % 2 == 1 {
        m / 2 + 1
    } else {
        m / 2
    }
}

/// The value divided by two, correctly rounded. NaN and the infinities are
/// their own halves. From `HALVES_EXACTLY` up, halving lowers the exponent by
/// one. Below that the result is subnormal (or the smallest normal number):
/// there the magnitude counts units of the smallest subnormal, so it is halved
/// as an integer, rounding to even. The sign is kept.
pub open spec fn half(b: u32) -> u32 {
    let m = magnitude(b);
    if m >= INFINITY {
        b
    } else if m >= HALVES_EXACTLY {
        (b - EXPONENT_STEP) as u32
    } else {
        (b - m + half_to_even(m)) as u32
    }
}

fn signed_magnitude(b: u32) -> (r: i64)
    ensures
        r == rank(b),
{
    if b >= SIGN {
        let m: u32 = b - SIGN;
        0 - (m as i64)
    } else {
        b as i64
    }
}

/// Tests whether a pattern is NaN.
pub fn nan(b: u32) -> (r: bool)
    ensures
        r == is_nan(b),
{
    if b >= SIGN {
        b - SIGN > INFINITY
    } else {
        b > INFINITY
    }
}

/// Numeric `a < b`.
pub fn less(a: u32, b: u32) -> (r: bool)
    ensures
        r == lt(a, b),
{
    !nan(a) && !nan(b) && signed_magnitude(a) < signed_magnitude(b)
}

/// Numeric `a <= b`.
pub fn less_or_equal(a: u32, b: u32) -> (r: bool)
    ensures
        r == le(a, b),
{
    !nan(a) && !nan(b) && signed_magnitude(a) <= signed_magnitude(b)
}

/// Tests whether a pattern is a number that is not below zero.
pub fn at_least_zero(b: u32) -> (r: bool)
    ensures
        r == non_negative(b),
{
    b <= INFINITY || b == SIGN
}

/// The smaller of two values, as `min` defines it.
pub fn minimum(a: u32, b: u32) -> (r: u32)
    ensures
        r == min(a, b),
{
    if nan(a) || less(b, a) {
        b
    } else {
        a
    }
}

/// The value divided by two, as `half` defines it.
pub fn halve(b: u32) -> (r: u32)
    ensures
        r == half(b),
{
    let sign: u32 = if b >= SIGN {
        SIGN
    } else {
        0
    };
    let m: u32 = b - sign;
    if m >= INFINITY {
        b
    } else if m >= HALVES_EXACTLY {
        b - EXPONENT_STEP
    } else {
        let q: u32 = m / 2;
        if m % 2 == 1 && q % 2 == 1 {
            sign + (q + 1)
        } else {
            sign + q
        }
    }
}

/// `lt` is irreflexive and transitive, and `le` is its reflexive closure on
/// numbers: the order that band lookup relies on.
pub proof fn lemma_order(a: u32, b: u32, c: u32)
    ensures
        !lt(a, a),
        lt(a, b) && lt(b, c) ==> lt(a, c),
        le(a, b) && lt(b, c) ==> lt(a, c),
        lt(a, b) ==> le(a, b) && !le(b, a),
        !is_nan(a) ==> le(a, a),
        !is_nan(a) && !is_nan(b) ==> (lt(a, b) || le(b, a)),
{
}

/// Halving keeps the sign and never moves a number away from zero; what is
/// above zero and not the smallest subnormal stays above zero.
pub proof fn lemma_half(b: u32)
    requires
        !is_nan(b),
    ensures
        !is_nan(half(b)),
        rank(b) >= 0 ==> 0 <= rank(half(b)) <= rank(b),
        rank(b) <= 0 ==> rank(b) <= rank(half(b)) <= 0,
        rank(b) > 1 ==> rank(half(b)) > 0,
{
}

} // verus!
