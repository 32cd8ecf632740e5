//! Order and classification of IEEE-754 binary64 values, read off their bit
//! patterns.
//!
//! A pattern is a sign bit followed by 63 bits of magnitude. Magnitudes above
//! that of infinity are NaNs. Among the others, the numeric order is the order
//! of the magnitudes for positive values and its reverse for negative ones,
//! and the two zeros are equal.

use vstd::prelude::*;

verus! {

/// The sign bit of a pattern.
pub const SIGN_BIT: u64 = 0x8000_0000_0000_0000;

/// The pattern of positive infinity: all exponent bits set, no fraction bit.
pub const INFINITY: u64 = 0x7FF0_0000_0000_0000;

/// The pattern of negative infinity.
pub const NEG_INFINITY: u64 = 0xFFF0_0000_0000_0000;

/// The pattern without its sign bit.
pub open spec fn magnitude(bits: u64) -> int {
    if bits >= SIGN_BIT {
        bits - SIGN_BIT
    } else {
        bits as int
    }
}

/// The pattern stands for no number.
pub open spec fn nan(bits: u64) -> bool {
    magnitude(bits) > INFINITY
}

/// The pattern stands for positive or negative infinity.
pub open spec fn infinite(bits: u64) -> bool {
    magnitude(bits) == INFINITY
}

/// The pattern stands for a number that is neither infinite nor NaN.
pub open spec fn finite(bits: u64) -> bool {
    magnitude(bits) < INFINITY
}

/// An integer that grows with the value a pattern stands for. Both zeros have
/// rank 0; the ranks of NaNs mean nothing.
pub open spec fn rank(bits: u64) -> int {
    if bits >= SIGN_BIT {
        -magnitude(bits)
    } else {
        magnitude(bits)
    }
}

/// `a < b` as binary64 values: false as soon as one of them is NaN.
pub open spec fn lt(a: u64, b: u64) -> bool {
    !nan(a) && !nan(b) && rank(a) < rank(b)
}

/// `a >= b` as binary64 values: false as soon as one of them is NaN.
pub open spec fn ge(a: u64, b: u64) -> bool {
    !nan(a) && !nan(b) && rank(a) >= rank(b)
}

/// The larger of two values, where a NaN loses against anything else and the
/// first wins a tie.
pub open spec fn max_of(a: u64, b: u64) -> u64 {
    if nan(a) {
        b
    } else if lt(a, b) {
        b
    } else {
        a
    }
}

/// The smaller of two values, where a NaN loses against anything else and the
/// first wins a tie.
pub open spec fn min_of(a: u64, b: u64) -> u64 {
    if nan(a) {
        b
    } else if lt(b, a) {
        b
    } else {
        a
    }
}

fn magnitude_of(bits: u64) -> (m: u64)
    ensures
        m == magnitude(bits),
{
    if bits >= SIGN_BIT {
        bits - SIGN_BIT
    } else {
        bits
    }
}

/// Tells whether the pattern is a NaN.
pub fn is_nan(bits: u64) -> (r: bool)
    ensures
        r == nan(bits),
{
    magnitude_of(bits) > INFINITY
}

/// Tells whether the pattern is an infinity.
pub fn is_infinite(bits: u64) -> (r: bool)
    ensures
        r == infinite(bits),
{
    magnitude_of(bits) == INFINITY
}

/// Tells whether the pattern is a finite number.
pub fn is_finite(bits: u64) -> (r: bool)
    ensures
        r == finite(bits),
{
    magnitude_of(bits) < INFINITY
}

/// Compares two patterns as the values they stand for.
pub fn less_than(a: u64, b: u64) -> (r: bool)
    ensures
        r == lt(a, b),
{
    if is_nan(a) || is_nan(b) {
        return false;
    }
    let ma: u64 = magnitude_of(a);
    let mb: u64 = magnitude_of(b);
    if a >= SIGN_BIT {
        if b >= SIGN_BIT {
            mb < ma
        } else {
            ma > 0 || mb > 0
        }
    } else {
        if b >= SIGN_BIT {
            false
        } else {
            ma < mb
        }
    }
}

/// Tells whether the first value is at least the second.
pub fn at_least(a: u64, b: u64) -> (r: bool)
    ensures
        r == ge(a, b),
{
    if is_nan(a) || is_nan(b) {
        return false;
    }
    !less_than(a, b)
}

/// The larger of two patterns; see [`max_of`].
pub fn max_ignoring_nan(a: u64, b: u64) -> (r: u64)
    ensures
        r == max_of(a, b),
{
    if is_nan(a) {
        b
    } else if less_than(a, b) {
        b
    } else {
        a
    }
}

/// The smaller of two patterns; see [`min_of`].
pub fn min_ignoring_nan(a: u64, b: u64) -> (r: u64)
    ensures
        r == min_of(a, b),
{
    if is_nan(a) {
        b
    } else if less_than(b, a) {
        b
    } else {
        a
    }
}

} // verus!
