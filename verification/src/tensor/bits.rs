//! Tests on IEEE-754 binary32 values that can be decided on their bit patterns.
use vstd::prelude::*;

verus! {

/// Bit pattern of positive zero.
pub const ZERO_BITS: u32 = 0;

/// Bit pattern of one.
pub const ONE_BITS: u32 = 0x3f80_0000;

/// Bit pattern of two.
pub const TWO_BITS: u32 = 0x4000_0000;

/// Bit pattern of minus one.
pub const MINUS_ONE_BITS: u32 = 0xbf80_0000;

/// Bit pattern of positive infinity: the largest one that is not a NaN.
pub const INFINITY_BITS: u32 = 0x7f80_0000;

/// The weight of the sign bit.
pub const SIGN_BIT: u32 = 0x8000_0000;

/// The bits of `value` without its sign.
pub open spec fn magnitude(value: u32) -> u32 {
    if value < SIGN_BIT {
        value
    } else {
        (value - SIGN_BIT) as u32
    }
}

/// `value` is a NaN.
pub open spec fn nan(value: u32) -> bool {
    magnitude(value) > INFINITY_BITS
}

/// `value` is neither infinite nor a NaN.
pub open spec fn finite(value: u32) -> bool {
    magnitude(value) < INFINITY_BITS
}

/// `value > 0`. False of both zeros and of every NaN.
pub open spec fn positive(value: u32) -> bool {
    0 < value <= INFINITY_BITS
}

/// `left == right` as floating-point numbers: the zeros are equal, a NaN equals nothing.
pub open spec fn numerically_equal(left: u32, right: u32) -> bool {
    !nan(left) && !nan(right) && (left == right || (magnitude(left) == 0 && magnitude(right) == 0))
}

/// `-value`: the sign bit is flipped, whatever the value.
pub open spec fn negated(value: u32) -> u32 {
    if value < SIGN_BIT {
        (value + SIGN_BIT) as u32
    } else {
        (value - SIGN_BIT) as u32
    }
}

/// Whether `value` is neither infinite nor a NaN.
pub fn is_finite(value: u32) -> (answer: bool)
    ensures
        answer == finite(value),
{
    if value < SIGN_BIT {
        value < INFINITY_BITS
    } else {
        value - SIGN_BIT < INFINITY_BITS
    }
}

/// Whether `value > 0`.
pub fn is_positive(value: u32) -> (answer: bool)
    ensures
        answer == positive(value),
{
    0 < value && value <= INFINITY_BITS
}

/// Whether `left == right` as floating-point numbers.
pub fn equal(left: u32, right: u32) -> (answer: bool)
    ensures
        answer == numerically_equal(left, right),
{
    let left_magnitude: u32 = if left < SIGN_BIT { left } else { left - SIGN_BIT };
    let right_magnitude: u32 = if right < SIGN_BIT { right } else { right - SIGN_BIT };
    left_magnitude <= INFINITY_BITS && right_magnitude <= INFINITY_BITS && (left == right || (
    left_magnitude == 0 && right_magnitude == 0))
}

/// `-value`.
pub fn negate(value: u32) -> (result: u32)
    ensures
        result == negated(value),
{
    if value < SIGN_BIT {
        value + SIGN_BIT
    } else {
        value - SIGN_BIT
    }
}

/// Negation undoes itself and keeps a value finite.
pub proof fn law_negation_is_an_involution(value: u32)
    ensures
        negated(negated(value)) == value,
        finite(negated(value)) == finite(value),
{
}

/// A value equals itself exactly when it is not a NaN, and equality is symmetric.
pub proof fn law_equality_excludes_nan(left: u32, right: u32)
    ensures
        numerically_equal(left, left) == !nan(left),
        numerically_equal(left, right) == numerically_equal(right, left),
{
}

} // verus!
