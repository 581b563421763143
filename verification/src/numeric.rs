//! The integer primitives that the fixed-point arithmetic takes from
//! `num_traits`. Their contracts are stated here and taken on trust; everything
//! built on them is proved.

use vstd::prelude::*;

verus! {

/// `x` limited to the range from `lo` to `hi`.
pub open spec fn clamp_between(x: int, lo: int, hi: int) -> int {
    if x < lo {
        lo
    } else if x > hi {
        hi
    } else {
        x
    }
}

/// The distance of `x` from zero.
pub open spec fn magnitude(x: int) -> int {
    if x < 0 {
        -x
    } else {
        x
    }
}

/// Calls `num_traits::zero` for a 64-bit integer: the additive identity, zero.
#[verifier::external_body]
pub(crate) fn zero_i64() -> (r: i64)
    ensures
        r == 0,
{
    num_traits::zero()
}

/// Calls `num_traits::clamp` on 64-bit integers. The contract restates its
/// documentation: below `min` it gives `min`, above `max` it gives `max`,
/// otherwise the input. The bounds must be ordered, since the outside function
/// checks that in debug builds.
#[verifier::external_body]
pub(crate) fn clamp_i64(input: i64, min: i64, max: i64) -> (r: i64)
    requires
        min <= max,
    ensures
        r == clamp_between(input as int, min as int, max as int),
{
    num_traits::clamp(input, min, max)
}

/// Calls `num_traits::abs` on a 64-bit integer. The least value is left out:
/// its negation does not fit, and the outside function overflows on it.
#[verifier::external_body]
pub(crate) fn abs_i64(value: i64) -> (r: i64)
    requires
        value > i64::MIN,
    ensures
        r == magnitude(value as int),
{
    num_traits::abs(value)
}

/// Calls `num_traits::Signed::is_positive` on a 64-bit integer: true exactly
/// for values above zero.
#[verifier::external_body]
pub(crate) fn is_positive_i64(value: i64) -> (r: bool)
    ensures
        r == (value > 0),
{
    num_traits::Signed::is_positive(&value)
}

/// Calls `num_traits::FromPrimitive::from_usize` for `u128`. Every `usize`
/// fits, so the conversion always succeeds and keeps the value.
#[verifier::external_body]
pub(crate) fn wide_from_usize(n: usize) -> (r: Option<u128>)
    ensures
        r == Some(n as u128),
{
    num_traits::FromPrimitive::from_usize(n)
}

} // verus!
