//! Signed decimal fixed-point numbers with saturating arithmetic.
//!
//! A [`Fixed`] holds a whole number of millionths in an `i64`. Its view is that
//! raw number as an `int`; the spec functions `fx_*` say on raw numbers what
//! each operation computes. No operation overflows or panics: a result that
//! does not fit is the nearest representable number, and quotients are rounded
//! toward zero.

use crate::numeric::{
    abs_i64, clamp_between, clamp_i64, is_positive_i64, magnitude, zero_i64,
};
use vstd::prelude::*;

verus! {

/// Raw units per whole: the raw value of one.
pub const SCALE: i64 = 1_000_000;

/// `x` brought into the range of the raw values.
pub open spec fn saturate(x: int) -> int {
    clamp_between(x, i64::MIN as int, i64::MAX as int)
}

/// The quotient of `x` by `d`, rounded toward zero.
pub open spec fn quotient_toward_zero(x: int, d: int) -> int
    recommends
        d != 0,
{
    let q = magnitude(x) / magnitude(d);
    if (x < 0) != (d < 0) {
        -q
    } else {
        q
    }
}

/// Raw value of a sum.
pub open spec fn fx_add(a: int, b: int) -> int {
    saturate(a + b)
}

/// Raw value of a difference.
pub open spec fn fx_sub(a: int, b: int) -> int {
    saturate(a - b)
}

/// Raw value of a negation.
pub open spec fn fx_neg(a: int) -> int {
    saturate(-a)
}

/// Raw value of an absolute value.
pub open spec fn fx_abs(a: int) -> int {
    saturate(magnitude(a))
}

/// Raw value of a product: the exact product of the raw values, scaled back.
pub open spec fn fx_mul(a: int, b: int) -> int {
    saturate(quotient_toward_zero(a * b, SCALE as int))
}

/// Raw value of a quotient: the scaled dividend over the divisor.
pub open spec fn fx_div(a: int, b: int) -> int
    recommends
        b != 0,
{
    saturate(quotient_toward_zero(a * SCALE, b))
}

/// The magnitude and the sign of a product follow from those of its factors.
pub proof fn lemma_product_parts(a: int, b: int)
    ensures
        magnitude(a * b) == magnitude(a) * magnitude(b),
        (a * b < 0) == ((a < 0) != (b < 0) && a != 0 && b != 0),
        (a * b == 0) == (a == 0 || b == 0),
{
    assert(magnitude(a * b) == magnitude(a) * magnitude(b)) by (nonlinear_arith);
    assert((a * b < 0) == ((a < 0) != (b < 0) && a != 0 && b != 0)) by (nonlinear_arith);
    assert((a * b == 0) == (a == 0 || b == 0)) by (nonlinear_arith);
}

/// Multiplying by zero gives zero, on either side.
pub proof fn lemma_mul_zero(a: int)
    ensures
        fx_mul(0, a) == 0,
        fx_mul(a, 0) == 0,
{
    lemma_product_parts(0, a);
    lemma_product_parts(a, 0);
}

/// A signed decimal fixed-point number: `raw` millionths.
#[derive(Clone, Copy, Debug, PartialEq, Eq, Structural, PartialOrd, Ord, Hash)]
pub struct Fixed {
    pub raw: i64,
}

impl View for Fixed {
    type V = int;

    open spec fn view(&self) -> int {
        self.raw as int
    }
}

fn narrow(x: i128) -> (r: i64)
    ensures
        r == saturate(x as int),
{
    if x > i64::MAX as i128 {
        i64::MAX
    } else if x < i64::MIN as i128 {
        i64::MIN
    } else {
        x as i64
    }
}

fn magnitude_of(x: i64) -> (m: u64)
    ensures
        m == magnitude(x as int),
{
    if x == i64::MIN {
        0x8000_0000_0000_0000u64
    } else {
        abs_i64(x) as u64
    }
}

fn with_sign(q: u128, negative: bool) -> (r: i64)
    ensures
        r == saturate(
            if negative {
                -(q as int)
            } else {
                q as int
            },
        ),
{
    if negative {
        if q >= 0x8000_0000_0000_0000u128 {
            i64::MIN
        } else {
            -(q as i64)
        }
    } else {
        if q > i64::MAX as u128 {
            i64::MAX
        } else {
            q as i64
        }
    }
}

impl Fixed {
    /// The number of `raw` millionths.
    pub fn from_raw(raw: i64) -> (r: Fixed)
        ensures
            r@ == raw,
    {
        Fixed { raw }
    }

    /// The raw value: this number in millionths.
    pub fn raw(self) -> (r: i64)
        ensures
            r == self@,
    {
        self.raw
    }

    /// Zero.
    pub fn zero() -> (r: Fixed)
        ensures
            r@ == 0,
    {
        Fixed { raw: zero_i64() }
    }

    /// One.
    pub fn one() -> (r: Fixed)
        ensures
            r@ == SCALE,
    {
        Fixed { raw: SCALE }
    }

    /// The whole number `n`, saturated.
    pub fn from_int(n: i64) -> (r: Fixed)
        ensures
            r@ == saturate(n * SCALE),
    {
        assert(-0x8000_0000_0000_0000 * 1_000_000 <= n * 1_000_000 <= 0x7fff_ffff_ffff_ffff
            * 1_000_000);
        Fixed { raw: narrow((n as i128) * (SCALE as i128)) }
    }

    /// The ratio of `numerator` to `denominator`, rounded toward zero.
    pub fn from_ratio(numerator: i64, denominator: i64) -> (r: Fixed)
        requires
            denominator != 0,
        ensures
            r@ == fx_div(numerator as int, denominator as int),
    {
        Fixed { raw: numerator }.saturating_div(Fixed { raw: denominator })
    }

    /// The sum, saturated.
    pub fn saturating_add(self, other: Fixed) -> (r: Fixed)
        ensures
            r@ == fx_add(self@, other@),
    {
        Fixed { raw: narrow((self.raw as i128) + (other.raw as i128)) }
    }

    /// The difference, saturated.
    pub fn saturating_sub(self, other: Fixed) -> (r: Fixed)
        ensures
            r@ == fx_sub(self@, other@),
    {
        Fixed { raw: narrow((self.raw as i128) - (other.raw as i128)) }
    }

    /// The negation, saturated.
    pub fn saturating_neg(self) -> (r: Fixed)
        ensures
            r@ == fx_neg(self@),
    {
        Fixed { raw: narrow(-(self.raw as i128)) }
    }

    /// The absolute value, saturated.
    pub fn saturating_abs(self) -> (r: Fixed)
        ensures
            r@ == fx_abs(self@),
            r@ >= 0,
    {
        if self.raw == i64::MIN {
            Fixed { raw: i64::MAX }
        } else {
            Fixed { raw: abs_i64(self.raw) }
        }
    }

    /// The product, rounded toward zero and saturated.
    pub fn saturating_mul(self, other: Fixed) -> (r: Fixed)
        ensures
            r@ == fx_mul(self@, other@),
    {
        let ma: u128 = magnitude_of(self.raw) as u128;
        let mb: u128 = magnitude_of(other.raw) as u128;
        assert(ma * mb <= 0x8000_0000_0000_0000 * 0x8000_0000_0000_0000) by (nonlinear_arith)
            requires
                0 <= ma <= 0x8000_0000_0000_0000,
                0 <= mb <= 0x8000_0000_0000_0000,
        ;
        let q: u128 = (ma * mb) / (SCALE as u128);
        let negative = (self.raw < 0) != (other.raw < 0);
        proof {
            lemma_product_parts(self@, other@);
        }
        Fixed { raw: with_sign(q, negative) }
    }

    /// The quotient, rounded toward zero and saturated.
    pub fn saturating_div(self, other: Fixed) -> (r: Fixed)
        requires
            other@ != 0,
        ensures
            r@ == fx_div(self@, other@),
    {
        let ma: u128 = magnitude_of(self.raw) as u128;
        let mb: u128 = magnitude_of(other.raw) as u128;
        assert(ma * (SCALE as u128) <= 0x8000_0000_0000_0000 * 1_000_000) by (nonlinear_arith)
            requires
                0 <= ma <= 0x8000_0000_0000_0000,
                SCALE == 1_000_000,
        ;
        let q: u128 = (ma * (SCALE as u128)) / mb;
        let negative = (self.raw < 0) != (other.raw < 0);
        proof {
            lemma_product_parts(self@, SCALE as int);
        }
        Fixed { raw: with_sign(q, negative) }
    }

    /// This number limited to the range from `lo` to `hi`.
    pub fn clamp_to(self, lo: Fixed, hi: Fixed) -> (r: Fixed)
        requires
            lo@ <= hi@,
        ensures
            r@ == clamp_between(self@, lo@, hi@),
    {
        Fixed { raw: clamp_i64(self.raw, lo.raw, hi.raw) }
    }

    /// Whether this number is above zero.
    pub fn is_positive(self) -> (r: bool)
        ensures
            r == (self@ > 0),
    {
        is_positive_i64(self.raw)
    }
}

} // verus!
