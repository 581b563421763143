use nenya::fixed::{Fixed, SCALE};

/// The fixed-point number nearest to `x`.
fn fx(x: f64) -> Fixed {
    Fixed::from_raw((x * 1e6).round() as i64)
}

const MAX: Fixed = Fixed { raw: i64::MAX };
const MIN: Fixed = Fixed { raw: i64::MIN };

#[test]
fn one_is_a_million_raw_units() {
    assert_eq!(SCALE, 1_000_000);
    assert_eq!(Fixed::one().raw(), 1_000_000);
    assert_eq!(Fixed::zero().raw(), 0);
    assert_eq!(Fixed::from_raw(42).raw(), 42);
}

#[test]
fn whole_numbers_are_scaled_and_saturated() {
    assert_eq!(Fixed::from_int(3).raw(), 3_000_000);
    assert_eq!(Fixed::from_int(-7).raw(), -7_000_000);
    assert_eq!(Fixed::from_int(i64::MAX), MAX);
    assert_eq!(Fixed::from_int(i64::MIN), MIN);
    assert_eq!(Fixed::from_int(9_223_372_036_854), Fixed::from_raw(9_223_372_036_854_000_000));
    assert_eq!(Fixed::from_int(9_223_372_036_855), MAX);
}

#[test]
fn ratios_round_toward_zero() {
    assert_eq!(Fixed::from_ratio(1, 2).raw(), 500_000);
    assert_eq!(Fixed::from_ratio(1, 3).raw(), 333_333);
    assert_eq!(Fixed::from_ratio(-1, 3).raw(), -333_333);
    assert_eq!(Fixed::from_ratio(1, -3).raw(), -333_333);
    assert_eq!(Fixed::from_ratio(-2, -3).raw(), 666_666);
    assert_eq!(Fixed::from_ratio(0, -5).raw(), 0);
    assert_eq!(Fixed::from_ratio(i64::MAX, 1), MAX);
    assert_eq!(Fixed::from_ratio(i64::MIN, 1), MIN);
    assert_eq!(Fixed::from_ratio(i64::MIN, -1), MAX);
}

#[test]
fn sums_and_differences_saturate() {
    assert_eq!(fx(1.25).saturating_add(fx(2.5)), fx(3.75));
    assert_eq!(fx(1.25).saturating_sub(fx(2.5)), fx(-1.25));
    assert_eq!(MAX.saturating_add(Fixed::from_raw(1)), MAX);
    assert_eq!(MIN.saturating_add(Fixed::from_raw(-1)), MIN);
    assert_eq!(MIN.saturating_sub(Fixed::from_raw(1)), MIN);
    assert_eq!(MAX.saturating_sub(Fixed::from_raw(-1)), MAX);
    assert_eq!(MAX.saturating_add(MIN), Fixed::from_raw(-1));
    assert_eq!(MIN.saturating_sub(MIN), Fixed::zero());
}

#[test]
fn negation_and_absolute_value_saturate() {
    assert_eq!(fx(2.5).saturating_neg(), fx(-2.5));
    assert_eq!(fx(-2.5).saturating_neg(), fx(2.5));
    assert_eq!(MIN.saturating_neg(), MAX);
    assert_eq!(MAX.saturating_neg(), Fixed::from_raw(-i64::MAX));
    assert_eq!(fx(-3.0).saturating_abs(), fx(3.0));
    assert_eq!(fx(3.0).saturating_abs(), fx(3.0));
    assert_eq!(Fixed::zero().saturating_abs(), Fixed::zero());
    assert_eq!(MIN.saturating_abs(), MAX);
    assert_eq!(Fixed::from_raw(i64::MIN + 1).saturating_abs(), MAX);
}

#[test]
fn products_round_toward_zero_and_saturate() {
    assert_eq!(fx(1.5).saturating_mul(fx(2.5)), fx(3.75));
    assert_eq!(fx(-1.5).saturating_mul(fx(2.5)), fx(-3.75));
    assert_eq!(fx(1.5).saturating_mul(fx(-2.5)), fx(-3.75));
    assert_eq!(fx(-1.5).saturating_mul(fx(-2.5)), fx(3.75));
    assert_eq!(Fixed::from_raw(1).saturating_mul(fx(0.5)), Fixed::zero());
    assert_eq!(Fixed::from_raw(-1).saturating_mul(fx(0.5)), Fixed::zero());
    assert_eq!(Fixed::from_raw(3).saturating_mul(fx(0.5)), Fixed::from_raw(1));
    assert_eq!(Fixed::from_raw(-3).saturating_mul(fx(0.5)), Fixed::from_raw(-1));
    assert_eq!(MAX.saturating_mul(fx(2.0)), MAX);
    assert_eq!(MAX.saturating_mul(fx(-2.0)), MIN);
    assert_eq!(MIN.saturating_mul(MIN), MAX);
    assert_eq!(MIN.saturating_mul(Fixed::one()), MIN);
    assert_eq!(MIN.saturating_mul(Fixed::zero()), Fixed::zero());
    assert_eq!(Fixed::zero().saturating_mul(fx(-4.0)), Fixed::zero());
}

#[test]
fn quotients_round_toward_zero_and_saturate() {
    assert_eq!(fx(10.0).saturating_div(fx(4.0)), fx(2.5));
    assert_eq!(fx(1.0).saturating_div(fx(3.0)), Fixed::from_raw(333_333));
    assert_eq!(fx(-1.0).saturating_div(fx(3.0)), Fixed::from_raw(-333_333));
    assert_eq!(fx(1.0).saturating_div(fx(-3.0)), Fixed::from_raw(-333_333));
    assert_eq!(fx(-2.0).saturating_div(fx(-3.0)), Fixed::from_raw(666_666));
    assert_eq!(MAX.saturating_div(fx(0.5)), MAX);
    assert_eq!(MAX.saturating_div(fx(-0.5)), MIN);
    assert_eq!(MIN.saturating_div(fx(-1.0)), MAX);
    assert_eq!(MIN.saturating_div(MIN), Fixed::one());
    assert_eq!(Fixed::zero().saturating_div(fx(-7.0)), Fixed::zero());
}

#[test]
fn clamp_limits_to_the_range() {
    assert_eq!(fx(5.0).clamp_to(fx(0.0), fx(3.0)), fx(3.0));
    assert_eq!(fx(-1.0).clamp_to(fx(0.0), fx(3.0)), fx(0.0));
    assert_eq!(fx(2.0).clamp_to(fx(0.0), fx(3.0)), fx(2.0));
    assert_eq!(fx(0.0).clamp_to(fx(0.0), fx(3.0)), fx(0.0));
    assert_eq!(fx(3.0).clamp_to(fx(0.0), fx(3.0)), fx(3.0));
    assert_eq!(fx(9.0).clamp_to(fx(4.0), fx(4.0)), fx(4.0));
    assert_eq!(MIN.clamp_to(MIN, MAX), MIN);
}

#[test]
fn only_numbers_above_zero_are_positive() {
    assert!(fx(0.000001).is_positive());
    assert!(MAX.is_positive());
    assert!(!Fixed::zero().is_positive());
    assert!(!fx(-0.000001).is_positive());
    assert!(!MIN.is_positive());
}

#[test]
fn numbers_order_by_their_raw_value() {
    assert!(fx(-1.0) < fx(0.0));
    assert!(fx(0.5) < fx(0.500001));
    assert!(MIN < MAX);
    assert_eq!(fx(2.0), Fixed::from_int(2));
}
