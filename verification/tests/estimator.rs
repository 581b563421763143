use nenya::estimator::{RateEstimator, MICROS_PER_SECOND, MIN_SPAN};
use nenya::fixed::Fixed;

const SECOND: u64 = MICROS_PER_SECOND;
const MILLI: u64 = 1_000;

/// The fixed-point number nearest to `x`.
fn fx(x: f64) -> Fixed {
    Fixed::from_raw((x * 1e6).round() as i64)
}

#[test]
fn empty_estimator_reports_zero_rates() {
    let estimator = RateEstimator::new(SECOND);
    for now in [0, 1, 99_999, SECOND, 17 * SECOND, u64::MAX] {
        assert_eq!(estimator.rates(now), (Fixed::zero(), Fixed::zero()));
    }
    assert_eq!(estimator.offered_len(), 0);
    assert_eq!(estimator.accepted_len(), 0);
    assert_eq!(estimator.latest(), 0);
    assert_eq!(estimator.window(), SECOND);
}

#[test]
fn rate_is_the_count_over_the_span_since_the_oldest() {
    let mut estimator = RateEstimator::new(SECOND);
    estimator.record(0, true);
    estimator.record(100 * MILLI, false);
    estimator.record(700 * MILLI, true);
    let (offered, accepted) = estimator.rates(700 * MILLI);
    assert_eq!(offered, Fixed::from_raw(4_285_714));
    assert_eq!(accepted, Fixed::from_raw(2_857_142));
    let (offered, accepted) = estimator.rates(2 * SECOND);
    assert_eq!(offered, fx(1.5));
    assert_eq!(accepted, fx(1.0));
}

#[test]
fn span_is_at_least_a_tenth_of_a_second() {
    assert_eq!(MIN_SPAN, 100_000);
    let mut estimator = RateEstimator::new(SECOND);
    estimator.record(5 * MILLI, true);
    estimator.record(5 * MILLI, true);
    estimator.record(6 * MILLI, false);
    assert_eq!(estimator.rates(6 * MILLI), (fx(30.0), fx(20.0)));
    assert_eq!(estimator.rates(5 * MILLI + MIN_SPAN - 1), (fx(30.0), fx(20.0)));
    assert_eq!(estimator.rates(5 * MILLI + MIN_SPAN), (fx(30.0), fx(20.0)));
    assert_eq!(estimator.rates(5 * MILLI + 2 * MIN_SPAN), (fx(15.0), fx(10.0)));
}

#[test]
fn an_instant_before_the_oldest_counts_as_no_span() {
    let mut estimator = RateEstimator::new(SECOND);
    estimator.record(SECOND, true);
    assert_eq!(estimator.rates(SECOND / 2), (fx(10.0), fx(10.0)));
    assert_eq!(estimator.rates(0), (fx(10.0), fx(10.0)));
}

#[test]
fn trim_removes_only_what_is_older_than_the_window() {
    let mut estimator = RateEstimator::new(SECOND);
    estimator.record(0, true);
    estimator.record(SECOND, false);
    estimator.record(SECOND + 1, true);
    estimator.record(2 * SECOND, true);
    estimator.trim(2 * SECOND);
    // the instant exactly one window old stays
    assert_eq!(estimator.offered_len(), 3);
    assert_eq!(estimator.accepted_len(), 2);
    estimator.trim(2 * SECOND + 1);
    assert_eq!(estimator.offered_len(), 2);
    assert_eq!(estimator.accepted_len(), 2);
    estimator.trim(3 * SECOND);
    assert_eq!(estimator.offered_len(), 1);
    assert_eq!(estimator.accepted_len(), 1);
    estimator.trim(3 * SECOND);
    assert_eq!(estimator.offered_len(), 1);
    estimator.trim(10 * SECOND);
    assert_eq!(estimator.offered_len(), 0);
    assert_eq!(estimator.accepted_len(), 0);
    assert_eq!(estimator.rates(10 * SECOND), (Fixed::zero(), Fixed::zero()));
}

#[test]
fn trim_at_an_early_instant_removes_nothing() {
    let mut estimator = RateEstimator::new(SECOND);
    estimator.record(5 * SECOND, true);
    estimator.record(6 * SECOND, true);
    estimator.trim(0);
    assert_eq!(estimator.offered_len(), 2);
    assert_eq!(estimator.accepted_len(), 2);
}

#[test]
fn accepted_requests_are_among_the_offered() {
    let mut estimator = RateEstimator::new(SECOND);
    let mut now = 0;
    for step in 0..200u64 {
        now += (step % 7) * 40 * MILLI;
        estimator.trim(now);
        estimator.record(now, step % 3 != 0);
        assert!(estimator.accepted_len() <= estimator.offered_len());
        assert_eq!(estimator.latest(), now);
    }
}

#[test]
fn offered_and_accepted_can_be_recorded_apart() {
    let mut estimator = RateEstimator::new(2 * SECOND);
    estimator.record_offered(10);
    assert_eq!((estimator.offered_len(), estimator.accepted_len()), (1, 0));
    estimator.record_accepted(10);
    assert_eq!((estimator.offered_len(), estimator.accepted_len()), (1, 1));
    estimator.record_offered(20);
    estimator.record_offered(20);
    estimator.record_accepted(20);
    assert_eq!((estimator.offered_len(), estimator.accepted_len()), (3, 2));
    assert_eq!(estimator.latest(), 20);
    assert_eq!(estimator.rates(SECOND + 10), (fx(3.0), fx(2.0)));
}

#[test]
fn rate_of_a_long_queue_is_exact() {
    let mut estimator = RateEstimator::new(10 * SECOND);
    for i in 0..1000u64 {
        estimator.record(i * MILLI, i % 2 == 0);
    }
    assert_eq!(estimator.rates(SECOND), (fx(1000.0), fx(500.0)));
    assert_eq!(
        estimator.rates(3 * SECOND),
        (Fixed::from_raw(333_333_333), Fixed::from_raw(166_666_666))
    );
}
