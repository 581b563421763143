use nenya::fixed::Fixed;
use nenya::pid_controller::{PIDController, PIDControllerBuilder};
use nenya::{RateLimiter, RateLimiterBuilder, Verdict};

const SECOND: u64 = 1_000_000;
const MILLI: u64 = 1_000;

/// The fixed-point number nearest to `x`.
fn fx(x: f64) -> Fixed {
    Fixed::from_raw((x * 1e6).round() as i64)
}

#[test]
fn static_controller_under_sustained_overload() {
    let pid = PIDController::new_static_controller(fx(10.0));
    let mut limiter = RateLimiter::new(fx(10.0), fx(10.0), fx(10.0), pid, SECOND);
    let mut verdicts = Vec::new();
    for i in 0..100u64 {
        verdicts.push(limiter.admit_at(i));
        assert_eq!(limiter.target_rate(), fx(10.0));
    }
    let allowed = verdicts.iter().filter(|v| **v == Verdict::Allow).count();
    assert!(allowed >= 1 && allowed <= 10);
    assert_eq!(allowed, 2);
    // every admission comes before every denial
    assert!(verdicts[..allowed].iter().all(|v| *v == Verdict::Allow));
    assert!(verdicts[allowed..].iter().all(|v| *v == Verdict::Deny));
}

/// A limiter between 5 and 15 that starts at 10, with gains 0.1, 0.01 and
/// 0.001, driven with five requests per second up to `steps` requests.
/// Returns the target rate after each request.
fn drive_at_five_per_second(setpoint: f64, steps: u64) -> Vec<Fixed> {
    let pid = PIDControllerBuilder::new(fx(setpoint))
        .kp(fx(0.1))
        .ki(fx(0.01))
        .kd(fx(0.001))
        .build();
    let mut limiter = RateLimiterBuilder::new(fx(10.0))
        .min_rate(fx(5.0))
        .max_rate(fx(15.0))
        .pid_controller(pid)
        .update_interval(SECOND)
        .build();
    let mut targets = Vec::new();
    for i in 0..steps {
        let verdict = limiter.admit_at(i * 200 * MILLI);
        assert_eq!(verdict, Verdict::Allow);
        assert!(limiter.target_rate() >= fx(5.0));
        assert!(limiter.target_rate() <= fx(15.0));
        // what is accepted is what is offered
        assert_eq!(limiter.accepted_request_rate(), limiter.request_rate());
        assert_eq!(limiter.accepted_len(), limiter.offered_len());
        if i > 0 {
            assert_eq!(limiter.request_rate(), fx(5.0));
        }
        targets.push(limiter.target_rate());
    }
    targets
}

#[test]
fn pid_lowers_the_target_toward_the_floor_when_little_is_offered() {
    // ten seconds; the setpoint lies below the five requests per second that are offered
    let targets = drive_at_five_per_second(1.0, 51);
    assert_eq!(targets[5], fx(10.0));
    // the first tick: error 1 - 5, 0.1 * -4 + 0.001 * -4, nothing accumulated
    assert_eq!(targets[6], fx(9.596));
    assert_eq!(targets[12], fx(9.196));
    assert_eq!(targets[50], fx(6.796));
    assert!(targets.windows(2).all(|pair| pair[1] <= pair[0]));

    // in the long run the target rests on the floor
    let targets = drive_at_five_per_second(1.0, 200);
    assert_eq!(targets[199], fx(5.0));
    assert!(targets.windows(2).all(|pair| pair[1] <= pair[0]));
}

#[test]
fn pid_lifts_the_target_toward_the_ceiling_when_little_is_offered() {
    // the setpoint lies above the five requests per second that are offered
    let targets = drive_at_five_per_second(10.0, 51);
    assert_eq!(targets[5], fx(10.0));
    assert_eq!(targets[6], fx(10.605));
    assert_eq!(targets[50], fx(15.0));
    assert!(targets.windows(2).all(|pair| pair[1] >= pair[0]));
}

#[test]
fn first_tick_of_the_pid_is_exact() {
    let pid = PIDControllerBuilder::new(fx(10.0))
        .kp(fx(0.1))
        .ki(fx(0.01))
        .kd(fx(0.001))
        .build();
    let mut limiter = RateLimiterBuilder::new(fx(10.0))
        .min_rate(fx(5.0))
        .max_rate(fx(15.0))
        .pid_controller(pid)
        .build();
    for i in 0..=5u64 {
        limiter.admit_at(i * 200 * MILLI);
        assert_eq!(limiter.target_rate(), fx(10.0));
    }
    limiter.admit_at(1200 * MILLI);
    assert_eq!(limiter.previous_output(), fx(0.605));
    assert_eq!(limiter.target_rate(), fx(10.605));
}

#[test]
fn anti_windup_holds_the_correction_at_the_error_limit() {
    let mut pid = PIDControllerBuilder::new(fx(0.0))
        .kp(fx(0.0))
        .ki(fx(1.0))
        .kd(fx(0.0))
        .error_limit(fx(10.0))
        .output_limit(fx(100.0))
        .build();
    for _ in 0..20 {
        let correction = pid.compute_correction(fx(-100.0));
        assert_eq!(correction, fx(10.0));
        assert_eq!(pid.accumulated_error(), fx(10.0));
    }
}

#[test]
fn asymmetric_error_bias_counts_only_positive_errors() {
    let mut pid = PIDControllerBuilder::new(fx(1.0))
        .kp(fx(0.0))
        .ki(fx(1.0))
        .kd(fx(0.0))
        .error_bias(fx(1.0))
        .build();
    let mut accumulated = Vec::new();
    for tick in 0..10 {
        let signal = if tick % 2 == 0 { fx(0.0) } else { fx(2.0) };
        pid.compute_correction(signal);
        accumulated.push(pid.accumulated_error());
    }
    let expected: Vec<Fixed> =
        [2.0, 2.0, 4.0, 4.0, 6.0, 6.0, 8.0, 8.0, 10.0, 10.0].iter().map(|x| fx(*x)).collect();
    assert_eq!(accumulated, expected);
    assert!(accumulated.windows(2).all(|pair| pair[0] <= pair[1]));
}
