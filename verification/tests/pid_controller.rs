use nenya::fixed::Fixed;
use nenya::pid_controller::{PIDController, PIDControllerBuilder};

/// The fixed-point number nearest to `x`.
fn fx(x: f64) -> Fixed {
    Fixed::from_raw((x * 1e6).round() as i64)
}

fn create_pid_controller(
    setpoint: Fixed,
    kp: Fixed,
    ki: Fixed,
    kd: Fixed,
    error_bias: Fixed,
    error_limit: Option<Fixed>,
    output_limit: Option<Fixed>,
) -> PIDController {
    let mut pid_controller_builder = PIDControllerBuilder::new(setpoint)
        .kp(kp)
        .ki(ki)
        .kd(kd)
        .error_bias(error_bias);

    if let Some(error_limit) = error_limit {
        pid_controller_builder = pid_controller_builder.error_limit(error_limit);
    }

    if let Some(output_limit) = output_limit {
        pid_controller_builder = pid_controller_builder.output_limit(output_limit);
    }

    pid_controller_builder.build()
}

#[test]
fn test_pid_initialization() {
    let pid = create_pid_controller(
        fx(1.0),
        fx(2.0),
        fx(3.0),
        fx(4.0),
        fx(0.5),
        Some(fx(10.0)),
        Some(fx(5.0)),
    );
    assert_eq!(pid.setpoint(), fx(1.0));
    assert_eq!(pid.kp(), fx(2.0));
    assert_eq!(pid.ki(), fx(3.0));
    assert_eq!(pid.kd(), fx(4.0));
    assert_eq!(pid.error_bias(), fx(0.5));
    assert_eq!(pid.error_limit(), Some(fx(10.0)));
    assert_eq!(pid.output_limit(), Some(fx(5.0)));
    assert_eq!(pid.accumulated_error(), fx(0.0));
    assert_eq!(pid.previous_error(), fx(0.0));
}

#[test]
fn test_pid_compute_correction() {
    let mut pid = create_pid_controller(fx(1.0), fx(2.0), fx(3.0), fx(4.0), fx(0.5), None, None);
    let correction = pid.compute_correction(fx(0.5));
    assert!(correction > fx(0.0));
}

#[test]
fn test_pid_compute_correction_with_error_limit() {
    let mut pid =
        create_pid_controller(fx(1.0), fx(2.0), fx(3.0), fx(4.0), fx(0.5), Some(fx(0.1)), None);
    let correction = pid.compute_correction(fx(0.5));
    assert!(correction > fx(0.0));
    assert!(pid.accumulated_error() <= fx(0.1));
}

#[test]
fn test_pid_compute_correction_with_output_limit() {
    let mut pid =
        create_pid_controller(fx(1.0), fx(2.0), fx(3.0), fx(4.0), fx(0.5), None, Some(fx(0.1)));
    let correction = pid.compute_correction(fx(0.5));
    assert!(correction <= fx(0.1));
}

#[test]
fn test_pid_zero_gains() {
    let mut pid = create_pid_controller(fx(1.0), fx(0.0), fx(0.0), fx(0.0), fx(0.0), None, None);
    let correction = pid.compute_correction(fx(0.5));
    assert_eq!(correction, fx(0.0));
}

#[test]
fn test_pid_negative_feedback() {
    let mut pid =
        create_pid_controller(fx(1.0), fx(-2.0), fx(-3.0), fx(-4.0), fx(0.5), None, None);
    let correction = pid.compute_correction(fx(0.5));
    assert!(correction < fx(0.0));
}

#[test]
fn test_pid_anti_windup() {
    let mut pid = create_pid_controller(
        fx(1.0),
        fx(2.0),
        fx(3.0),
        fx(4.0),
        fx(0.5),
        Some(fx(0.1)),
        Some(fx(0.5)),
    );
    pid.compute_correction(fx(0.5));
    let correction = pid.compute_correction(fx(0.5));
    assert!(correction <= fx(0.5));
}

#[test]
fn test_pid_accumulated_error() {
    let mut pid = create_pid_controller(fx(1.0), fx(2.0), fx(3.0), fx(4.0), fx(0.5), None, None);
    pid.compute_correction(fx(0.5));
    assert!(pid.accumulated_error() > fx(0.0));
}

#[test]
fn test_pid_setpoint() {
    let pid = create_pid_controller(fx(1.0), fx(2.0), fx(3.0), fx(4.0), fx(0.5), None, None);
    assert_eq!(pid.setpoint(), fx(1.0));
}

#[test]
fn correction_is_the_sum_of_the_three_terms() {
    // error 0.5: P = 2 * 0.5, I = 3 * (0.5 * 1.5), D = 4 * (0.5 - 0)
    let mut pid = create_pid_controller(fx(1.0), fx(2.0), fx(3.0), fx(4.0), fx(0.5), None, None);
    assert_eq!(pid.compute_correction(fx(0.5)), fx(5.25));
    assert_eq!(pid.accumulated_error(), fx(0.75));
    assert_eq!(pid.previous_error(), fx(0.5));
    // same signal again: the derivative term vanishes and the integral doubles
    assert_eq!(pid.compute_correction(fx(0.5)), fx(1.0 + 4.5));
    assert_eq!(pid.accumulated_error(), fx(1.5));
}

#[test]
fn negative_error_is_weighted_by_one_minus_the_bias() {
    let mut pid = create_pid_controller(fx(1.0), fx(0.0), fx(1.0), fx(0.0), fx(0.25), None, None);
    assert_eq!(pid.compute_correction(fx(3.0)), fx(-1.5));
    assert_eq!(pid.accumulated_error(), fx(-1.5));
    assert_eq!(pid.previous_error(), fx(-2.0));
}

#[test]
fn static_controller_never_corrects() {
    let mut pid = PIDController::new_static_controller(fx(10.0));
    assert_eq!(pid.kp(), fx(0.0));
    assert_eq!(pid.ki(), fx(0.0));
    assert_eq!(pid.kd(), fx(0.0));
    assert_eq!(pid.error_bias(), fx(1.0));
    assert_eq!(pid.error_limit(), None);
    assert_eq!(pid.output_limit(), None);
    for signal in [-1000.0, -1.0, 0.0, 9.5, 10.0, 10.5, 1e6] {
        assert_eq!(pid.compute_correction(fx(signal)), fx(0.0));
    }
}

#[test]
fn builder_defaults_to_the_static_controller() {
    let pid = PIDControllerBuilder::new(fx(7.0)).build();
    assert_eq!(pid.setpoint(), fx(7.0));
    assert_eq!(pid.kp(), fx(0.0));
    assert_eq!(pid.ki(), fx(0.0));
    assert_eq!(pid.kd(), fx(0.0));
    assert_eq!(pid.error_bias(), fx(1.0));
    assert_eq!(pid.error_limit(), None);
    assert_eq!(pid.output_limit(), None);
}

#[test]
fn correction_stays_within_the_output_limit() {
    let mut pid =
        create_pid_controller(fx(0.0), fx(3.0), fx(0.5), fx(2.0), fx(0.0), None, Some(fx(2.5)));
    for signal in [100.0, -100.0, 0.1, -0.1, 50.0, -75.0, 0.0] {
        let correction = pid.compute_correction(fx(signal));
        assert!(correction <= fx(2.5));
        assert!(correction >= fx(-2.5));
    }
}

#[test]
fn negative_limits_count_by_their_magnitude() {
    let mut pid =
        create_pid_controller(fx(0.0), fx(1.0), fx(0.0), fx(0.0), fx(0.0), None, Some(fx(-2.0)));
    assert_eq!(pid.compute_correction(fx(-5.0)), fx(2.0));
    assert_eq!(pid.compute_correction(fx(5.0)), fx(-2.0));
}

#[test]
fn accumulated_error_stays_within_the_error_limit() {
    let mut pid =
        create_pid_controller(fx(0.0), fx(0.0), fx(1.0), fx(0.0), fx(0.0), Some(fx(3.0)), None);
    for signal in [-2.0, -2.0, -2.0, 10.0, 10.0, 0.5, -40.0] {
        pid.compute_correction(fx(signal));
        assert!(pid.accumulated_error() <= fx(3.0));
        assert!(pid.accumulated_error() >= fx(-3.0));
    }
}

#[test]
fn cut_output_is_fed_back_into_the_integral() {
    // error 10: integral 10, unclamped 2 * 10 = 20, cut to 4; (20 - 4) / 2 leaves the integral
    let mut pid =
        create_pid_controller(fx(10.0), fx(0.0), fx(2.0), fx(0.0), fx(0.0), None, Some(fx(4.0)));
    assert_eq!(pid.compute_correction(fx(0.0)), fx(4.0));
    assert_eq!(pid.accumulated_error(), fx(2.0));
}

#[test]
fn zero_integral_gain_skips_the_feedback() {
    let mut pid =
        create_pid_controller(fx(10.0), fx(5.0), fx(0.0), fx(0.0), fx(0.0), None, Some(fx(4.0)));
    assert_eq!(pid.compute_correction(fx(0.0)), fx(4.0));
    assert_eq!(pid.accumulated_error(), fx(10.0));
    assert_eq!(pid.compute_correction(fx(20.0)), fx(-4.0));
    assert_eq!(pid.accumulated_error(), fx(0.0));
}

#[test]
fn anti_windup_saturates_the_integral() {
    let mut pid = create_pid_controller(
        fx(0.0),
        fx(0.0),
        fx(1.0),
        fx(0.0),
        fx(1.0),
        Some(fx(10.0)),
        Some(fx(100.0)),
    );
    for _ in 0..20 {
        assert_eq!(pid.compute_correction(fx(-100.0)), fx(10.0));
        assert_eq!(pid.accumulated_error(), fx(10.0));
    }
}

#[test]
fn asymmetric_bias_lets_the_integral_only_grow() {
    let mut pid = create_pid_controller(fx(1.0), fx(0.0), fx(1.0), fx(0.0), fx(1.0), None, None);
    let mut previous = pid.accumulated_error();
    for tick in 0..10 {
        let signal = if tick % 2 == 0 { fx(0.0) } else { fx(2.0) };
        pid.compute_correction(signal);
        assert!(pid.accumulated_error() >= previous);
        if tick % 2 == 0 {
            assert_eq!(pid.accumulated_error(), previous.saturating_add(fx(2.0)));
        } else {
            assert_eq!(pid.accumulated_error(), previous);
        }
        previous = pid.accumulated_error();
    }
    assert_eq!(pid.accumulated_error(), fx(10.0));
}

#[test]
fn extreme_signals_saturate_and_leave_a_usable_state() {
    let mut pid =
        create_pid_controller(fx(0.0), fx(1.0), fx(1.0), fx(1.0), fx(1.0), None, None);
    let huge = Fixed::from_raw(i64::MIN);
    assert_eq!(pid.compute_correction(huge), Fixed::from_raw(i64::MAX));
    assert_eq!(pid.accumulated_error(), Fixed::from_raw(i64::MAX));
    let correction = pid.compute_correction(Fixed::from_raw(i64::MAX));
    assert!(correction <= Fixed::from_raw(i64::MAX));
}

#[test]
fn feedback_of_a_cut_output_can_leave_the_error_limit() {
    let mut pid = create_pid_controller(
        fx(1.0),
        fx(1000.0),
        fx(0.001),
        fx(0.0),
        fx(1.0),
        Some(fx(10.0)),
        Some(fx(100.0)),
    );
    // integral 2, unclamped 1000.002, cut by 900.002, and 900.002 / 0.001 leaves the integral
    assert_eq!(pid.compute_correction(fx(0.0)), fx(100.0));
    assert_eq!(pid.accumulated_error(), fx(-900_000.0));
}
