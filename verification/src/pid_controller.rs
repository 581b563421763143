//! A PID controller with an asymmetric error bias, an optional clamp on the
//! integral and an optional clamp on the output with anti-windup feedback.
//!
//! The controller is modelled by [`PidModel`], a record of raw fixed-point
//! values. The spec functions `pid_*` define one control step on that model;
//! [`PIDController::compute_correction`] is proved to perform exactly that
//! step, and the lemmas at the end state what holds of every step.

use crate::fixed::{fx_abs, fx_add, fx_div, fx_mul, fx_neg, fx_sub, lemma_mul_zero, Fixed, SCALE};
use crate::numeric::{clamp_between, magnitude};
use vstd::prelude::*;

verus! {

/// The state of a controller, in raw fixed-point values.
pub ghost struct PidModel {
    pub setpoint: int,
    pub kp: int,
    pub ki: int,
    pub kd: int,
    pub error_bias: int,
    pub error_limit: Option<int>,
    pub output_limit: Option<int>,
    pub accumulated_error: int,
    pub previous_error: int,
}

/// The model of a limit that may be absent.
pub open spec fn limit_model(limit: Option<Fixed>) -> Option<int> {
    match limit {
        Some(l) => Some(l@),
        None => None,
    }
}

/// The error of a measured signal: how far it is below the setpoint.
pub open spec fn pid_error(m: PidModel, signal: int) -> int {
    fx_sub(m.setpoint, signal)
}

/// The share of an error that enters the integral. A positive error is
/// weighted by one plus the bias, any other by one minus the bias.
pub open spec fn pid_biased_error(m: PidModel, error: int) -> int {
    if error > 0 {
        fx_mul(error, fx_add(SCALE as int, m.error_bias))
    } else {
        fx_mul(error, fx_sub(SCALE as int, m.error_bias))
    }
}

/// `x` limited to the range whose half-width is the magnitude of `limit`.
pub open spec fn clamp_to_limit(x: int, limit: int) -> int {
    clamp_between(x, fx_neg(fx_abs(limit)), fx_abs(limit))
}

/// The integral after the signal's error has been added and the integral clamp
/// applied.
pub open spec fn pid_integral(m: PidModel, signal: int) -> int {
    let sum = fx_add(m.accumulated_error, pid_biased_error(m, pid_error(m, signal)));
    match m.error_limit {
        Some(limit) => clamp_to_limit(sum, limit),
        None => sum,
    }
}

/// The sum of the proportional, the integral and the derivative term.
pub open spec fn pid_unclamped(m: PidModel, signal: int) -> int {
    let error = pid_error(m, signal);
    let p = fx_mul(m.kp, error);
    let i = fx_mul(m.ki, pid_integral(m, signal));
    let d = fx_mul(m.kd, fx_sub(error, m.previous_error));
    fx_add(fx_add(p, i), d)
}

/// The correction that a step returns: the sum of the three terms, held within
/// the output limit where there is one.
pub open spec fn pid_correction(m: PidModel, signal: int) -> int {
    match m.output_limit {
        Some(limit) => clamp_to_limit(pid_unclamped(m, signal), limit),
        None => pid_unclamped(m, signal),
    }
}

/// Whether the output clamp cut the correction and the integral gain allows
/// the cut to be fed back into the integral.
pub open spec fn pid_feeds_back(m: PidModel, signal: int) -> bool {
    pid_correction(m, signal) != pid_unclamped(m, signal) && m.ki != 0
}

/// The state after a step. Where the output was cut, the cut divided by the
/// integral gain is taken off the integral; with a zero integral gain nothing
/// is fed back.
pub open spec fn pid_next(m: PidModel, signal: int) -> PidModel {
    let integral = pid_integral(m, signal);
    let cut = fx_sub(pid_unclamped(m, signal), pid_correction(m, signal));
    PidModel {
        accumulated_error: if pid_feeds_back(m, signal) {
            fx_sub(integral, fx_div(cut, m.ki))
        } else {
            integral
        },
        previous_error: pid_error(m, signal),
        ..m
    }
}

/// The model of a controller that has not yet made a step.
pub open spec fn pid_initial(
    setpoint: int,
    kp: int,
    ki: int,
    kd: int,
    error_bias: int,
    error_limit: Option<int>,
    output_limit: Option<int>,
) -> PidModel {
    PidModel {
        setpoint,
        kp,
        ki,
        kd,
        error_bias,
        error_limit,
        output_limit,
        accumulated_error: 0,
        previous_error: 0,
    }
}

/// The model of the static controller: zero gains, an error bias of one and no
/// limits.
pub open spec fn pid_static(setpoint: int) -> PidModel {
    pid_initial(setpoint, 0, 0, 0, SCALE as int, None, None)
}

/// A PID controller.
#[derive(Clone, Copy, Debug)]
pub struct PIDController {
    setpoint: Fixed,
    kp: Fixed,
    ki: Fixed,
    kd: Fixed,
    error_bias: Fixed,
    error_limit: Option<Fixed>,
    output_limit: Option<Fixed>,
    accumulated_error: Fixed,
    previous_error: Fixed,
}

impl View for PIDController {
    type V = PidModel;

    closed spec fn view(&self) -> PidModel {
        PidModel {
            setpoint: self.setpoint@,
            kp: self.kp@,
            ki: self.ki@,
            kd: self.kd@,
            error_bias: self.error_bias@,
            error_limit: limit_model(self.error_limit),
            output_limit: limit_model(self.output_limit),
            accumulated_error: self.accumulated_error@,
            previous_error: self.previous_error@,
        }
    }
}

fn clamp_fixed_to_limit(x: Fixed, limit: Fixed) -> (r: Fixed)
    ensures
        r@ == clamp_to_limit(x@, limit@),
{
    let bound = limit.saturating_abs();
    x.clamp_to(bound.saturating_neg(), bound)
}

impl PIDController {
    /// A controller with the given setpoint, gains, error bias and limits, and
    /// with no error accumulated.
    pub fn new(
        setpoint: Fixed,
        kp: Fixed,
        ki: Fixed,
        kd: Fixed,
        error_bias: Fixed,
        error_limit: Option<Fixed>,
        output_limit: Option<Fixed>,
    ) -> (pid: Self)
        ensures
            pid@ == pid_initial(
                setpoint@,
                kp@,
                ki@,
                kd@,
                error_bias@,
                limit_model(error_limit),
                limit_model(output_limit),
            ),
    {
        PIDController {
            setpoint,
            kp,
            ki,
            kd,
            error_limit,
            output_limit,
            accumulated_error: Fixed::zero(),
            previous_error: Fixed::zero(),
            error_bias,
        }
    }

    /// The static controller for a setpoint: it never corrects anything.
    pub fn new_static_controller(setpoint: Fixed) -> (pid: Self)
        ensures
            pid@ == pid_static(setpoint@),
    {
        PIDController {
            setpoint,
            kp: Fixed::zero(),
            ki: Fixed::zero(),
            kd: Fixed::zero(),
            error_limit: None,
            output_limit: None,
            accumulated_error: Fixed::zero(),
            previous_error: Fixed::zero(),
            error_bias: Fixed::one(),
        }
    }

    /// Makes one control step on a measured signal and returns the correction.
    pub fn compute_correction(&mut self, signal: Fixed) -> (correction: Fixed)
        ensures
            correction@ == pid_correction(old(self)@, signal@),
            final(self)@ == pid_next(old(self)@, signal@),
            old(self)@.output_limit is Some ==> magnitude(correction@) <= fx_abs(
                old(self)@.output_limit.unwrap(),
            ),
            old(self)@.error_limit is Some && !pid_feeds_back(old(self)@, signal@) ==> magnitude(
                final(self)@.accumulated_error,
            ) <= fx_abs(old(self)@.error_limit.unwrap()),
    {
        proof {
            lemma_correction_within_limit(self@, signal@);
            lemma_accumulated_error_within_limit(self@, signal@);
        }
        let error = self.setpoint.saturating_sub(signal);
        let p = self.kp.saturating_mul(error);

        let weight = if error.is_positive() {
            Fixed::one().saturating_add(self.error_bias)
        } else {
            Fixed::one().saturating_sub(self.error_bias)
        };
        let mut integral = self.accumulated_error.saturating_add(error.saturating_mul(weight));
        if let Some(error_limit) = self.error_limit {
            integral = clamp_fixed_to_limit(integral, error_limit);
        }
        let i = self.ki.saturating_mul(integral);
        let d = self.kd.saturating_mul(error.saturating_sub(self.previous_error));

        let unclamped = p.saturating_add(i).saturating_add(d);
        let correction = match self.output_limit {
            Some(output_limit) => clamp_fixed_to_limit(unclamped, output_limit),
            None => unclamped,
        };

        if correction.raw() != unclamped.raw() && self.ki.raw() != 0 {
            let cut = unclamped.saturating_sub(correction);
            integral = integral.saturating_sub(cut.saturating_div(self.ki));
        }
        self.accumulated_error = integral;
        self.previous_error = error;
        correction
    }

    /// The error accumulated so far.
    pub fn accumulated_error(&self) -> (r: Fixed)
        ensures
            r@ == self@.accumulated_error,
    {
        self.accumulated_error
    }

    /// The error of the latest step.
    pub fn previous_error(&self) -> (r: Fixed)
        ensures
            r@ == self@.previous_error,
    {
        self.previous_error
    }

    /// The setpoint.
    pub fn setpoint(&self) -> (r: Fixed)
        ensures
            r@ == self@.setpoint,
    {
        self.setpoint
    }

    /// The proportional gain.
    pub fn kp(&self) -> (r: Fixed)
        ensures
            r@ == self@.kp,
    {
        self.kp
    }

    /// The integral gain.
    pub fn ki(&self) -> (r: Fixed)
        ensures
            r@ == self@.ki,
    {
        self.ki
    }

    /// The derivative gain.
    pub fn kd(&self) -> (r: Fixed)
        ensures
            r@ == self@.kd,
    {
        self.kd
    }

    /// The error bias.
    pub fn error_bias(&self) -> (r: Fixed)
        ensures
            r@ == self@.error_bias,
    {
        self.error_bias
    }

    /// The limit on the accumulated error, if any.
    pub fn error_limit(&self) -> (r: Option<Fixed>)
        ensures
            limit_model(r) == self@.error_limit,
    {
        self.error_limit
    }

    /// The limit on the correction, if any.
    pub fn output_limit(&self) -> (r: Option<Fixed>)
        ensures
            limit_model(r) == self@.output_limit,
    {
        self.output_limit
    }
}

/// Builder for a [`PIDController`]. Its view is the model of the controller
/// that `build` returns.
pub struct PIDControllerBuilder {
    setpoint: Fixed,
    kp: Fixed,
    ki: Fixed,
    kd: Fixed,
    error_bias: Fixed,
    error_limit: Option<Fixed>,
    output_limit: Option<Fixed>,
}

impl View for PIDControllerBuilder {
    type V = PidModel;

    closed spec fn view(&self) -> PidModel {
        pid_initial(
            self.setpoint@,
            self.kp@,
            self.ki@,
            self.kd@,
            self.error_bias@,
            limit_model(self.error_limit),
            limit_model(self.output_limit),
        )
    }
}

impl PIDControllerBuilder {
    /// A builder for the static controller of a setpoint.
    pub fn new(setpoint: Fixed) -> (builder: Self)
        ensures
            builder@ == pid_static(setpoint@),
    {
        PIDControllerBuilder {
            setpoint,
            kp: Fixed::zero(),
            ki: Fixed::zero(),
            kd: Fixed::zero(),
            error_bias: Fixed::one(),
            error_limit: None,
            output_limit: None,
        }
    }

    /// Sets the proportional gain.
    pub fn kp(self, kp: Fixed) -> (builder: Self)
        ensures
            builder@ == (PidModel { kp: kp@, ..self@ }),
    {
        PIDControllerBuilder { kp, ..self }
    }

    /// Sets the integral gain.
    pub fn ki(self, ki: Fixed) -> (builder: Self)
        ensures
            builder@ == (PidModel { ki: ki@, ..self@ }),
    {
        PIDControllerBuilder { ki, ..self }
    }

    /// Sets the derivative gain.
    pub fn kd(self, kd: Fixed) -> (builder: Self)
        ensures
            builder@ == (PidModel { kd: kd@, ..self@ }),
    {
        PIDControllerBuilder { kd, ..self }
    }

    /// Sets the error bias.
    pub fn error_bias(self, error_bias: Fixed) -> (builder: Self)
        ensures
            builder@ == (PidModel { error_bias: error_bias@, ..self@ }),
    {
        PIDControllerBuilder { error_bias, ..self }
    }

    /// Sets the limit on the accumulated error.
    pub fn error_limit(self, error_limit: Fixed) -> (builder: Self)
        ensures
            builder@ == (PidModel { error_limit: Some(error_limit@), ..self@ }),
    {
        PIDControllerBuilder { error_limit: Some(error_limit), ..self }
    }

    /// Sets the limit on the correction.
    pub fn output_limit(self, output_limit: Fixed) -> (builder: Self)
        ensures
            builder@ == (PidModel { output_limit: Some(output_limit@), ..self@ }),
    {
        PIDControllerBuilder { output_limit: Some(output_limit), ..self }
    }

    /// The controller that was described, with no error accumulated.
    pub fn build(self) -> (pid: PIDController)
        ensures
            pid@ == self@,
    {
        PIDController {
            setpoint: self.setpoint,
            kp: self.kp,
            ki: self.ki,
            kd: self.kd,
            error_bias: self.error_bias,
            error_limit: self.error_limit,
            output_limit: self.output_limit,
            accumulated_error: Fixed::zero(),
            previous_error: Fixed::zero(),
        }
    }
}

/// A value clamped to a limit is no further from zero than the limit.
pub proof fn lemma_clamp_to_limit_bounded(x: int, limit: int)
    ensures
        magnitude(clamp_to_limit(x, limit)) <= fx_abs(limit),
        magnitude(x) <= fx_abs(limit) ==> clamp_to_limit(x, limit) == x,
{
}

/// Under an output limit the correction of every step is no further from zero
/// than the limit.
pub proof fn lemma_correction_within_limit(m: PidModel, signal: int)
    ensures
        m.output_limit is Some ==> magnitude(pid_correction(m, signal)) <= fx_abs(
            m.output_limit.unwrap(),
        ),
{
    if m.output_limit is Some {
        lemma_clamp_to_limit_bounded(pid_unclamped(m, signal), m.output_limit.unwrap());
    }
}

/// Under an error limit the accumulated error after a step is no further from
/// zero than the limit, unless the output clamp cut the correction and fed the
/// cut back into the integral.
pub proof fn lemma_accumulated_error_within_limit(m: PidModel, signal: int)
    ensures
        m.error_limit is Some && !pid_feeds_back(m, signal) ==> magnitude(
            pid_next(m, signal).accumulated_error,
        ) <= fx_abs(m.error_limit.unwrap()),
{
    if m.error_limit is Some {
        let sum = fx_add(m.accumulated_error, pid_biased_error(m, pid_error(m, signal)));
        lemma_clamp_to_limit_bounded(sum, m.error_limit.unwrap());
    }
}

/// With zero gains every step returns a correction of zero, whatever the
/// signal, the error bias and the limits.
pub proof fn lemma_zero_gains_correct_nothing(m: PidModel, signal: int)
    requires
        m.kp == 0,
        m.ki == 0,
        m.kd == 0,
    ensures
        pid_correction(m, signal) == 0,
        pid_next(m, signal).kp == 0,
        pid_next(m, signal).ki == 0,
        pid_next(m, signal).kd == 0,
{
    let error = pid_error(m, signal);
    lemma_mul_zero(error);
    lemma_mul_zero(pid_integral(m, signal));
    lemma_mul_zero(fx_sub(error, m.previous_error));
    assert(pid_unclamped(m, signal) == 0);
}

} // verus!
