//! The rate limiter of one segment.
//!
//! A limiter measures the offered and the accepted request rate over a sliding
//! window, adds the rates that peers report, lets a PID controller move its
//! target rate between a floor and a ceiling at most once per update interval,
//! and admits a request while the accepted rate is not above the target.
//!
//! Its model is [`LimiterModel`]. One admission is the spec function
//! [`LimiterModel::admitted`], with the verdict [`LimiterModel::verdict`];
//! [`RateLimiter::admit_at`] is proved to perform exactly that step.

use crate::estimator::{
    expired, lemma_accepted_not_newer, lemma_record_keeps_wf, lemma_trim_keeps_latest,
    lemma_trim_keeps_wf, lemma_trimmed_is_fresh, trimmed, window_rate, RateEstimator,
    WindowModel, MICROS_PER_SECOND,
};
use crate::fixed::{fx_add, Fixed};
use crate::numeric::clamp_between;
use crate::pid_controller::{
    lemma_zero_gains_correct_nothing, pid_correction, pid_next, pid_static, PIDController,
    PidModel,
};
use crate::timeline::micros_since;
use std::time::Instant;
use vstd::prelude::*;

verus! {

/// The update interval of a limiter that was given none: one second.
pub const DEFAULT_UPDATE_INTERVAL: u64 = MICROS_PER_SECOND;

/// The outcome of an admission.
#[derive(Clone, Copy, Debug, PartialEq, Eq, Structural)]
pub enum Verdict {
    /// The request is admitted.
    Allow,
    /// The request is throttled.
    Deny,
}

/// The state of a limiter. Rates are raw fixed-point requests per second,
/// instants and intervals are microseconds.
pub ghost struct LimiterModel {
    pub target_rate: int,
    pub min_rate: int,
    pub max_rate: int,
    pub update_interval: u64,
    pub last_tick: u64,
    pub previous_output: int,
    pub external_request_rate: int,
    pub external_accepted_request_rate: int,
    pub local_request_rate: int,
    pub local_accepted_request_rate: int,
    pub request_rate: int,
    pub accepted_request_rate: int,
    pub pid: PidModel,
    pub window: WindowModel,
}

impl LimiterModel {
    /// The target rate lies between the floor and the ceiling, which are
    /// representable rates, the rates of the peers are not negative, and the
    /// window is well formed and as long as the update interval.
    pub open spec fn wf(self) -> bool {
        &&& i64::MIN <= self.min_rate <= self.target_rate <= self.max_rate <= i64::MAX
        &&& self.external_request_rate >= 0
        &&& self.external_accepted_request_rate >= 0
        &&& self.window.wf()
        &&& self.window.window == self.update_interval
    }

    /// The limiter that was just made: nothing measured, nothing recorded,
    /// the latest tick at `start`.
    pub open spec fn initial(
        target_rate: int,
        min_rate: int,
        max_rate: int,
        pid: PidModel,
        update_interval: u64,
        external_request_rate: int,
        external_accepted_request_rate: int,
        start: u64,
    ) -> LimiterModel {
        LimiterModel {
            target_rate,
            min_rate,
            max_rate,
            update_interval,
            last_tick: start,
            previous_output: 0,
            external_request_rate,
            external_accepted_request_rate,
            local_request_rate: 0,
            local_accepted_request_rate: 0,
            request_rate: 0,
            accepted_request_rate: 0,
            pid,
            window: WindowModel {
                offered: Seq::empty(),
                accepted: Seq::empty(),
                window: update_interval,
            },
        }
    }

    /// The state after the window was trimmed at `now`.
    pub open spec fn trimmed(self, now: u64) -> LimiterModel {
        LimiterModel { window: self.window.trim(now), ..self }
    }

    /// The state after the rates were measured at `now`: the local rates come
    /// from the window, the fused rates add what the peers report.
    pub open spec fn measured(self, now: u64) -> LimiterModel {
        let offered = window_rate(self.window.offered, now);
        let accepted = window_rate(self.window.accepted, now);
        LimiterModel {
            local_request_rate: offered,
            local_accepted_request_rate: accepted,
            request_rate: fx_add(offered, self.external_request_rate),
            accepted_request_rate: fx_add(accepted, self.external_accepted_request_rate),
            ..self
        }
    }

    /// Whether more than an update interval has passed since the latest tick.
    pub open spec fn tick_due(self, now: u64) -> bool {
        now - self.last_tick > self.update_interval
    }

    /// The state after a tick at `now`: the controller makes one step on the
    /// fused request rate, and its correction moves the target rate, which
    /// stays between the floor and the ceiling.
    pub open spec fn ticked(self, now: u64) -> LimiterModel {
        let output = pid_correction(self.pid, self.request_rate);
        LimiterModel {
            last_tick: now,
            previous_output: output,
            pid: pid_next(self.pid, self.request_rate),
            target_rate: clamp_between(
                fx_add(self.target_rate, output),
                self.min_rate,
                self.max_rate,
            ),
            ..self
        }
    }

    /// Whether the next request is admitted: the fused accepted rate is not
    /// above the target rate.
    pub open spec fn allows(self) -> bool {
        self.accepted_request_rate <= self.target_rate
    }

    /// The state in which a request at `now` is decided: trimmed, measured,
    /// and ticked where a tick was due.
    pub open spec fn deciding(self, now: u64) -> LimiterModel {
        let m = self.trimmed(now).measured(now);
        if m.tick_due(now) {
            m.ticked(now)
        } else {
            m
        }
    }

    /// The verdict on a request at `now`.
    pub open spec fn verdict(self, now: u64) -> Verdict {
        if self.deciding(now).allows() {
            Verdict::Allow
        } else {
            Verdict::Deny
        }
    }

    /// The state after a request at `now` was decided and recorded.
    pub open spec fn admitted(self, now: u64) -> LimiterModel {
        let m = self.deciding(now);
        LimiterModel { window: m.window.record(now, m.allows()), ..m }
    }

    /// Whether `after` and `throttled` are the outcome of an admission at
    /// `now`, an instant that is not earlier than the newest on record.
    pub open spec fn admission_at(self, now: u64, after: LimiterModel, throttled: bool) -> bool {
        &&& self.window.latest() <= now
        &&& after == self.admitted(now)
        &&& throttled == (self.verdict(now) == Verdict::Deny)
    }
}

/// An admission keeps a limiter well formed: in particular the target rate
/// stays between the floor and the ceiling, and every accepted instant on
/// record is matched by an offered one.
pub proof fn lemma_admitted_is_wf(m: LimiterModel, now: u64)
    requires
        m.wf(),
        m.window.latest() <= now,
    ensures
        m.admitted(now).wf(),
        m.admitted(now).min_rate == m.min_rate,
        m.admitted(now).max_rate == m.max_rate,
        m.min_rate <= m.admitted(now).target_rate <= m.max_rate,
        m.admitted(now).window.latest() == now,
{
    lemma_trim_keeps_wf(m.window, now);
    lemma_trim_keeps_latest(m.window, now);
    let d = m.deciding(now);
    assert(d.window == m.window.trim(now));
    lemma_record_keeps_wf(d.window, now, d.allows());
}

/// After an admission at `now` every instant on record lies within the window
/// that ends at `now`: none is later than `now`, and none has expired.
pub proof fn lemma_admitted_window_is_current(m: LimiterModel, now: u64)
    requires
        m.wf(),
        m.window.latest() <= now,
    ensures
        forall|i: int|
            0 <= i < m.admitted(now).window.offered.len() ==> {
                &&& (#[trigger] m.admitted(now).window.offered[i]) <= now
                &&& !expired(m.admitted(now).window.offered[i], now, m.update_interval)
            },
        forall|i: int|
            0 <= i < m.admitted(now).window.accepted.len() ==> {
                &&& (#[trigger] m.admitted(now).window.accepted[i]) <= now
                &&& !expired(m.admitted(now).window.accepted[i], now, m.update_interval)
            },
{
    lemma_admitted_is_wf(m, now);
    lemma_trimmed_is_fresh(m.window.offered, now, m.window.window);
    lemma_trimmed_is_fresh(m.window.accepted, now, m.window.window);
    let after = m.admitted(now).window;
    lemma_accepted_not_newer(after);
    let kept_offered = trimmed(m.window.offered, now, m.window.window);
    let kept_accepted = trimmed(m.window.accepted, now, m.window.window);
    assert forall|i: int| 0 <= i < after.offered.len() implies {
        &&& (#[trigger] after.offered[i]) <= now
        &&& !expired(after.offered[i], now, m.update_interval)
    } by {
        assert(after.offered[i] <= after.offered.last());
        if i < kept_offered.len() {
            assert(after.offered[i] == kept_offered[i]);
        }
    }
    assert forall|i: int| 0 <= i < after.accepted.len() implies {
        &&& (#[trigger] after.accepted[i]) <= now
        &&& !expired(after.accepted[i], now, m.update_interval)
    } by {
        assert(after.accepted[i] <= after.accepted.last());
        if i < kept_accepted.len() {
            assert(after.accepted[i] == kept_accepted[i]);
        }
    }
}

/// The target rate moves only on a tick, and a tick comes only when more than
/// an update interval has passed since the one before: otherwise an admission
/// leaves the target rate, the controller and the instant of the latest tick
/// as they were.
pub proof fn lemma_target_moves_only_on_a_tick(m: LimiterModel, now: u64)
    ensures
        m.tick_due(now) ==> m.admitted(now).last_tick == now,
        !m.tick_due(now) ==> {
            &&& m.admitted(now).target_rate == m.target_rate
            &&& m.admitted(now).pid == m.pid
            &&& m.admitted(now).last_tick == m.last_tick
            &&& m.admitted(now).previous_output == m.previous_output
        },
{
}

/// An admission changes nothing of what a limiter was made with: the floor,
/// the ceiling, the update interval, the rates of the peers, and the setpoint,
/// the gains, the bias and the limits of the controller.
pub proof fn lemma_admission_keeps_configuration(m: LimiterModel, now: u64)
    ensures
        m.admitted(now).min_rate == m.min_rate,
        m.admitted(now).max_rate == m.max_rate,
        m.admitted(now).update_interval == m.update_interval,
        m.admitted(now).window.window == m.window.window,
        m.admitted(now).external_request_rate == m.external_request_rate,
        m.admitted(now).external_accepted_request_rate == m.external_accepted_request_rate,
        m.admitted(now).pid == (PidModel {
            accumulated_error: m.admitted(now).pid.accumulated_error,
            previous_error: m.admitted(now).pid.previous_error,
            ..m.pid
        }),
{
}

/// A request is admitted exactly when the fused accepted rate is not above the
/// target rate; at a rate equal to the target it is admitted.
pub proof fn lemma_verdict_is_inclusive(m: LimiterModel, now: u64)
    ensures
        m.verdict(now) == Verdict::Allow <==> m.admitted(now).accepted_request_rate
            <= m.admitted(now).target_rate,
        m.admitted(now).accepted_request_rate == m.admitted(now).target_rate ==> m.verdict(now)
            == Verdict::Allow,
{
}

/// Where the floor and the ceiling are equal, no admission moves the target
/// rate, whatever the controller.
pub proof fn lemma_equal_bounds_fix_target(m: LimiterModel, now: u64)
    requires
        m.wf(),
        m.min_rate == m.max_rate,
    ensures
        m.admitted(now).target_rate == m.target_rate,
{
}

/// With a controller of zero gains no admission moves the target rate, and
/// the gains stay zero.
pub proof fn lemma_zero_gains_keep_target(m: LimiterModel, now: u64)
    requires
        m.wf(),
        m.pid.kp == 0,
        m.pid.ki == 0,
        m.pid.kd == 0,
    ensures
        m.admitted(now).target_rate == m.target_rate,
        m.admitted(now).pid.kp == 0,
        m.admitted(now).pid.ki == 0,
        m.admitted(now).pid.kd == 0,
{
    let measured = m.trimmed(now).measured(now);
    lemma_zero_gains_correct_nothing(m.pid, measured.request_rate);
}

/// A sliding-window rate limiter whose target rate a PID controller adjusts.
#[derive(Debug)]
pub struct RateLimiter {
    request_rate: Fixed,
    accepted_request_rate: Fixed,
    local_request_rate: Fixed,
    local_accepted_request_rate: Fixed,
    target_rate: Fixed,
    min_rate: Fixed,
    max_rate: Fixed,
    pid_controller: PIDController,
    origin: Instant,
    started_at: u64,
    last_updated: u64,
    previous_output: Fixed,
    update_interval: u64,
    window: RateEstimator,
    external_request_rate: Fixed,
    external_accepted_request_rate: Fixed,
}

impl View for RateLimiter {
    type V = LimiterModel;

    closed spec fn view(&self) -> LimiterModel {
        LimiterModel {
            target_rate: self.target_rate@,
            min_rate: self.min_rate@,
            max_rate: self.max_rate@,
            update_interval: self.update_interval,
            last_tick: self.last_updated,
            previous_output: self.previous_output@,
            external_request_rate: self.external_request_rate@,
            external_accepted_request_rate: self.external_accepted_request_rate@,
            local_request_rate: self.local_request_rate@,
            local_accepted_request_rate: self.local_accepted_request_rate@,
            request_rate: self.request_rate@,
            accepted_request_rate: self.accepted_request_rate@,
            pid: self.pid_controller@,
            window: self.window@,
        }
    }
}

impl DeepView for RateLimiter {
    type V = LimiterModel;

    open spec fn deep_view(&self) -> LimiterModel {
        self@
    }
}

impl RateLimiter {
    /// Whether the limiter is well formed.
    pub open spec fn wf(&self) -> bool {
        self@.wf()
    }

    /// A limiter whose timeline starts now, at zero.
    pub fn new(
        target_rate: Fixed,
        min_rate: Fixed,
        max_rate: Fixed,
        pid_controller: PIDController,
        update_interval: u64,
    ) -> (limiter: RateLimiter)
        requires
            min_rate@ <= target_rate@ <= max_rate@,
        ensures
            limiter@ == LimiterModel::initial(
                target_rate@,
                min_rate@,
                max_rate@,
                pid_controller@,
                update_interval,
                0,
                0,
                0,
            ),
            limiter.wf(),
    {
        RateLimiter {
            request_rate: Fixed::zero(),
            accepted_request_rate: Fixed::zero(),
            local_request_rate: Fixed::zero(),
            local_accepted_request_rate: Fixed::zero(),
            target_rate,
            min_rate,
            max_rate,
            pid_controller,
            origin: Instant::now(),
            started_at: 0,
            last_updated: 0,
            previous_output: Fixed::zero(),
            update_interval,
            window: RateEstimator::new(update_interval),
            external_request_rate: Fixed::zero(),
            external_accepted_request_rate: Fixed::zero(),
        }
    }

    /// Decides on a request that arrives at `now`, and records it.
    pub fn admit_at(&mut self, now: u64) -> (verdict: Verdict)
        requires
            old(self).wf(),
            old(self)@.window.latest() <= now,
        ensures
            final(self)@ == old(self)@.admitted(now),
            verdict == old(self)@.verdict(now),
            final(self).wf(),
            final(self)@.min_rate <= final(self)@.target_rate <= final(self)@.max_rate,
            verdict == Verdict::Allow <==> final(self)@.allows(),
            final(self)@.window.latest() == now,
    {
        proof {
            lemma_admitted_is_wf(self@, now);
            lemma_trim_keeps_wf(self@.window, now);
            lemma_trim_keeps_latest(self@.window, now);
        }
        self.trim_request_window(now);
        self.calculate_request_rate(now);
        if now > self.last_updated && now - self.last_updated > self.update_interval {
            self.last_updated = now;
            let output = self.pid_controller.compute_correction(self.request_rate);
            self.previous_output = output;
            self.target_rate = self.target_rate.saturating_add(output).clamp_to(
                self.min_rate,
                self.max_rate,
            );
        }
        let allowed = self.accepted_request_rate.raw() <= self.target_rate.raw();
        self.window.record(now, allowed);
        if allowed {
            Verdict::Allow
        } else {
            Verdict::Deny
        }
    }

    /// Decides on a request that arrives now, by this limiter's clock, and
    /// records it. Returns `true` if the request is to be throttled. The clock
    /// is read once; a reading earlier than the newest instant on record counts
    /// as that instant.
    pub fn should_throttle(&mut self) -> (throttled: bool)
        requires
            old(self).wf(),
        ensures
            final(self).wf(),
            exists|now: u64| #[trigger] old(self)@.admission_at(now, final(self)@, throttled),
    {
        let elapsed = micros_since(&self.origin);
        let reading = if elapsed > u64::MAX - self.started_at {
            u64::MAX
        } else {
            self.started_at + elapsed
        };
        let latest = self.window.latest();
        let now = if reading < latest {
            latest
        } else {
            reading
        };
        let verdict = self.admit_at(now);
        let throttled = match verdict {
            Verdict::Allow => false,
            Verdict::Deny => true,
        };
        assert(old(self)@.admission_at(now, self@, throttled));
        throttled
    }

    /// Measures the rates at `now`: the local rates from the window as it is,
    /// the fused rates with the peers' rates added.
    pub fn calculate_request_rate(&mut self, now: u64)
        ensures
            final(self)@ == old(self)@.measured(now),
    {
        let (offered, accepted) = self.window.rates(now);
        self.local_request_rate = offered;
        self.local_accepted_request_rate = accepted;
        self.request_rate = offered.saturating_add(self.external_request_rate);
        self.accepted_request_rate = accepted.saturating_add(self.external_accepted_request_rate);
    }

    /// Removes from the window the instants that have left it at `now`.
    pub fn trim_request_window(&mut self, now: u64)
        requires
            old(self).wf(),
        ensures
            final(self)@ == old(self)@.trimmed(now),
            final(self).wf(),
    {
        self.window.trim(now);
    }

    /// The setpoint of the controller.
    pub fn setpoint(&self) -> (r: Fixed)
        ensures
            r@ == self@.pid.setpoint,
    {
        self.pid_controller.setpoint()
    }

    /// The target rate.
    pub fn target_rate(&self) -> (r: Fixed)
        ensures
            r@ == self@.target_rate,
    {
        self.target_rate
    }

    /// The floor of the target rate.
    pub fn min_rate(&self) -> (r: Fixed)
        ensures
            r@ == self@.min_rate,
    {
        self.min_rate
    }

    /// The ceiling of the target rate.
    pub fn max_rate(&self) -> (r: Fixed)
        ensures
            r@ == self@.max_rate,
    {
        self.max_rate
    }

    /// The fused request rate as last measured.
    pub fn request_rate(&self) -> (r: Fixed)
        ensures
            r@ == self@.request_rate,
    {
        self.request_rate
    }

    /// The fused accepted request rate as last measured.
    pub fn accepted_request_rate(&self) -> (r: Fixed)
        ensures
            r@ == self@.accepted_request_rate,
    {
        self.accepted_request_rate
    }

    /// The request rate of this node alone, as last measured.
    pub fn local_request_rate(&self) -> (r: Fixed)
        ensures
            r@ == self@.local_request_rate,
    {
        self.local_request_rate
    }

    /// The accepted request rate of this node alone, as last measured.
    pub fn local_accepted_request_rate(&self) -> (r: Fixed)
        ensures
            r@ == self@.local_accepted_request_rate,
    {
        self.local_accepted_request_rate
    }

    /// The request rate that the peers report.
    pub fn external_request_rate(&self) -> (r: Fixed)
        ensures
            r@ == self@.external_request_rate,
    {
        self.external_request_rate
    }

    /// Sets the request rate that the peers report.
    pub fn set_external_request_rate(&mut self, external_request_rate: Fixed)
        requires
            external_request_rate@ >= 0,
        ensures
            final(self)@ == (LimiterModel {
                external_request_rate: external_request_rate@,
                ..old(self)@
            }),
    {
        self.external_request_rate = external_request_rate
    }

    /// The accepted request rate that the peers report.
    pub fn external_accepted_request_rate(&self) -> (r: Fixed)
        ensures
            r@ == self@.external_accepted_request_rate,
    {
        self.external_accepted_request_rate
    }

    /// Sets the accepted request rate that the peers report.
    pub fn set_external_accepted_request_rate(&mut self, external_accepted_request_rate: Fixed)
        requires
            external_accepted_request_rate@ >= 0,
        ensures
            final(self)@ == (LimiterModel {
                external_accepted_request_rate: external_accepted_request_rate@,
                ..old(self)@
            }),
    {
        self.external_accepted_request_rate = external_accepted_request_rate
    }

    /// The correction of the latest tick.
    pub fn previous_output(&self) -> (r: Fixed)
        ensures
            r@ == self@.previous_output,
    {
        self.previous_output
    }

    /// The update interval, in microseconds.
    pub fn update_interval(&self) -> (r: u64)
        ensures
            r == self@.update_interval,
    {
        self.update_interval
    }

    /// The instant of the latest tick.
    pub fn last_updated(&self) -> (r: u64)
        ensures
            r == self@.last_tick,
    {
        self.last_updated
    }

    /// The newest instant on record, or zero if there is none.
    pub fn latest(&self) -> (r: u64)
        ensures
            r == self@.window.latest(),
    {
        self.window.latest()
    }

    /// The number of offered requests in the window.
    pub fn offered_len(&self) -> (n: usize)
        ensures
            n == self@.window.offered.len(),
    {
        self.window.offered_len()
    }

    /// The number of accepted requests in the window.
    pub fn accepted_len(&self) -> (n: usize)
        ensures
            n == self@.window.accepted.len(),
    {
        self.window.accepted_len()
    }
}

/// Builder for a [`RateLimiter`]. Its view is the model of the limiter that
/// `build` returns.
pub struct RateLimiterBuilder {
    target_rate: Fixed,
    min_rate: Fixed,
    max_rate: Fixed,
    pid_controller: Option<PIDController>,
    update_interval: u64,
    external_request_rate: Fixed,
    external_accepted_request_rate: Fixed,
}

impl View for RateLimiterBuilder {
    type V = LimiterModel;

    closed spec fn view(&self) -> LimiterModel {
        LimiterModel::initial(
            self.target_rate@,
            self.min_rate@,
            self.max_rate@,
            match self.pid_controller {
                Some(pid) => pid@,
                None => pid_static(self.target_rate@),
            },
            self.update_interval,
            self.external_request_rate@,
            self.external_accepted_request_rate@,
            0,
        )
    }
}

impl RateLimiterBuilder {
    /// A builder for a limiter that holds its target rate: the floor and the
    /// ceiling are the target rate, the controller is the static one, the
    /// update interval is one second, and no peer reports anything.
    pub fn new(target_rate: Fixed) -> (builder: Self)
        ensures
            builder@ == LimiterModel::initial(
                target_rate@,
                target_rate@,
                target_rate@,
                pid_static(target_rate@),
                DEFAULT_UPDATE_INTERVAL,
                0,
                0,
                0,
            ),
    {
        RateLimiterBuilder {
            target_rate,
            min_rate: target_rate,
            max_rate: target_rate,
            pid_controller: None,
            update_interval: DEFAULT_UPDATE_INTERVAL,
            external_request_rate: Fixed::zero(),
            external_accepted_request_rate: Fixed::zero(),
        }
    }

    /// Sets the floor of the target rate.
    pub fn min_rate(self, min_rate: Fixed) -> (builder: Self)
        ensures
            builder@ == (LimiterModel { min_rate: min_rate@, ..self@ }),
    {
        RateLimiterBuilder { min_rate, ..self }
    }

    /// Sets the ceiling of the target rate.
    pub fn max_rate(self, max_rate: Fixed) -> (builder: Self)
        ensures
            builder@ == (LimiterModel { max_rate: max_rate@, ..self@ }),
    {
        RateLimiterBuilder { max_rate, ..self }
    }

    /// Sets the controller.
    pub fn pid_controller(self, pid_controller: PIDController) -> (builder: Self)
        ensures
            builder@ == (LimiterModel { pid: pid_controller@, ..self@ }),
    {
        RateLimiterBuilder { pid_controller: Some(pid_controller), ..self }
    }

    /// Sets the update interval, which is also the length of the window, in
    /// microseconds.
    pub fn update_interval(self, update_interval: u64) -> (builder: Self)
        ensures
            builder@ == (LimiterModel {
                update_interval,
                window: WindowModel { window: update_interval, ..self@.window },
                ..self@
            }),
    {
        RateLimiterBuilder { update_interval, ..self }
    }

    /// Sets the request rate that the peers report.
    pub fn external_request_rate(self, external_request_rate: Fixed) -> (builder: Self)
        ensures
            builder@ == (LimiterModel { external_request_rate: external_request_rate@, ..self@ }),
    {
        RateLimiterBuilder { external_request_rate, ..self }
    }

    /// Sets the accepted request rate that the peers report.
    pub fn external_accepted_request_rate(self, external_accepted_request_rate: Fixed) -> (builder:
        Self)
        ensures
            builder@ == (LimiterModel {
                external_accepted_request_rate: external_accepted_request_rate@,
                ..self@
            }),
    {
        RateLimiterBuilder { external_accepted_request_rate, ..self }
    }

    /// The limiter that was described, with a timeline that starts now, at
    /// zero.
    pub fn build(self) -> (limiter: RateLimiter)
        requires
            self@.wf(),
        ensures
            limiter@ == self@,
            limiter.wf(),
    {
        self.build_at(0)
    }

    /// The limiter that was described, with a timeline that starts now, at
    /// `start`.
    pub fn build_at(self, start: u64) -> (limiter: RateLimiter)
        requires
            self@.wf(),
        ensures
            limiter@ == (LimiterModel { last_tick: start, ..self@ }),
            limiter.wf(),
    {
        let pid_controller = match self.pid_controller {
            Some(pid) => pid,
            None => PIDController::new_static_controller(self.target_rate),
        };
        RateLimiter {
            request_rate: Fixed::zero(),
            accepted_request_rate: Fixed::zero(),
            local_request_rate: Fixed::zero(),
            local_accepted_request_rate: Fixed::zero(),
            target_rate: self.target_rate,
            min_rate: self.min_rate,
            max_rate: self.max_rate,
            pid_controller,
            origin: Instant::now(),
            started_at: start,
            last_updated: start,
            previous_output: Fixed::zero(),
            update_interval: self.update_interval,
            window: RateEstimator::new(self.update_interval),
            external_request_rate: self.external_request_rate,
            external_accepted_request_rate: self.external_accepted_request_rate,
        }
    }
}

} // verus!
