//! Adaptive rate limiting for distributed systems.
//!
//! A [`RateLimiter`] decides, request by request, whether the traffic of one
//! segment is admitted. It measures the offered and the accepted request rate
//! over a sliding window ([`estimator`]) and lets a PID controller
//! ([`pid_controller`]) move its target rate between a floor and a ceiling. A
//! [`sentinel::SentinelService`] keeps one limiter per segment and fuses into
//! each of them the rates that peer nodes report.
//!
//! All rates and gains are [`fixed::Fixed`] numbers, signed decimal fixed point
//! with saturating arithmetic, and all instants are microseconds on a timeline
//! that never runs backwards. Every rule of the controller, of the window and
//! of the peer exchange is stated over a mathematical model and proved of the
//! code that runs.

pub mod estimator;
pub mod fixed;
pub mod numeric;
pub mod pid_controller;
pub mod rate_limiter;
pub mod sentinel;
pub mod table;
pub mod timeline;

pub use rate_limiter::{RateLimiter, RateLimiterBuilder, Verdict};
