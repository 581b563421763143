//! A sliding-window estimator of the offered and the accepted request rate.
//!
//! The estimator keeps two queues of instants, one for every request that was
//! offered and one for every request that was accepted, both in the order of
//! time. Instants are microseconds on a timeline that never runs backwards.
//! Its model is [`WindowModel`]; a well-formed estimator has both queues
//! ordered and every accepted instant matched by an offered one.

use crate::fixed::{saturate, Fixed};
use crate::numeric::wide_from_usize;
use std::collections::VecDeque;
use vstd::prelude::*;
use vstd::seq_lib::{lemma_multiset_commutative, to_multiset_build, to_multiset_contains};

verus! {

/// Microseconds per second.
pub const MICROS_PER_SECOND: u64 = 1_000_000;

/// The shortest span, in microseconds, over which a rate is taken: a tenth of
/// a second. It keeps a burst of a few requests from reading as a huge rate.
pub const MIN_SPAN: u64 = 100_000;

/// The raw fixed-point value of one request per microsecond.
pub const RATE_UNIT: u128 = 1_000_000_000_000;

/// The contents of an estimator.
pub ghost struct WindowModel {
    pub offered: Seq<u64>,
    pub accepted: Seq<u64>,
    pub window: u64,
}

/// Whether the instants of a queue are in the order of time.
pub open spec fn ordered(s: Seq<u64>) -> bool {
    forall|i: int, j: int| 0 <= i <= j < s.len() ==> s[i] <= s[j]
}

/// Whether the instant `t` has left a window that ends at `now`.
pub open spec fn expired(t: u64, now: u64, window: u64) -> bool {
    now - t > window
}

/// The number of instants at the front of a queue that have left the window.
pub open spec fn stale_prefix_len(s: Seq<u64>, now: u64, window: u64) -> nat
    decreases s.len(),
{
    if s.len() > 0 && expired(s[0], now, window) {
        1 + stale_prefix_len(s.skip(1), now, window)
    } else {
        0
    }
}

/// A queue after its front has been trimmed: instants are removed from the
/// front for as long as the first one has left the window.
pub open spec fn trimmed(s: Seq<u64>, now: u64, window: u64) -> Seq<u64> {
    s.skip(stale_prefix_len(s, now, window) as int)
}

/// The span, in microseconds, over which the rate of a queue is taken: from
/// its oldest instant to `now`, and at least [`MIN_SPAN`].
pub open spec fn rate_span(oldest: u64, now: u64) -> int {
    if now - oldest < MIN_SPAN {
        MIN_SPAN as int
    } else {
        now - oldest
    }
}

/// The rate of a queue at `now`, in raw fixed-point requests per second: zero
/// for an empty queue, else its length over its span.
pub open spec fn window_rate(s: Seq<u64>, now: u64) -> int {
    if s.len() == 0 {
        0
    } else {
        saturate((s.len() * RATE_UNIT) / rate_span(s[0], now))
    }
}

/// The newest instant that a queue holds, or zero for an empty queue.
pub open spec fn newest(s: Seq<u64>) -> u64 {
    if s.len() == 0 {
        0
    } else {
        s.last()
    }
}

impl WindowModel {
    /// Both queues are ordered, and every accepted instant is matched by an
    /// offered one.
    pub open spec fn wf(self) -> bool {
        &&& ordered(self.offered)
        &&& ordered(self.accepted)
        &&& self.accepted.to_multiset().subset_of(self.offered.to_multiset())
    }

    /// The newest instant on record.
    pub open spec fn latest(self) -> u64 {
        newest(self.offered)
    }

    /// The model after `trim`.
    pub open spec fn trim(self, now: u64) -> WindowModel {
        WindowModel {
            offered: trimmed(self.offered, now, self.window),
            accepted: trimmed(self.accepted, now, self.window),
            window: self.window,
        }
    }

    /// The model after a request was offered at `now` and accepted or not.
    pub open spec fn record(self, now: u64, accepted: bool) -> WindowModel {
        WindowModel {
            offered: self.offered.push(now),
            accepted: if accepted {
                self.accepted.push(now)
            } else {
                self.accepted
            },
            window: self.window,
        }
    }
}

/// The stale prefix is the longest prefix of expired instants.
pub proof fn lemma_stale_prefix(s: Seq<u64>, now: u64, window: u64)
    ensures
        stale_prefix_len(s, now, window) <= s.len(),
        forall|i: int| 0 <= i < stale_prefix_len(s, now, window) ==> expired(s[i], now, window),
        stale_prefix_len(s, now, window) < s.len() ==> !expired(
            s[stale_prefix_len(s, now, window) as int],
            now,
            window,
        ),
    decreases s.len(),
{
    if s.len() > 0 && expired(s[0], now, window) {
        let rest = s.skip(1);
        lemma_stale_prefix(rest, now, window);
        let k = stale_prefix_len(rest, now, window) as int;
        assert forall|i: int| 0 <= i < 1 + k implies expired(s[i], now, window) by {
            if i > 0 {
                assert(s[i] == rest[i - 1]);
            }
        }
        if 1 + k < s.len() {
            assert(s[1 + k] == rest[k]);
        }
    }
}

/// After trimming an ordered queue, no instant that is left has expired, and
/// the queue is still ordered.
pub proof fn lemma_trimmed_is_fresh(s: Seq<u64>, now: u64, window: u64)
    requires
        ordered(s),
    ensures
        ordered(trimmed(s, now, window)),
        forall|i: int|
            0 <= i < trimmed(s, now, window).len() ==> !expired(
                #[trigger] trimmed(s, now, window)[i],
                now,
                window,
            ),
        stale_prefix_len(trimmed(s, now, window), now, window) == 0,
{
    lemma_stale_prefix(s, now, window);
    let k = stale_prefix_len(s, now, window) as int;
    let t = trimmed(s, now, window);
    assert forall|i: int| 0 <= i < t.len() implies !expired(#[trigger] t[i], now, window) by {
        assert(t[i] == s[k + i]);
        assert(s[k] <= s[k + i]);
    }
    assert forall|i: int, j: int| 0 <= i <= j < t.len() implies t[i] <= t[j] by {
        assert(t[i] == s[k + i]);
        assert(t[j] == s[k + j]);
    }
}

/// Trimming an ordered queue removes every expired instant and no other: an
/// instant occurs in the trimmed queue as often as before if it has not
/// expired, and not at all if it has.
pub proof fn lemma_trimmed_count(s: Seq<u64>, now: u64, window: u64, t: u64)
    requires
        ordered(s),
    ensures
        trimmed(s, now, window).to_multiset().count(t) == if expired(t, now, window) {
            0
        } else {
            s.to_multiset().count(t)
        },
{
    lemma_stale_prefix(s, now, window);
    lemma_trimmed_is_fresh(s, now, window);
    let k = stale_prefix_len(s, now, window) as int;
    let stale = s.take(k);
    let fresh = trimmed(s, now, window);
    assert(s =~= stale + fresh);
    lemma_multiset_commutative(stale, fresh);
    to_multiset_contains(stale, t);
    to_multiset_contains(fresh, t);
    if expired(t, now, window) {
        if fresh.contains(t) {
            let i = choose|i: int| 0 <= i < fresh.len() && fresh[i] == t;
            assert(!expired(fresh[i], now, window));
        }
    } else {
        if stale.contains(t) {
            let i = choose|i: int| 0 <= i < stale.len() && stale[i] == t;
            assert(stale[i] == s[i]);
        }
    }
}

/// Trimming keeps an estimator well formed.
pub proof fn lemma_trim_keeps_wf(m: WindowModel, now: u64)
    requires
        m.wf(),
    ensures
        m.trim(now).wf(),
{
    lemma_trimmed_is_fresh(m.offered, now, m.window);
    lemma_trimmed_is_fresh(m.accepted, now, m.window);
    let after = m.trim(now);
    assert forall|t: u64|
        after.accepted.to_multiset().count(t) <= after.offered.to_multiset().count(t) by {
        lemma_trimmed_count(m.offered, now, m.window, t);
        lemma_trimmed_count(m.accepted, now, m.window, t);
    }
}

/// The newest accepted instant is no later than the newest offered one.
pub proof fn lemma_accepted_not_newer(m: WindowModel)
    requires
        m.wf(),
    ensures
        newest(m.accepted) <= newest(m.offered),
        m.accepted.len() > 0 ==> m.offered.len() > 0,
{
    if m.accepted.len() > 0 {
        let t = m.accepted.last();
        to_multiset_contains(m.accepted, t);
        to_multiset_contains(m.offered, t);
        assert(m.accepted.contains(t));
        assert(m.offered.contains(t));
        let i = choose|i: int| 0 <= i < m.offered.len() && m.offered[i] == t;
        assert(m.offered[i] <= m.offered.last());
    }
}

/// Recording a request at an instant that is not earlier than the newest one
/// on record keeps an estimator well formed.
pub proof fn lemma_record_keeps_wf(m: WindowModel, now: u64, accepted: bool)
    requires
        m.wf(),
        m.latest() <= now,
    ensures
        m.record(now, accepted).wf(),
        m.record(now, accepted).latest() == now,
{
    lemma_accepted_not_newer(m);
    to_multiset_build(m.offered, now);
    to_multiset_build(m.accepted, now);
    let after = m.record(now, accepted);
    assert(ordered(after.offered)) by {
        assert forall|i: int, j: int| 0 <= i <= j < after.offered.len() implies after.offered[i]
            <= after.offered[j] by {
            if i < m.offered.len() {
                assert(m.offered[i] <= m.offered.last());
            }
        }
    }
    assert(ordered(after.accepted)) by {
        assert forall|i: int, j: int| 0 <= i <= j < after.accepted.len() implies after.accepted[i]
            <= after.accepted[j] by {
            if i < m.accepted.len() {
                assert(m.accepted[i] <= m.accepted.last());
            }
        }
    }
}

/// Trimming does not make the newest instant on record any later.
pub proof fn lemma_trim_keeps_latest(m: WindowModel, now: u64)
    ensures
        m.trim(now).latest() <= m.latest(),
{
    lemma_stale_prefix(m.offered, now, m.window);
}

/// An empty queue has a rate of zero at every instant.
pub proof fn lemma_empty_window_rate(now: u64)
    ensures
        window_rate(Seq::<u64>::empty(), now) == 0,
{
}

/// A sliding-window rate estimator.
#[derive(Debug)]
pub struct RateEstimator {
    offered: VecDeque<u64>,
    accepted: VecDeque<u64>,
    window: u64,
}

impl View for RateEstimator {
    type V = WindowModel;

    closed spec fn view(&self) -> WindowModel {
        WindowModel { offered: self.offered@, accepted: self.accepted@, window: self.window }
    }
}

fn has_expired(t: u64, now: u64, window: u64) -> (r: bool)
    ensures
        r == expired(t, now, window),
{
    now > t && now - t > window
}

fn trim_queue(queue: &mut VecDeque<u64>, now: u64, window: u64)
    ensures
        final(queue)@ == trimmed(old(queue)@, now, window),
{
    let ghost before = queue@;
    let ghost stale = stale_prefix_len(before, now, window) as int;
    let ghost mut dropped: int = 0;
    proof {
        lemma_stale_prefix(before, now, window);
    }
    while queue.len() > 0 && has_expired(queue[0], now, window)
        invariant
            0 <= dropped <= before.len(),
            queue@ == before.skip(dropped),
            forall|i: int| 0 <= i < dropped ==> expired(before[i], now, window),
            0 <= stale <= before.len(),
            forall|i: int| 0 <= i < stale ==> expired(before[i], now, window),
            stale < before.len() ==> !expired(before[stale], now, window),
        decreases queue@.len(),
    {
        queue.pop_front();
        proof {
            assert(before.skip(dropped)[0] == before[dropped]);
            assert(before.skip(dropped).skip(1) =~= before.skip(dropped + 1));
            dropped = dropped + 1;
        }
    }
    proof {
        if dropped < before.len() {
            assert(queue@[0] == before[dropped]);
        }
        assert(dropped == stale);
    }
}

fn queue_rate(queue: &VecDeque<u64>, now: u64) -> (r: Fixed)
    ensures
        r@ == window_rate(queue@, now),
{
    let len = queue.len();
    if len == 0 {
        return Fixed::zero();
    }
    let oldest = queue[0];
    let elapsed: u64 = if now > oldest {
        now - oldest
    } else {
        0
    };
    let span: u64 = if elapsed < MIN_SPAN {
        MIN_SPAN
    } else {
        elapsed
    };
    let count: u128 = match wide_from_usize(len) {
        Some(c) => c,
        None => 0,
    };
    assert(count * RATE_UNIT <= 0xffff_ffff_ffff_ffff * 1_000_000_000_000) by (nonlinear_arith)
        requires
            0 <= count <= 0xffff_ffff_ffff_ffff,
            RATE_UNIT == 1_000_000_000_000,
    ;
    let rate: u128 = (count * RATE_UNIT) / (span as u128);
    if rate > i64::MAX as u128 {
        Fixed::from_raw(i64::MAX)
    } else {
        Fixed::from_raw(rate as i64)
    }
}

impl RateEstimator {
    /// Whether the estimator is well formed.
    pub open spec fn wf(&self) -> bool {
        self@.wf()
    }

    /// An empty estimator with a window of `window` microseconds.
    pub fn new(window: u64) -> (estimator: Self)
        ensures
            estimator@ == (WindowModel {
                offered: Seq::empty(),
                accepted: Seq::empty(),
                window,
            }),
            estimator.wf(),
    {
        RateEstimator { offered: VecDeque::new(), accepted: VecDeque::new(), window }
    }

    /// Records a request that was offered at `now`.
    pub fn record_offered(&mut self, now: u64)
        requires
            old(self).wf(),
            old(self)@.latest() <= now,
        ensures
            final(self)@ == old(self)@.record(now, false),
            final(self).wf(),
    {
        proof {
            lemma_record_keeps_wf(self@, now, false);
        }
        self.offered.push_back(now);
    }

    /// Records a request that was offered at `now`, and that it was accepted
    /// if `accepted` says so.
    pub fn record(&mut self, now: u64, accepted: bool)
        requires
            old(self).wf(),
            old(self)@.latest() <= now,
        ensures
            final(self)@ == old(self)@.record(now, accepted),
            final(self).wf(),
    {
        proof {
            lemma_record_keeps_wf(self@, now, accepted);
        }
        self.offered.push_back(now);
        if accepted {
            self.accepted.push_back(now);
        }
    }

    /// Records that the request offered last, at `now`, was accepted.
    pub fn record_accepted(&mut self, now: u64)
        requires
            old(self).wf(),
            old(self)@.offered.len() > 0,
            old(self)@.offered.last() == now,
            old(self)@.accepted.to_multiset().count(now) < old(self)@.offered.to_multiset().count(
                now,
            ),
        ensures
            final(self)@ == (WindowModel {
                accepted: old(self)@.accepted.push(now),
                ..old(self)@
            }),
            final(self).wf(),
    {
        proof {
            let m = self@;
            lemma_accepted_not_newer(m);
            to_multiset_build(m.accepted, now);
            let pushed = m.accepted.push(now);
            assert forall|i: int, j: int| 0 <= i <= j < pushed.len() implies pushed[i]
                <= pushed[j] by {
                if i < m.accepted.len() {
                    assert(m.accepted[i] <= m.accepted.last());
                }
            }
        }
        self.accepted.push_back(now);
    }

    /// Removes from the front of both queues the instants that have left the
    /// window that ends at `now`.
    pub fn trim(&mut self, now: u64)
        requires
            old(self).wf(),
        ensures
            final(self)@ == old(self)@.trim(now),
            final(self).wf(),
    {
        proof {
            lemma_trim_keeps_wf(self@, now);
        }
        trim_queue(&mut self.accepted, now, self.window);
        trim_queue(&mut self.offered, now, self.window);
    }

    /// The offered and the accepted rate at `now`, in requests per second.
    pub fn rates(&self, now: u64) -> (rates: (Fixed, Fixed))
        ensures
            rates.0@ == window_rate(self@.offered, now),
            rates.1@ == window_rate(self@.accepted, now),
    {
        (queue_rate(&self.offered, now), queue_rate(&self.accepted, now))
    }

    /// The newest instant on record, or zero if there is none.
    pub fn latest(&self) -> (t: u64)
        ensures
            t == self@.latest(),
    {
        let len = self.offered.len();
        if len == 0 {
            0
        } else {
            self.offered[len - 1]
        }
    }

    /// The number of offered requests on record.
    pub fn offered_len(&self) -> (n: usize)
        ensures
            n == self@.offered.len(),
    {
        self.offered.len()
    }

    /// The number of accepted requests on record.
    pub fn accepted_len(&self) -> (n: usize)
        ensures
            n == self@.accepted.len(),
    {
        self.accepted.len()
    }

    /// The length of the window, in microseconds.
    pub fn window(&self) -> (w: u64)
        ensures
            w == self@.window,
    {
        self.window
    }
}

} // verus!
