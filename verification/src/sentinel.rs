//! The sentinel: one rate limiter per segment, and the latest rates that each
//! peer node has reported.
//!
//! A peer exchange stores the peer's report, sets in every limiter the sum of
//! what all peers report for its segment, and answers with this node's own
//! rates. The front door admits a request against the limiter of its segment,
//! which it makes from the default configuration if the segment is new.
//!
//! The model is [`SentinelModel`]. Segments and peers are tables keyed by name
//! (see [`crate::table`]); [`SentinelModel::exchanged`] and
//! [`SentinelModel::admitted`] define the two steps, and the lemmas at the end
//! state what holds of them.

use crate::fixed::{saturate, Fixed};
use crate::pid_controller::{PIDController, PidModel};
use crate::rate_limiter::{
    lemma_admitted_is_wf, LimiterModel, RateLimiter, RateLimiterBuilder, Verdict,
    DEFAULT_UPDATE_INTERVAL,
};
use crate::table::{
    distinct_keys, has_key, lemma_lookup_first, lemma_lookup_has_key, lemma_upserted,
    lemma_upserted_keeps_others, lookup, position, upserted,
};
use crate::timeline::micros_since;
use std::time::Instant;
use vstd::prelude::*;

verus! {

/// The rates of one segment on one node, in raw fixed-point requests per
/// second.
pub ghost struct RateReport {
    pub request_rate: int,
    pub accepted_request_rate: int,
}

/// The rates of one segment on one node.
#[derive(Clone, Copy, Debug, PartialEq, Eq, Structural)]
pub struct MetricData {
    /// Offered requests per second.
    pub request_rate: Fixed,
    /// Accepted requests per second.
    pub accepted_request_rate: Fixed,
}

impl View for MetricData {
    type V = RateReport;

    open spec fn view(&self) -> RateReport {
        RateReport {
            request_rate: self.request_rate@,
            accepted_request_rate: self.accepted_request_rate@,
        }
    }
}

impl DeepView for MetricData {
    type V = RateReport;

    open spec fn deep_view(&self) -> RateReport {
        self@
    }
}

/// What one node tells another in a peer exchange: who it is, and its own
/// rates by segment.
pub ghost struct MetricsModel {
    pub source: Seq<char>,
    pub segments: Seq<(Seq<char>, RateReport)>,
}

impl MetricsModel {
    /// No reported rate is negative.
    pub open spec fn wf(self) -> bool {
        nonnegative(self.segments)
    }
}

/// What one node tells another in a peer exchange.
#[derive(Clone, Debug)]
pub struct Metrics {
    /// The name of the node that reports.
    pub source: String,
    /// Its own rates, by segment.
    pub segments: Vec<(String, MetricData)>,
}

impl View for Metrics {
    type V = MetricsModel;

    open spec fn view(&self) -> MetricsModel {
        MetricsModel { source: self.source@, segments: self.segments.deep_view() }
    }
}

/// The configuration of a segment, in raw fixed-point requests per second.
pub ghost struct ConfigModel {
    pub target_tps: int,
    pub min_tps: Option<int>,
    pub max_tps: Option<int>,
}

impl ConfigModel {
    /// The floor of the target rate: the target itself where none is given.
    pub open spec fn floor(self) -> int {
        match self.min_tps {
            Some(min) => min,
            None => self.target_tps,
        }
    }

    /// The ceiling of the target rate: the target itself where none is given.
    pub open spec fn ceiling(self) -> int {
        match self.max_tps {
            Some(max) => max,
            None => self.target_tps,
        }
    }

    /// The target lies between the floor and the ceiling, which are
    /// representable rates.
    pub open spec fn wf(self) -> bool {
        i64::MIN <= self.floor() <= self.target_tps <= self.ceiling() <= i64::MAX
    }

    /// The limiter that is made from this configuration at `start`, with the
    /// controller `pid`.
    pub open spec fn limiter(self, pid: PidModel, start: u64) -> LimiterModel {
        LimiterModel::initial(
            self.target_tps,
            self.floor(),
            self.ceiling(),
            pid,
            DEFAULT_UPDATE_INTERVAL,
            0,
            0,
            start,
        )
    }
}

/// The configuration of a segment.
#[derive(Clone, Copy, Debug)]
pub struct SegmentConfig {
    /// The target rate at the start.
    pub target_tps: Fixed,
    /// The floor of the target rate, if it is not the target itself.
    pub min_tps: Option<Fixed>,
    /// The ceiling of the target rate, if it is not the target itself.
    pub max_tps: Option<Fixed>,
}

impl View for SegmentConfig {
    type V = ConfigModel;

    open spec fn view(&self) -> ConfigModel {
        ConfigModel {
            target_tps: self.target_tps@,
            min_tps: match self.min_tps {
                Some(min) => Some(min@),
                None => None,
            },
            max_tps: match self.max_tps {
                Some(max) => Some(max@),
                None => None,
            },
        }
    }
}

impl DeepView for SegmentConfig {
    type V = ConfigModel;

    open spec fn deep_view(&self) -> ConfigModel {
        self@
    }
}

impl SegmentConfig {
    /// Whether the target lies between the floor and the ceiling.
    pub fn is_valid(&self) -> (valid: bool)
        ensures
            valid == self@.wf(),
    {
        let floor_ok = match self.min_tps {
            Some(min) => min.raw() <= self.target_tps.raw(),
            None => true,
        };
        let ceiling_ok = match self.max_tps {
            Some(max) => self.target_tps.raw() <= max.raw(),
            None => true,
        };
        floor_ok && ceiling_ok
    }
}

/// Whether no rate of a report is negative.
pub open spec fn nonnegative(snapshot: Seq<(Seq<char>, RateReport)>) -> bool {
    forall|k: int|
        0 <= k < snapshot.len() ==> (#[trigger] snapshot[k]).1.request_rate >= 0
            && snapshot[k].1.accepted_request_rate >= 0
}

/// What a report says of a segment: the rates under its name, or zero rates
/// if the report does not name it.
pub open spec fn reported(
    snapshot: Seq<(Seq<char>, RateReport)>,
    segment: Seq<char>,
) -> RateReport {
    match lookup(snapshot, segment) {
        Some(rates) => rates,
        None => RateReport { request_rate: 0, accepted_request_rate: 0 },
    }
}

/// The sums, over all peers, of what each peer's latest report says of a
/// segment.
pub open spec fn peers_total(
    peers: Seq<(Seq<char>, Seq<(Seq<char>, RateReport)>)>,
    segment: Seq<char>,
) -> RateReport
    decreases peers.len(),
{
    if peers.len() == 0 {
        RateReport { request_rate: 0, accepted_request_rate: 0 }
    } else {
        let rest = peers_total(peers.drop_last(), segment);
        let last = reported(peers.last().1, segment);
        RateReport {
            request_rate: rest.request_rate + last.request_rate,
            accepted_request_rate: rest.accepted_request_rate + last.accepted_request_rate,
        }
    }
}

/// A limiter with the rates of the peers set to the sums of what they report
/// for `segment`, saturated.
pub open spec fn fused_limiter(
    limiter: LimiterModel,
    peers: Seq<(Seq<char>, Seq<(Seq<char>, RateReport)>)>,
    segment: Seq<char>,
) -> LimiterModel {
    LimiterModel {
        external_request_rate: saturate(peers_total(peers, segment).request_rate),
        external_accepted_request_rate: saturate(
            peers_total(peers, segment).accepted_request_rate,
        ),
        ..limiter
    }
}

/// The segments with the peers' rates fused into every limiter.
pub open spec fn fused(
    segments: Seq<(Seq<char>, LimiterModel)>,
    peers: Seq<(Seq<char>, Seq<(Seq<char>, RateReport)>)>,
) -> Seq<(Seq<char>, LimiterModel)> {
    segments.map_values(
        |s: (Seq<char>, LimiterModel)| (s.0, fused_limiter(s.1, peers, s.0)),
    )
}

/// This node's own rates by segment: the local rates that each limiter
/// measured last, without what the peers report.
pub open spec fn local_rates(segments: Seq<(Seq<char>, LimiterModel)>) -> Seq<
    (Seq<char>, RateReport),
> {
    segments.map_values(
        |s: (Seq<char>, LimiterModel)|
            (
                s.0,
                RateReport {
                    request_rate: s.1.local_request_rate,
                    accepted_request_rate: s.1.local_accepted_request_rate,
                },
            ),
    )
}

/// The segments made from a list of configurations, in the order of the list.
/// Where a name comes again, the first configuration under it stands.
pub open spec fn configured(configs: Seq<(Seq<char>, ConfigModel)>, pid: PidModel) -> Seq<
    (Seq<char>, LimiterModel),
>
    decreases configs.len(),
{
    if configs.len() == 0 {
        Seq::empty()
    } else {
        let rest = configured(configs.drop_last(), pid);
        let (name, config) = configs.last();
        if has_key(rest, name) {
            rest
        } else {
            rest.push((name, config.limiter(pid, 0)))
        }
    }
}

/// The peers known at the start, each with an empty report, in the order of
/// the list. The node's own name and names that come again are left out.
pub open spec fn enrolled(ids: Seq<Seq<char>>, hostname: Seq<char>) -> Seq<
    (Seq<char>, Seq<(Seq<char>, RateReport)>),
>
    decreases ids.len(),
{
    if ids.len() == 0 {
        Seq::empty()
    } else {
        let rest = enrolled(ids.drop_last(), hostname);
        let id = ids.last();
        if id == hostname || has_key(rest, id) {
            rest
        } else {
            rest.push((id, Seq::empty()))
        }
    }
}

/// The state of a sentinel.
pub ghost struct SentinelModel {
    pub hostname: Seq<char>,
    pub segments: Seq<(Seq<char>, LimiterModel)>,
    pub peers: Seq<(Seq<char>, Seq<(Seq<char>, RateReport)>)>,
    pub default_config: ConfigModel,
    pub pid: PidModel,
}

impl SentinelModel {
    /// No segment and no peer occurs twice, every limiter is well formed, no
    /// peer has this node's own name, no peer reports a negative rate, and the
    /// default configuration is valid.
    pub open spec fn wf(self) -> bool {
        &&& distinct_keys(self.segments)
        &&& forall|i: int| 0 <= i < self.segments.len() ==> (#[trigger] self.segments[i]).1.wf()
        &&& distinct_keys(self.peers)
        &&& !has_key(self.peers, self.hostname)
        &&& forall|i: int| 0 <= i < self.peers.len() ==> nonnegative((#[trigger] self.peers[i]).1)
        &&& self.default_config.wf()
    }

    /// The peers after a report came in. A report under this node's own name
    /// is ignored; any other replaces what its source reported before.
    pub open spec fn peers_after(self, incoming: MetricsModel) -> Seq<
        (Seq<char>, Seq<(Seq<char>, RateReport)>),
    > {
        if incoming.source == self.hostname {
            self.peers
        } else {
            upserted(self.peers, incoming.source, incoming.segments)
        }
    }

    /// The state after a peer exchange.
    pub open spec fn exchanged(self, incoming: MetricsModel) -> SentinelModel {
        let peers = self.peers_after(incoming);
        SentinelModel { peers, segments: fused(self.segments, peers), ..self }
    }

    /// This node's own report.
    pub open spec fn report(self) -> MetricsModel {
        MetricsModel { source: self.hostname, segments: local_rates(self.segments) }
    }

    /// The limiter that decides on a request for `segment` at `now`: the one
    /// of the segment, or a new one from the default configuration.
    pub open spec fn limiter_for(self, segment: Seq<char>, now: u64) -> LimiterModel {
        match lookup(self.segments, segment) {
            Some(limiter) => limiter,
            None => self.default_config.limiter(self.pid, now),
        }
    }

    /// The verdict on a request for `segment` at `now`.
    pub open spec fn verdict(self, segment: Seq<char>, now: u64) -> Verdict {
        self.limiter_for(segment, now).verdict(now)
    }

    /// The state after a request for `segment` at `now` was decided.
    pub open spec fn admitted(self, segment: Seq<char>, now: u64) -> SentinelModel {
        SentinelModel {
            segments: upserted(
                self.segments,
                segment,
                self.limiter_for(segment, now).admitted(now),
            ),
            ..self
        }
    }

    /// Whether `after` and `throttled` are the outcome of a request for
    /// `segment` at `now`, an instant that is not earlier than the newest on
    /// the segment's record.
    pub open spec fn admission_at(
        self,
        segment: Seq<char>,
        now: u64,
        after: SentinelModel,
        throttled: bool,
    ) -> bool {
        &&& self.limiter_for(segment, now).window.latest() <= now
        &&& after == self.admitted(segment, now)
        &&& throttled == (self.verdict(segment, now) == Verdict::Deny)
    }
}

/// The sums of reports without negative rates are not negative.
pub proof fn lemma_peers_total_nonnegative(
    peers: Seq<(Seq<char>, Seq<(Seq<char>, RateReport)>)>,
    segment: Seq<char>,
)
    requires
        forall|i: int| 0 <= i < peers.len() ==> nonnegative((#[trigger] peers[i]).1),
    ensures
        peers_total(peers, segment).request_rate >= 0,
        peers_total(peers, segment).accepted_request_rate >= 0,
    decreases peers.len(),
{
    if peers.len() > 0 {
        let rest = peers.drop_last();
        assert forall|i: int| 0 <= i < rest.len() implies nonnegative((#[trigger] rest[i]).1) by {
            assert(rest[i] == peers[i]);
        }
        lemma_peers_total_nonnegative(rest, segment);
        lemma_reported_nonnegative(peers.last().1, segment);
    }
}

/// What a report without negative rates says of a segment is not negative.
pub proof fn lemma_reported_nonnegative(snapshot: Seq<(Seq<char>, RateReport)>, segment: Seq<char>)
    requires
        nonnegative(snapshot),
    ensures
        reported(snapshot, segment).request_rate >= 0,
        reported(snapshot, segment).accepted_request_rate >= 0,
    decreases snapshot.len(),
{
    if snapshot.len() > 0 && snapshot[0].0 != segment {
        let rest = snapshot.skip(1);
        assert forall|k: int| 0 <= k < rest.len() implies (#[trigger] rest[k]).1.request_rate >= 0
            && rest[k].1.accepted_request_rate >= 0 by {
            assert(rest[k] == snapshot[k + 1]);
        }
        lemma_reported_nonnegative(rest, segment);
    }
}

/// A peer exchange keeps a sentinel well formed.
pub proof fn lemma_exchanged_is_wf(m: SentinelModel, incoming: MetricsModel)
    requires
        m.wf(),
        incoming.wf(),
    ensures
        m.exchanged(incoming).wf(),
{
    let after = m.exchanged(incoming);
    let peers = after.peers;
    if incoming.source != m.hostname {
        lemma_upserted(m.peers, incoming.source, incoming.segments);
        lemma_upserted_keeps_others(m.peers, incoming.source, incoming.segments, m.hostname);
        lemma_lookup_has_key(m.peers, m.hostname);
        lemma_lookup_has_key(peers, m.hostname);
        assert forall|i: int| 0 <= i < peers.len() implies nonnegative((#[trigger] peers[i]).1) by {
            if i < m.peers.len() {
                assert(peers[i] == m.peers[i] || peers[i] == (
                    incoming.source,
                    incoming.segments,
                ));
            }
        }
    }
    assert forall|i: int| 0 <= i < after.segments.len() implies (
    #[trigger] after.segments[i]).1.wf() by {
        assert(m.segments[i].1.wf());
        lemma_peers_total_nonnegative(peers, m.segments[i].0);
    }
    assert forall|i: int, j: int| 0 <= i < j < after.segments.len() implies (
    #[trigger] after.segments[i]).0 != (#[trigger] after.segments[j]).0 by {
        assert(after.segments[i].0 == m.segments[i].0);
        assert(after.segments[j].0 == m.segments[j].0);
    }
}

/// Why a peer exchange was refused.
#[derive(Clone, Copy, Debug, PartialEq, Eq, Structural)]
pub enum ExchangeError {
    /// The report holds a negative rate.
    NegativeRate,
}

/// The sentinel of one node.
#[derive(Debug)]
pub struct SentinelService {
    segments: Vec<(String, RateLimiter)>,
    node_metrics: Vec<(String, Vec<(String, MetricData)>)>,
    hostname: String,
    default_segment_config: SegmentConfig,
    pid_controller: PIDController,
    origin: Instant,
}

impl View for SentinelService {
    type V = SentinelModel;

    closed spec fn view(&self) -> SentinelModel {
        SentinelModel {
            hostname: self.hostname@,
            segments: self.segments.deep_view(),
            peers: self.node_metrics.deep_view(),
            default_config: self.default_segment_config@,
            pid: self.pid_controller@,
        }
    }
}

fn is_nonnegative(snapshot: &Vec<(String, MetricData)>) -> (ok: bool)
    ensures
        ok == nonnegative(snapshot.deep_view()),
{
    let ghost model = snapshot.deep_view();
    let mut k: usize = 0;
    while k < snapshot.len()
        invariant
            k <= snapshot.len(),
            model == snapshot.deep_view(),
            forall|j: int|
                0 <= j < k ==> (#[trigger] model[j]).1.request_rate >= 0
                    && model[j].1.accepted_request_rate >= 0,
        decreases snapshot.len() - k,
    {
        let rates = snapshot[k].1;
        if rates.request_rate.raw() < 0 || rates.accepted_request_rate.raw() < 0 {
            assert(model[k as int].1 == rates@);
            return false;
        }
        assert(model[k as int].1 == rates@);
        k += 1;
    }
    true
}

fn reported_by(snapshot: &Vec<(String, MetricData)>, segment: &String) -> (rates: MetricData)
    ensures
        rates@ == reported(snapshot.deep_view(), segment@),
{
    let ghost model = snapshot.deep_view();
    proof {
        lemma_lookup_has_key(model, segment@);
    }
    match position(snapshot, segment) {
        Some(i) => {
            proof {
                assert forall|j: int| 0 <= j < i implies (#[trigger] model[j]).0 != segment@ by {
                    assert(model[j].0 == snapshot[j].0@);
                }
                assert(model[i as int].0 == snapshot[i as int].0@);
                lemma_lookup_first(model, segment@, i as int);
            }
            snapshot[i].1
        },
        None => {
            proof {
                if has_key(model, segment@) {
                    let j = choose|j: int| 0 <= j < model.len() && (#[trigger] model[j]).0
                        == segment@;
                    assert(model[j].0 == snapshot[j].0@);
                }
            }
            MetricData { request_rate: Fixed::zero(), accepted_request_rate: Fixed::zero() }
        },
    }
}

fn saturated(total: i128) -> (rate: Fixed)
    requires
        total >= 0,
    ensures
        rate@ == saturate(total as int),
{
    if total > i64::MAX as i128 {
        Fixed::from_raw(i64::MAX)
    } else {
        Fixed::from_raw(total as i64)
    }
}

fn total_of_peers(peers: &Vec<(String, Vec<(String, MetricData)>)>, segment: &String) -> (totals: (
    Fixed,
    Fixed,
))
    requires
        forall|i: int|
            0 <= i < peers.deep_view().len() ==> nonnegative((#[trigger] peers.deep_view()[i]).1),
    ensures
        totals.0@ == saturate(peers_total(peers.deep_view(), segment@).request_rate),
        totals.1@ == saturate(peers_total(peers.deep_view(), segment@).accepted_request_rate),
        totals.0@ >= 0,
        totals.1@ >= 0,
{
    let ghost model = peers.deep_view();
    let mut offered: i128 = 0;
    let mut accepted: i128 = 0;
    let mut i: usize = 0;
    while i < peers.len()
        invariant
            i <= peers.len(),
            model == peers.deep_view(),
            forall|j: int| 0 <= j < model.len() ==> nonnegative((#[trigger] model[j]).1),
            offered == peers_total(model.take(i as int), segment@).request_rate,
            accepted == peers_total(model.take(i as int), segment@).accepted_request_rate,
            0 <= offered <= i * i64::MAX,
            0 <= accepted <= i * i64::MAX,
        decreases peers.len() - i,
    {
        let rates = reported_by(&peers[i].1, segment);
        proof {
            assert(model.take(i + 1).drop_last() =~= model.take(i as int));
            assert(model.take(i + 1).last() == model[i as int]);
            assert(model[i as int].1 == peers[i as int].1.deep_view());
            lemma_reported_nonnegative(model[i as int].1, segment@);
            assert((i + 1) * i64::MAX == i * i64::MAX + i64::MAX) by (nonlinear_arith);
            assert(i * i64::MAX <= 0xffff_ffff_ffff_ffff * 0x7fff_ffff_ffff_ffff) by (
                nonlinear_arith)
                requires
                    0 <= i <= 0xffff_ffff_ffff_ffff,
            ;
        }
        offered = offered + rates.request_rate.raw() as i128;
        accepted = accepted + rates.accepted_request_rate.raw() as i128;
        i += 1;
    }
    assert(model.take(i as int) =~= model);
    (saturated(offered), saturated(accepted))
}

fn fuse(
    segments: &mut Vec<(String, RateLimiter)>,
    peers: &Vec<(String, Vec<(String, MetricData)>)>,
)
    requires
        forall|i: int|
            0 <= i < peers.deep_view().len() ==> nonnegative((#[trigger] peers.deep_view()[i]).1),
    ensures
        final(segments).deep_view() == fused(old(segments).deep_view(), peers.deep_view()),
{
    let ghost before = segments.deep_view();
    let ghost after = fused(before, peers.deep_view());
    let mut i: usize = 0;
    while i < segments.len()
        invariant
            i <= segments.len(),
            segments.len() == before.len(),
            after == fused(before, peers.deep_view()),
            forall|j: int|
                0 <= j < peers.deep_view().len() ==> nonnegative(
                    (#[trigger] peers.deep_view()[j]).1,
                ),
            forall|j: int| 0 <= j < i ==> (#[trigger] segments.deep_view()[j]) == after[j],
            forall|j: int|
                i <= j < before.len() ==> (#[trigger] segments.deep_view()[j]) == before[j],
        decreases segments.len() - i,
    {
        let ghost current = segments.deep_view();
        let totals = total_of_peers(peers, &segments[i].0);
        assert(current[i as int] == before[i as int]);
        segments[i].1.set_external_request_rate(totals.0);
        segments[i].1.set_external_accepted_request_rate(totals.1);
        proof {
            let now = segments.deep_view();
            assert(now[i as int] == after[i as int]);
            assert forall|j: int| 0 <= j < i implies (#[trigger] now[j]) == after[j] by {
                assert(now[j] == current[j]);
            }
            assert forall|j: int| i < j < before.len() implies (#[trigger] now[j]) == before[j] by {
                assert(now[j] == current[j]);
            }
        }
        i += 1;
    }
    assert(segments.deep_view() =~= after);
}

fn local_report(segments: &Vec<(String, RateLimiter)>) -> (report: Vec<(String, MetricData)>)
    ensures
        report.deep_view() == local_rates(segments.deep_view()),
{
    let ghost expected = local_rates(segments.deep_view());
    let mut report: Vec<(String, MetricData)> = Vec::new();
    let mut i: usize = 0;
    while i < segments.len()
        invariant
            i <= segments.len(),
            report.len() == i,
            expected == local_rates(segments.deep_view()),
            forall|j: int| 0 <= j < i ==> (#[trigger] report.deep_view()[j]) == expected[j],
        decreases segments.len() - i,
    {
        let ghost so_far = report.deep_view();
        let name = segments[i].0.clone();
        let rates = MetricData {
            request_rate: segments[i].1.local_request_rate(),
            accepted_request_rate: segments[i].1.local_accepted_request_rate(),
        };
        report.push((name, rates));
        proof {
            let now = report.deep_view();
            assert(now[i as int] == expected[i as int]);
            assert forall|j: int| 0 <= j < i implies (#[trigger] now[j]) == expected[j] by {
                assert(now[j] == so_far[j]);
            }
        }
        i += 1;
    }
    assert(report.deep_view() =~= expected);
    report
}

fn store_report(
    peers: &mut Vec<(String, Vec<(String, MetricData)>)>,
    source: String,
    snapshot: Vec<(String, MetricData)>,
)
    requires
        distinct_keys(old(peers).deep_view()),
    ensures
        final(peers).deep_view() == upserted(
            old(peers).deep_view(),
            source@,
            snapshot.deep_view(),
        ),
{
    let ghost before = peers.deep_view();
    let ghost expected = upserted(before, source@, snapshot.deep_view());
    match position(peers, &source) {
        Some(i) => {
            proof {
                assert(before[i as int].0 == source@);
                assert(has_key(before, source@));
            }
            peers.set(i, (source, snapshot));
            proof {
                let now = peers.deep_view();
                assert forall|j: int| 0 <= j < now.len() implies now[j] == expected[j] by {
                    if j != i {
                        assert(now[j] == before[j]);
                        if j < i {
                            assert(before[j].0 != before[i as int].0);
                        } else {
                            assert(before[i as int].0 != before[j].0);
                        }
                    }
                }
                assert(now =~= expected);
            }
        },
        None => {
            proof {
                if has_key(before, source@) {
                    let j = choose|j: int| 0 <= j < before.len() && (#[trigger] before[j]).0
                        == source@;
                    assert(before[j].0 == peers[j].0@);
                }
            }
            peers.push((source, snapshot));
            proof {
                let now = peers.deep_view();
                assert forall|j: int| 0 <= j < now.len() implies now[j] == expected[j] by {
                    if j < before.len() {
                        assert(now[j] == before[j]);
                    }
                }
                assert(now =~= expected);
            }
        },
    }
}

fn make_limiter(config: &SegmentConfig, pid: PIDController, start: u64) -> (limiter: RateLimiter)
    requires
        config@.wf(),
    ensures
        limiter@ == config@.limiter(pid@, start),
        limiter.wf(),
{
    let mut builder = RateLimiterBuilder::new(config.target_tps);
    if let Some(min_tps) = config.min_tps {
        builder = builder.min_rate(min_tps);
    }
    if let Some(max_tps) = config.max_tps {
        builder = builder.max_rate(max_tps);
    }
    builder.pid_controller(pid).build_at(start)
}

fn configure(configs: &Vec<(String, SegmentConfig)>, pid: PIDController) -> (segments: Vec<
    (String, RateLimiter),
>)
    requires
        forall|i: int|
            0 <= i < configs.deep_view().len() ==> (#[trigger] configs.deep_view()[i]).1.wf(),
    ensures
        segments.deep_view() == configured(configs.deep_view(), pid@),
        distinct_keys(segments.deep_view()),
        forall|i: int|
            0 <= i < segments.deep_view().len() ==> (#[trigger] segments.deep_view()[i]).1.wf(),
{
    let ghost model = configs.deep_view();
    let mut segments: Vec<(String, RateLimiter)> = Vec::new();
    let mut i: usize = 0;
    while i < configs.len()
        invariant
            i <= configs.len(),
            model == configs.deep_view(),
            forall|j: int| 0 <= j < model.len() ==> (#[trigger] model[j]).1.wf(),
            segments.deep_view() == configured(model.take(i as int), pid@),
            distinct_keys(segments.deep_view()),
            forall|j: int|
                0 <= j < segments.deep_view().len() ==> (#[trigger] segments.deep_view()[j]).1.wf(),
        decreases configs.len() - i,
    {
        let ghost so_far = segments.deep_view();
        let name = configs[i].0.clone();
        proof {
            assert(model.take(i + 1).drop_last() =~= model.take(i as int));
            assert(model.take(i + 1).last() == model[i as int]);
            assert(model[i as int].0 == name@);
            assert(model[i as int].1 == configs[i as int].1@);
        }
        match position(&segments, &name) {
            Some(k) => {
                proof {
                    assert(so_far[k as int].0 == name@);
                    assert(has_key(so_far, name@));
                }
            },
            None => {
                proof {
                    if has_key(so_far, name@) {
                        let j = choose|j: int| 0 <= j < so_far.len() && (#[trigger] so_far[j]).0
                            == name@;
                        assert(so_far[j].0 == segments[j].0@);
                    }
                }
                let limiter = make_limiter(&configs[i].1, pid, 0);
                segments.push((name, limiter));
                proof {
                    let now = segments.deep_view();
                    let expected = so_far.push((name@, model[i as int].1.limiter(pid@, 0)));
                    assert forall|j: int| 0 <= j < now.len() implies now[j] == expected[j] by {
                        if j < so_far.len() {
                            assert(now[j] == so_far[j]);
                        }
                    }
                    assert(now =~= expected);
                    assert forall|a: int, b: int| 0 <= a < b < now.len() implies (
                    #[trigger] now[a]).0 != (#[trigger] now[b]).0 by {
                        assert(now[a] == so_far[a]);
                        if b < so_far.len() {
                            assert(now[b] == so_far[b]);
                        }
                    }
                }
            },
        }
        i += 1;
    }
    assert(model.take(i as int) =~= model);
    segments
}

fn enroll(ids: &Vec<String>, hostname: &String) -> (peers: Vec<(String, Vec<(String, MetricData)>)>)
    ensures
        peers.deep_view() == enrolled(ids.deep_view(), hostname@),
        distinct_keys(peers.deep_view()),
        !has_key(peers.deep_view(), hostname@),
        forall|i: int|
            0 <= i < peers.deep_view().len() ==> nonnegative((#[trigger] peers.deep_view()[i]).1),
{
    let ghost model = ids.deep_view();
    let mut peers: Vec<(String, Vec<(String, MetricData)>)> = Vec::new();
    let mut i: usize = 0;
    while i < ids.len()
        invariant
            i <= ids.len(),
            model == ids.deep_view(),
            peers.deep_view() == enrolled(model.take(i as int), hostname@),
            distinct_keys(peers.deep_view()),
            !has_key(peers.deep_view(), hostname@),
            forall|j: int|
                0 <= j < peers.deep_view().len() ==> nonnegative(
                    (#[trigger] peers.deep_view()[j]).1,
                ),
        decreases ids.len() - i,
    {
        let ghost so_far = peers.deep_view();
        let id = ids[i].clone();
        proof {
            assert(model.take(i + 1).drop_last() =~= model.take(i as int));
            assert(model.take(i + 1).last() == model[i as int]);
            assert(model[i as int] == id@);
        }
        if id != *hostname {
            match position(&peers, &id) {
                Some(k) => {
                    proof {
                        assert(so_far[k as int].0 == id@);
                        assert(has_key(so_far, id@));
                    }
                },
                None => {
                    proof {
                        if has_key(so_far, id@) {
                            let j = choose|j: int| 0 <= j < so_far.len() && (#[trigger] so_far[j]).0
                                == id@;
                            assert(so_far[j].0 == peers[j].0@);
                        }
                    }
                    let empty: Vec<(String, MetricData)> = Vec::new();
                    peers.push((id, empty));
                    proof {
                        let now = peers.deep_view();
                        let expected = so_far.push((id@, Seq::empty()));
                        assert(now[so_far.len() as int].1 =~= Seq::empty());
                        assert forall|j: int| 0 <= j < now.len() implies now[j] == expected[j] by {
                            if j < so_far.len() {
                                assert(now[j] == so_far[j]);
                            }
                        }
                        assert(now =~= expected);
                        assert forall|a: int, b: int| 0 <= a < b < now.len() implies (
                        #[trigger] now[a]).0 != (#[trigger] now[b]).0 by {
                            assert(now[a] == so_far[a]);
                            if b < so_far.len() {
                                assert(now[b] == so_far[b]);
                            }
                        }
                        if has_key(now, hostname@) {
                            let j = choose|j: int| 0 <= j < now.len() && (#[trigger] now[j]).0
                                == hostname@;
                            if j < so_far.len() {
                                assert(so_far[j].0 == hostname@);
                            }
                        }
                    }
                },
            }
        }
        i += 1;
    }
    assert(model.take(i as int) =~= model);
    peers
}

impl SentinelService {
    /// Whether the sentinel is well formed.
    pub open spec fn wf(&self) -> bool {
        self@.wf()
    }

    /// The sentinel of the node `hostname`.
    ///
    /// It has one limiter for each configured segment, made with its floor and
    /// ceiling (the target where one is not given) and a copy of the
    /// controller, and an empty report for each of the peers. Its timeline
    /// starts now, at zero.
    pub fn new(
        hostname: String,
        peers: Vec<String>,
        segments: Vec<(String, SegmentConfig)>,
        default_segment_config: SegmentConfig,
        pid_controller: PIDController,
    ) -> (sentinel: Self)
        requires
            default_segment_config@.wf(),
            forall|i: int|
                0 <= i < segments.deep_view().len() ==> (#[trigger] segments.deep_view()[i]).1.wf(),
        ensures
            sentinel@ == (SentinelModel {
                hostname: hostname@,
                segments: configured(segments.deep_view(), pid_controller@),
                peers: enrolled(peers.deep_view(), hostname@),
                default_config: default_segment_config@,
                pid: pid_controller@,
            }),
            sentinel.wf(),
    {
        let segment_limiters = configure(&segments, pid_controller);
        let node_metrics = enroll(&peers, &hostname);
        SentinelService {
            segments: segment_limiters,
            node_metrics,
            hostname,
            default_segment_config,
            pid_controller,
            origin: Instant::now(),
        }
    }

    /// Takes a peer's report in and answers with this node's own.
    ///
    /// A report with a negative rate is refused and changes nothing. Any other
    /// replaces what its source reported before, unless the source is this
    /// node itself; then every limiter gets the sums of what the peers report
    /// for its segment. Segments that a peer names and this node does not have
    /// are kept in the peer's report and otherwise ignored.
    pub fn exchange_metrics(&mut self, incoming: Metrics) -> (result: Result<
        Metrics,
        ExchangeError,
    >)
        requires
            old(self).wf(),
        ensures
            final(self).wf(),
            match result {
                Ok(response) => {
                    &&& incoming@.wf()
                    &&& final(self)@ == old(self)@.exchanged(incoming@)
                    &&& response@ == final(self)@.report()
                },
                Err(error) => {
                    &&& !incoming@.wf()
                    &&& error == ExchangeError::NegativeRate
                    &&& final(self)@ == old(self)@
                },
            },
    {
        if !is_nonnegative(&incoming.segments) {
            return Err(ExchangeError::NegativeRate);
        }
        proof {
            lemma_exchanged_is_wf(self@, incoming@);
        }
        let ghost report = incoming@;
        let source = incoming.source;
        let snapshot = incoming.segments;
        if source != self.hostname {
            store_report(&mut self.node_metrics, source, snapshot);
        }
        assert(self.node_metrics.deep_view() == old(self)@.peers_after(report));
        fuse(&mut self.segments, &self.node_metrics);
        let response = Metrics {
            source: self.hostname.clone(),
            segments: local_report(&self.segments),
        };
        Ok(response)
    }

    /// Decides on a request for `segment` that arrives at `now`, and records
    /// it. A segment that is not known yet gets a limiter from the default
    /// configuration, whose timeline starts at `now`.
    pub fn admit_at(&mut self, segment: &str, now: u64) -> (verdict: Verdict)
        requires
            old(self).wf(),
            old(self)@.limiter_for(segment@, now).window.latest() <= now,
        ensures
            final(self)@ == old(self)@.admitted(segment@, now),
            verdict == old(self)@.verdict(segment@, now),
            final(self).wf(),
    {
        let name = segment.to_owned();
        let ghost before = self.segments.deep_view();
        proof {
            lemma_sentinel_admitted_is_wf(self@, segment@, now);
            lemma_lookup_has_key(before, segment@);
        }
        match position(&self.segments, &name) {
            Some(i) => {
                proof {
                    assert forall|j: int| 0 <= j < i implies (#[trigger] before[j]).0
                        != segment@ by {
                        assert(before[j].0 == self.segments[j].0@);
                    }
                    assert(before[i as int].0 == segment@);
                    lemma_lookup_first(before, segment@, i as int);
                }
                let verdict = self.segments[i].1.admit_at(now);
                proof {
                    let after = self.segments.deep_view();
                    let expected = old(self)@.admitted(segment@, now).segments;
                    assert forall|j: int| 0 <= j < after.len() implies after[j] == expected[j] by {
                        if j != i {
                            assert(after[j] == before[j]);
                            if j < i {
                                assert(before[j].0 != before[i as int].0);
                            } else {
                                assert(before[i as int].0 != before[j].0);
                            }
                        }
                    }
                    assert(after =~= expected);
                }
                verdict
            },
            None => {
                proof {
                    if has_key(before, segment@) {
                        let j = choose|j: int| 0 <= j < before.len() && (#[trigger] before[j]).0
                            == segment@;
                        assert(before[j].0 == self.segments[j].0@);
                    }
                }
                let mut limiter = make_limiter(
                    &self.default_segment_config,
                    self.pid_controller,
                    now,
                );
                let verdict = limiter.admit_at(now);
                self.segments.push((name, limiter));
                proof {
                    let after = self.segments.deep_view();
                    let expected = old(self)@.admitted(segment@, now).segments;
                    assert forall|j: int| 0 <= j < after.len() implies after[j] == expected[j] by {
                        if j < before.len() {
                            assert(after[j] == before[j]);
                        }
                    }
                    assert(after =~= expected);
                }
                verdict
            },
        }
    }

    /// Decides on a request for `segment` that arrives now, by this sentinel's
    /// clock, and records it. Returns `true` if the request is to be
    /// throttled. The clock is read once; a reading earlier than the newest
    /// instant on the segment's record counts as that instant.
    pub fn should_throttle(&mut self, segment: &str) -> (throttled: bool)
        requires
            old(self).wf(),
        ensures
            final(self).wf(),
            exists|now: u64| #[trigger]
                old(self)@.admission_at(segment@, now, final(self)@, throttled),
    {
        let reading = micros_since(&self.origin);
        let latest = match self.limiter(segment) {
            Some(limiter) => limiter.latest(),
            None => 0,
        };
        let now = if reading < latest {
            latest
        } else {
            reading
        };
        let verdict = self.admit_at(segment, now);
        let throttled = match verdict {
            Verdict::Allow => false,
            Verdict::Deny => true,
        };
        assert(old(self)@.admission_at(segment@, now, self@, throttled));
        throttled
    }

    /// The limiter of `segment`, if the segment is known.
    pub fn limiter(&self, segment: &str) -> (found: Option<&RateLimiter>)
        ensures
            match found {
                Some(limiter) => lookup(self@.segments, segment@) == Some(limiter@),
                None => lookup(self@.segments, segment@) is None,
            },
    {
        let name = segment.to_owned();
        let ghost model = self.segments.deep_view();
        proof {
            lemma_lookup_has_key(model, segment@);
        }
        match position(&self.segments, &name) {
            Some(i) => {
                proof {
                    assert forall|j: int| 0 <= j < i implies (#[trigger] model[j]).0
                        != segment@ by {
                        assert(model[j].0 == self.segments[j].0@);
                    }
                    assert(model[i as int].0 == segment@);
                    lemma_lookup_first(model, segment@, i as int);
                }
                Some(&self.segments[i].1)
            },
            None => {
                proof {
                    if has_key(model, segment@) {
                        let j = choose|j: int| 0 <= j < model.len() && (#[trigger] model[j]).0
                            == segment@;
                        assert(model[j].0 == self.segments[j].0@);
                    }
                }
                None
            },
        }
    }

    /// What the peer `peer` reported last, if the peer is known.
    pub fn peer_report(&self, peer: &str) -> (found: Option<&Vec<(String, MetricData)>>)
        ensures
            match found {
                Some(report) => lookup(self@.peers, peer@) == Some(report.deep_view()),
                None => lookup(self@.peers, peer@) is None,
            },
    {
        let name = peer.to_owned();
        let ghost model = self.node_metrics.deep_view();
        proof {
            lemma_lookup_has_key(model, peer@);
        }
        match position(&self.node_metrics, &name) {
            Some(i) => {
                proof {
                    assert forall|j: int| 0 <= j < i implies (#[trigger] model[j]).0 != peer@ by {
                        assert(model[j].0 == self.node_metrics[j].0@);
                    }
                    assert(model[i as int].0 == peer@);
                    lemma_lookup_first(model, peer@, i as int);
                }
                Some(&self.node_metrics[i].1)
            },
            None => {
                proof {
                    if has_key(model, peer@) {
                        let j = choose|j: int| 0 <= j < model.len() && (#[trigger] model[j]).0
                            == peer@;
                        assert(model[j].0 == self.node_metrics[j].0@);
                    }
                }
                None
            },
        }
    }

    /// This node's own report: its name, and for each segment the local rates
    /// that the limiter measured last.
    pub fn report(&self) -> (report: Metrics)
        ensures
            report@ == self@.report(),
    {
        Metrics { source: self.hostname.clone(), segments: local_report(&self.segments) }
    }

    /// The name of this node.
    pub fn hostname(&self) -> (name: &String)
        ensures
            name@ == self@.hostname,
    {
        &self.hostname
    }

    /// The number of segments.
    pub fn segment_count(&self) -> (n: usize)
        ensures
            n == self@.segments.len(),
    {
        self.segments.len()
    }

    /// The number of peers.
    pub fn peer_count(&self) -> (n: usize)
        ensures
            n == self@.peers.len(),
    {
        self.node_metrics.len()
    }
}

/// An admission keeps a sentinel well formed.
pub proof fn lemma_sentinel_admitted_is_wf(m: SentinelModel, segment: Seq<char>, now: u64)
    requires
        m.wf(),
        m.limiter_for(segment, now).window.latest() <= now,
    ensures
        m.admitted(segment, now).wf(),
{
    let limiter = m.limiter_for(segment, now);
    let after = m.admitted(segment, now).segments;
    lemma_lookup_has_key(m.segments, segment);
    if has_key(m.segments, segment) {
        let i = choose|i: int| 0 <= i < m.segments.len() && (#[trigger] m.segments[i]).0 == segment;
        assert forall|j: int| 0 <= j < i implies (#[trigger] m.segments[j]).0 != segment by {
            assert(m.segments[j].0 != m.segments[i].0);
        }
        lemma_lookup_first(m.segments, segment, i);
        assert(m.segments[i].1.wf());
    }
    lemma_admitted_is_wf(limiter, now);
    lemma_upserted(m.segments, segment, limiter.admitted(now));
    assert forall|j: int| 0 <= j < after.len() implies (#[trigger] after[j]).1.wf() by {
        if j < m.segments.len() {
            assert(m.segments[j].1.wf());
        }
    }
}

/// After a peer exchange the sentinel holds, under the name of the source,
/// exactly what came in, unless the source is this node itself.
pub proof fn lemma_exchange_stores_report(m: SentinelModel, incoming: MetricsModel)
    requires
        m.wf(),
        incoming.source != m.hostname,
    ensures
        lookup(m.exchanged(incoming).peers, incoming.source) == Some(incoming.segments),
{
    lemma_upserted(m.peers, incoming.source, incoming.segments);
}

/// A peer exchange changes nothing of a segment but the rates of the peers in
/// its limiter: no segment is added or removed, whatever the report names.
pub proof fn lemma_exchange_keeps_segments(m: SentinelModel, incoming: MetricsModel)
    ensures
        m.exchanged(incoming).segments.len() == m.segments.len(),
        forall|i: int|
            0 <= i < m.segments.len() ==> (#[trigger] m.exchanged(incoming).segments[i]) == (
                m.segments[i].0,
                fused_limiter(m.segments[i].1, m.exchanged(incoming).peers, m.segments[i].0),
            ),
        m.exchanged(incoming).report() == m.report(),
{
    assert(local_rates(m.exchanged(incoming).segments) =~= local_rates(m.segments));
}

/// A second exchange of the same report changes nothing: the reports of the
/// peers, the rates of the peers in every limiter and all the rest are as
/// after the first.
pub proof fn lemma_exchange_is_idempotent(m: SentinelModel, incoming: MetricsModel)
    ensures
        m.exchanged(incoming).exchanged(incoming) == m.exchanged(incoming),
{
    let once = m.exchanged(incoming);
    let twice = once.exchanged(incoming);
    if incoming.source != m.hostname {
        let key = incoming.source;
        let value = incoming.segments;
        if has_key(m.peers, key) {
            let i = choose|i: int| 0 <= i < m.peers.len() && (#[trigger] m.peers[i]).0 == key;
            assert(once.peers[i].0 == key);
        } else {
            assert(once.peers[m.peers.len() as int].0 == key);
        }
        assert(has_key(once.peers, key));
        assert(twice.peers =~= once.peers);
    }
    assert(twice.segments =~= once.segments);
}

/// A report under this node's own name changes no peer's report, so that the
/// rates of the peers in every limiter are the sums over the peers as they
/// were. This holds in particular of the node's own report fed back to it.
pub proof fn lemma_own_report_is_ignored(m: SentinelModel, incoming: MetricsModel)
    requires
        incoming.source == m.hostname,
    ensures
        m.exchanged(incoming).peers == m.peers,
        m.exchanged(incoming).segments == fused(m.segments, m.peers),
        m.exchanged(m.report()).peers == m.peers,
{
}

} // verus!
