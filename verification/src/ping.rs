//! Latency bookkeeping per peer address.

use vstd::prelude::*;
use crate::addr::PeerAddr;
use crate::order::{arrange, is_stable_order, stable_order};
use crate::time::now_millis;

verus! {

/// How long a connect probe may take, in seconds.
pub const TCP_PING_TIMEOUT_SECS: u64 = 5;

/// How long an application round trip may take, in seconds.
pub const APP_PING_TIMEOUT_SECS: u64 = 3;

/// The latency signals known of one peer, in milliseconds, and their mean.
#[derive(Clone, Copy, Debug, PartialEq, Eq, Structural)]
pub struct PingMeasurement {
    pub peer_addr: PeerAddr,
    pub tcp_ping: Option<u64>,
    pub app_ping: Option<u64>,
    pub webrtc_rtt: Option<u64>,
    pub average_ping: Option<u64>,
    pub timestamp: i64,
}

/// The kinds of latency signal.
#[derive(Clone, Copy, Debug, PartialEq, Eq, Structural)]
pub enum Metric {
    /// The time a fresh connect took.
    Tcp,
    /// The time an application round trip took.
    App,
    /// A round-trip time reported by WebRTC.
    WebRtc,
}

/// How a probe ended.
#[derive(Clone, Copy, Debug, PartialEq, Eq, Structural)]
pub enum ProbeOutcome {
    /// The peer answered after this many milliseconds.
    Answered { elapsed_ms: u64 },
    /// The probe failed before its time was up.
    Failed,
    /// The time was up.
    TimedOut,
}

/// Why a measurement has no value.
#[derive(Clone, Copy, Debug, PartialEq, Eq, Structural)]
pub enum PingError {
    /// The probe ran out of time.
    Timeout,
    /// The probe could not connect.
    ConnectFailed,
}

/// A probe that answered, as collected from a round of probes.
#[derive(Clone, Copy, Debug, PartialEq, Eq, Structural)]
pub struct ProbeResult {
    pub peer_addr: PeerAddr,
    pub metric: Metric,
    pub ping_ms: u64,
}

/// The value of a metric in a sum: itself, or nothing where it is absent.
pub open spec fn metric_value(metric: Option<u64>) -> int {
    match metric {
        Some(v) => v as int,
        None => 0,
    }
}

/// One for a metric that is present.
pub open spec fn metric_present(metric: Option<u64>) -> int {
    if metric is Some {
        1
    } else {
        0
    }
}

impl PingMeasurement {
    /// The measurement of a peer of whom nothing is known yet, begun at
    /// `now`.
    pub open spec fn blank(peer_addr: PeerAddr, now: i64) -> PingMeasurement {
        PingMeasurement {
            peer_addr,
            tcp_ping: None,
            app_ping: None,
            webrtc_rtt: None,
            average_ping: None,
            timestamp: now,
        }
    }

    /// The sum of the metrics that are present.
    pub open spec fn metric_sum(self) -> int {
        metric_value(self.tcp_ping) + metric_value(self.app_ping) + metric_value(self.webrtc_rtt)
    }

    /// The number of metrics that are present.
    pub open spec fn metric_count(self) -> int {
        metric_present(self.tcp_ping) + metric_present(self.app_ping) + metric_present(
            self.webrtc_rtt,
        )
    }

    /// The measurement with its mean brought up to date: the sum of the
    /// metrics present divided by their number, rounded down. Without any
    /// metric the mean stays what it was.
    pub open spec fn averaged(self) -> PingMeasurement {
        if self.metric_count() == 0 {
            self
        } else {
            PingMeasurement {
                average_ping: Some((self.metric_sum() / self.metric_count()) as u64),
                ..self
            }
        }
    }

    /// The measurement with `metric` set to `ping_ms`.
    pub open spec fn with_metric(self, metric: Metric, ping_ms: u64) -> PingMeasurement {
        match metric {
            Metric::Tcp => PingMeasurement { tcp_ping: Some(ping_ms), ..self },
            Metric::App => PingMeasurement { app_ping: Some(ping_ms), ..self },
            Metric::WebRtc => PingMeasurement { webrtc_rtt: Some(ping_ms), ..self },
        }
    }

    /// The key by which measurements are ranked: the mean, and the largest
    /// number where there is none.
    pub open spec fn rank(self) -> i128 {
        match self.average_ping {
            Some(v) => v as i128,
            None => u64::MAX as i128,
        }
    }

    /// A measurement without metrics, begun at the current time.
    pub fn new(peer_addr: PeerAddr) -> (m: PingMeasurement)
        ensures
            m == PingMeasurement::blank(peer_addr, m.timestamp),
    {
        let now = now_millis();
        PingMeasurement::new_at(peer_addr, now)
    }

    /// A measurement without metrics, begun at `now`.
    pub fn new_at(peer_addr: PeerAddr, now: i64) -> (m: PingMeasurement)
        ensures
            m == PingMeasurement::blank(peer_addr, now),
    {
        PingMeasurement {
            peer_addr,
            tcp_ping: None,
            app_ping: None,
            webrtc_rtt: None,
            average_ping: None,
            timestamp: now,
        }
    }

    /// Brings the mean up to date; see [`PingMeasurement::averaged`].
    pub fn calculate_average(&mut self)
        ensures
            *final(self) == old(self).averaged(),
    {
        let mut sum: u128 = 0;
        let mut count: u128 = 0;
        if let Some(tcp) = self.tcp_ping {
            sum = sum + tcp as u128;
            count = count + 1;
        }
        if let Some(app) = self.app_ping {
            sum = sum + app as u128;
            count = count + 1;
        }
        if let Some(rtt) = self.webrtc_rtt {
            sum = sum + rtt as u128;
            count = count + 1;
        }
        if count > 0 {
            let mean = sum / count;
            assert(mean <= u64::MAX) by {
                assert(sum <= count * u64::MAX);
                assert(sum / count <= u64::MAX) by (nonlinear_arith)
                    requires
                        sum <= count * u64::MAX,
                        count > 0,
                ;
            }
            self.average_ping = Some(mean as u64);
        }
    }

    /// Whether all three metrics are present.
    pub fn is_complete(&self) -> (r: bool)
        ensures
            r == (self.tcp_ping is Some && self.app_ping is Some && self.webrtc_rtt is Some),
    {
        self.tcp_ping.is_some() && self.app_ping.is_some() && self.webrtc_rtt.is_some()
    }

    fn set_metric(&mut self, metric: Metric, ping_ms: u64)
        ensures
            *final(self) == old(self).with_metric(metric, ping_ms),
    {
        match metric {
            Metric::Tcp => {
                self.tcp_ping = Some(ping_ms);
            },
            Metric::App => {
                self.app_ping = Some(ping_ms);
            },
            Metric::WebRtc => {
                self.webrtc_rtt = Some(ping_ms);
            },
        }
    }
}

/// Whether position `i` holds the first measurement of the peer at `addr`.
pub open spec fn is_first_measurement_of(ms: Seq<PingMeasurement>, addr: PeerAddr, i: int) -> bool {
    &&& 0 <= i < ms.len()
    &&& ms[i].peer_addr == addr
    &&& forall|k: int| 0 <= k < i ==> (#[trigger] ms[k]).peer_addr != addr
}

/// The position of the measurement of the peer at `addr`.
pub open spec fn measurement_position(ms: Seq<PingMeasurement>, addr: PeerAddr) -> Option<int> {
    if exists|i: int| is_first_measurement_of(ms, addr, i) {
        Some(choose|i: int| is_first_measurement_of(ms, addr, i))
    } else {
        None
    }
}

/// The first measurement of the peer at `addr` stands at `i`.
pub proof fn lemma_measurement_position(ms: Seq<PingMeasurement>, addr: PeerAddr, i: int)
    requires
        is_first_measurement_of(ms, addr, i),
    ensures
        measurement_position(ms, addr) == Some(i),
{
    let c = choose|c: int| is_first_measurement_of(ms, addr, c);
    assert(is_first_measurement_of(ms, addr, c));
    assert(c == i) by {
        if c < i {
            assert(ms[c].peer_addr != addr);
        }
        if i < c {
            assert(ms[i].peer_addr != addr);
        }
    }
}

/// No peer has two measurements.
pub open spec fn measurements_distinct(ms: Seq<PingMeasurement>) -> bool {
    forall|i: int, j: int|
        0 <= i < j < ms.len() ==> (#[trigger] ms[i]).peer_addr != (#[trigger] ms[j]).peer_addr
}

/// What is known of the peer at `addr`; a blank measurement begun at `now`
/// where nothing is.
pub open spec fn known_of(ms: Seq<PingMeasurement>, addr: PeerAddr, now: i64) -> PingMeasurement {
    match measurement_position(ms, addr) {
        Some(i) => ms[i],
        None => PingMeasurement::blank(addr, now),
    }
}

/// The measurements with `m` in the place of its peer's older measurement,
/// or at the end.
pub open spec fn stored(ms: Seq<PingMeasurement>, m: PingMeasurement) -> Seq<PingMeasurement> {
    match measurement_position(ms, m.peer_addr) {
        Some(i) => ms.update(i, m),
        None => ms.push(m),
    }
}

/// The measurements after `metric` of the peer at `addr` was measured as
/// `ping_ms` at `now`: the metric is set, the measurement is stamped `now`
/// and its mean is brought up to date.
pub open spec fn measured(
    ms: Seq<PingMeasurement>,
    addr: PeerAddr,
    metric: Metric,
    ping_ms: u64,
    now: i64,
) -> Seq<PingMeasurement> {
    stored(
        ms,
        (PingMeasurement { timestamp: now, ..known_of(ms, addr, now).with_metric(metric, ping_ms) }).averaged(),
    )
}

/// The measurements after one result of a round of probes was taken in at
/// `now`: as [`measured`], but an older measurement keeps its stamp.
pub open spec fn collected(ms: Seq<PingMeasurement>, result: ProbeResult, now: i64) -> Seq<
    PingMeasurement,
> {
    stored(
        ms,
        known_of(ms, result.peer_addr, now).with_metric(result.metric, result.ping_ms).averaged(),
    )
}

/// The measurements after the first `upto` results of a round were taken in.
pub open spec fn collected_all(
    ms: Seq<PingMeasurement>,
    results: Seq<ProbeResult>,
    upto: int,
    now: i64,
) -> Seq<PingMeasurement>
    decreases upto,
{
    if upto <= 0 {
        ms
    } else {
        collected(collected_all(ms, results, upto - 1, now), results[upto - 1], now)
    }
}

/// Whether a measurement stamped `timestamp` is young enough at `now`: it
/// does not predate the cutoff, `max_age_minutes` before `now`.
pub open spec fn is_young(timestamp: i64, max_age_minutes: u64, now: i64) -> bool {
    timestamp as int >= now as int - max_age_minutes as int * 60_000
}

/// The measurements that do not predate the cutoff at `now`.
pub open spec fn young_ones(ms: Seq<PingMeasurement>, max_age_minutes: u64, now: i64) -> Seq<
    PingMeasurement,
> {
    ms.filter(|m: PingMeasurement| is_young(m.timestamp, max_age_minutes, now))
}

/// The ranks of measurements, in their order.
pub open spec fn ranks(ms: Seq<PingMeasurement>) -> Seq<i128> {
    Seq::new(ms.len(), |i: int| ms[i].rank())
}

/// Storing a measurement keeps peers distinct.
pub proof fn lemma_stored_distinct(ms: Seq<PingMeasurement>, m: PingMeasurement)
    requires
        measurements_distinct(ms),
    ensures
        measurements_distinct(stored(ms, m)),
{
    let after = stored(ms, m);
    match measurement_position(ms, m.peer_addr) {
        Some(i) => {
            assert(is_first_measurement_of(ms, m.peer_addr, i));
            assert forall|a: int, b: int| 0 <= a < b < after.len() implies (#[trigger] after[a]).peer_addr
                != (#[trigger] after[b]).peer_addr by {
                assert(after[a].peer_addr == ms[a].peer_addr);
                assert(after[b].peer_addr == ms[b].peer_addr);
            }
        },
        None => {
            assert forall|a: int, b: int| 0 <= a < b < after.len() implies (#[trigger] after[a]).peer_addr
                != (#[trigger] after[b]).peer_addr by {
                assert(after[a] == ms[a]);
                if b < ms.len() {
                    assert(after[b] == ms[b]);
                } else {
                    if ms[a].peer_addr == m.peer_addr {
                        lemma_some_measurement(ms, m.peer_addr, a);
                    }
                }
            }
        },
    }
}

/// Where some measurement is of the peer at `addr`, a first one is.
pub proof fn lemma_some_measurement(ms: Seq<PingMeasurement>, addr: PeerAddr, at: int)
    requires
        0 <= at < ms.len(),
        ms[at].peer_addr == addr,
    ensures
        measurement_position(ms, addr) is Some,
    decreases at,
{
    if forall|k: int| 0 <= k < at ==> (#[trigger] ms[k]).peer_addr != addr {
        assert(is_first_measurement_of(ms, addr, at));
    } else {
        let k = choose|k: int| 0 <= k < at && (#[trigger] ms[k]).peer_addr == addr;
        lemma_some_measurement(ms, addr, k);
    }
}

/// The latency records of a node, one per peer address.
#[derive(Debug)]
pub struct PingManager {
    pub measurements: Vec<PingMeasurement>,
}

impl PingManager {
    /// The validity of the records: no peer has two measurements.
    pub open spec fn wf(&self) -> bool {
        measurements_distinct(self.measurements@)
    }

    /// Records of no peer.
    pub fn new() -> (m: PingManager)
        ensures
            m.measurements@ == Seq::<PingMeasurement>::empty(),
            m.wf(),
    {
        PingManager { measurements: Vec::new() }
    }

    /// The position of the measurement of the peer at `addr`.
    pub fn find(&self, addr: PeerAddr) -> (r: Option<usize>)
        ensures
            match r {
                Some(i) => is_first_measurement_of(self.measurements@, addr, i as int)
                    && measurement_position(self.measurements@, addr) == Some(i as int),
                None => measurement_position(self.measurements@, addr) is None,
            },
    {
        let mut i: usize = 0;
        while i < self.measurements.len()
            invariant
                i <= self.measurements.len(),
                forall|k: int| 0 <= k < i ==> self.measurements[k].peer_addr != addr,
            decreases self.measurements.len() - i,
        {
            if self.measurements[i].peer_addr == addr {
                proof {
                    lemma_measurement_position(self.measurements@, addr, i as int);
                }
                return Some(i);
            }
            i += 1;
        }
        assert(measurement_position(self.measurements@, addr) is None) by {
            if exists|c: int| is_first_measurement_of(self.measurements@, addr, c) {
                let c = choose|c: int| is_first_measurement_of(self.measurements@, addr, c);
                assert(self.measurements[c].peer_addr == addr);
            }
        }
        None
    }

    /// Puts `m` in the place of its peer's older measurement, or at the end.
    pub fn store(&mut self, m: PingMeasurement)
        ensures
            final(self).measurements@ == stored(old(self).measurements@, m),
            old(self).wf() ==> final(self).wf(),
    {
        proof {
            if old(self).wf() {
                lemma_stored_distinct(old(self).measurements@, m);
            }
        }
        match self.find(m.peer_addr) {
            Some(i) => {
                self.measurements.set(i, m);
            },
            None => {
                self.measurements.push(m);
            },
        }
    }

    fn known(&self, addr: PeerAddr, now: i64) -> (m: PingMeasurement)
        ensures
            m == known_of(self.measurements@, addr, now),
    {
        match self.find(addr) {
            Some(i) => self.measurements[i],
            None => PingMeasurement::new_at(addr, now),
        }
    }

    /// Records `metric` of the peer at `addr` as measured at `now`.
    pub fn record_at(&mut self, addr: PeerAddr, metric: Metric, ping_ms: u64, now: i64)
        ensures
            final(self).measurements@ == measured(old(self).measurements@, addr, metric, ping_ms, now),
            old(self).wf() ==> final(self).wf(),
    {
        let mut m = self.known(addr, now);
        m.set_metric(metric, ping_ms);
        m.timestamp = now;
        m.calculate_average();
        self.store(m);
    }

    /// Takes in the outcome of a connect probe to the peer at `addr`, as of
    /// the current time. See [`PingManager::measure_tcp_ping_at`].
    pub fn measure_tcp_ping(&mut self, addr: PeerAddr, outcome: ProbeOutcome) -> (r: Result<
        u64,
        PingError,
    >)
        ensures
            r == probe_result(outcome),
            exists|now: i64|
                final(self).measurements@ == #[trigger] after_probe(
                    old(self).measurements@,
                    addr,
                    Metric::Tcp,
                    outcome,
                    now,
                ),
            old(self).wf() ==> final(self).wf(),
    {
        let now = now_millis();
        self.measure_tcp_ping_at(addr, outcome, now)
    }

    /// Takes in the outcome of a connect probe at `now`: an answer is
    /// recorded as the TCP latency and returned; a failure or a timeout is
    /// reported and records nothing.
    pub fn measure_tcp_ping_at(&mut self, addr: PeerAddr, outcome: ProbeOutcome, now: i64) -> (r:
        Result<u64, PingError>)
        ensures
            r == probe_result(outcome),
            final(self).measurements@ == after_probe(
                old(self).measurements@,
                addr,
                Metric::Tcp,
                outcome,
                now,
            ),
            old(self).wf() ==> final(self).wf(),
    {
        self.take_probe(addr, Metric::Tcp, outcome, now)
    }

    /// Takes in the outcome of an application round trip to the peer at
    /// `addr`, as of the current time. See
    /// [`PingManager::measure_application_ping_at`].
    pub fn measure_application_ping(&mut self, addr: PeerAddr, outcome: ProbeOutcome) -> (r: Result<
        u64,
        PingError,
    >)
        ensures
            r == probe_result(outcome),
            exists|now: i64|
                final(self).measurements@ == #[trigger] after_probe(
                    old(self).measurements@,
                    addr,
                    Metric::App,
                    outcome,
                    now,
                ),
            old(self).wf() ==> final(self).wf(),
    {
        let now = now_millis();
        self.measure_application_ping_at(addr, outcome, now)
    }

    /// Takes in the outcome of an application round trip at `now`: an answer
    /// is recorded as the application latency and returned; a failure or a
    /// timeout is reported and records nothing.
    pub fn measure_application_ping_at(
        &mut self,
        addr: PeerAddr,
        outcome: ProbeOutcome,
        now: i64,
    ) -> (r: Result<u64, PingError>)
        ensures
            r == probe_result(outcome),
            final(self).measurements@ == after_probe(
                old(self).measurements@,
                addr,
                Metric::App,
                outcome,
                now,
            ),
            old(self).wf() ==> final(self).wf(),
    {
        self.take_probe(addr, Metric::App, outcome, now)
    }

    fn take_probe(&mut self, addr: PeerAddr, metric: Metric, outcome: ProbeOutcome, now: i64) -> (r:
        Result<u64, PingError>)
        ensures
            r == probe_result(outcome),
            final(self).measurements@ == after_probe(
                old(self).measurements@,
                addr,
                metric,
                outcome,
                now,
            ),
            old(self).wf() ==> final(self).wf(),
    {
        match outcome {
            ProbeOutcome::Answered { elapsed_ms } => {
                self.record_at(addr, metric, elapsed_ms, now);
                Ok(elapsed_ms)
            },
            ProbeOutcome::Failed => Err(PingError::ConnectFailed),
            ProbeOutcome::TimedOut => Err(PingError::Timeout),
        }
    }

    /// Records a round-trip time that WebRTC reported, as of the current
    /// time. See [`PingManager::update_webrtc_rtt_at`].
    pub fn update_webrtc_rtt(&mut self, addr: PeerAddr, rtt_ms: u64)
        ensures
            exists|now: i64|
                final(self).measurements@ == #[trigger] measured(
                    old(self).measurements@,
                    addr,
                    Metric::WebRtc,
                    rtt_ms,
                    now,
                ),
            old(self).wf() ==> final(self).wf(),
    {
        let now = now_millis();
        self.update_webrtc_rtt_at(addr, rtt_ms, now);
    }

    /// Records the round-trip time `rtt_ms` that WebRTC reported of the peer
    /// at `addr` at `now`.
    pub fn update_webrtc_rtt_at(&mut self, addr: PeerAddr, rtt_ms: u64, now: i64)
        ensures
            final(self).measurements@ == measured(
                old(self).measurements@,
                addr,
                Metric::WebRtc,
                rtt_ms,
                now,
            ),
            old(self).wf() ==> final(self).wf(),
    {
        self.record_at(addr, Metric::WebRtc, rtt_ms, now);
    }

    /// Takes in the answers of a round of probes, as of the current time.
    /// See [`PingManager::measure_all_pings_at`].
    pub fn measure_all_pings(&mut self, results: &Vec<ProbeResult>)
        ensures
            exists|now: i64|
                final(self).measurements@ == #[trigger] collected_all(
                    old(self).measurements@,
                    results@,
                    results.len() as int,
                    now,
                ),
            old(self).wf() ==> final(self).wf(),
    {
        let now = now_millis();
        self.measure_all_pings_at(results, now);
    }

    /// Takes in the answers of a round of probes in their order: each sets
    /// its metric and brings the mean up to date. A peer first heard of is
    /// stamped `now`; others keep their stamp.
    pub fn measure_all_pings_at(&mut self, results: &Vec<ProbeResult>, now: i64)
        ensures
            final(self).measurements@ == collected_all(
                old(self).measurements@,
                results@,
                results.len() as int,
                now,
            ),
            old(self).wf() ==> final(self).wf(),
    {
        let mut i: usize = 0;
        while i < results.len()
            invariant
                i <= results.len(),
                self.measurements@ == collected_all(old(self).measurements@, results@, i as int, now),
                old(self).wf() ==> self.wf(),
            decreases results.len() - i,
        {
            let result = results[i];
            let mut m = self.known(result.peer_addr, now);
            m.set_metric(result.metric, result.ping_ms);
            m.calculate_average();
            self.store(m);
            i += 1;
        }
    }

    /// What is known of the peer at `addr`.
    pub fn get_measurement(&self, addr: &PeerAddr) -> (r: Option<&PingMeasurement>)
        ensures
            match r {
                Some(m) => measurement_position(self.measurements@, *addr) is Some && *m
                    == self.measurements@[measurement_position(self.measurements@, *addr)->0],
                None => measurement_position(self.measurements@, *addr) is None,
            },
    {
        match self.find(*addr) {
            Some(i) => Some(&self.measurements[i]),
            None => None,
        }
    }

    /// All measurements, in the order in which their peers were first heard
    /// of.
    pub fn get_all_measurements(&self) -> (all: Vec<PingMeasurement>)
        ensures
            all@ == self.measurements@,
    {
        self.measurements.clone()
    }

    /// All measurements, lowest mean first; those without a mean come last,
    /// and equal means keep their order.
    pub fn get_sorted_by_ping(&self) -> (sorted: Vec<PingMeasurement>)
        ensures
            exists|order: Seq<usize>| #[trigger]
                is_stable_order(ranks(self.measurements@), order) && sorted@ == arrange(
                    self.measurements@,
                    order,
                ),
            sorted.len() == self.measurements.len(),
            forall|i: int, j: int|
                0 <= i < j < sorted.len() ==> (#[trigger] sorted[i]).rank() <= (
                #[trigger] sorted[j]).rank(),
    {
        let ghost keys_spec = ranks(self.measurements@);
        let mut keys: Vec<i128> = Vec::new();
        let mut i: usize = 0;
        while i < self.measurements.len()
            invariant
                i <= self.measurements.len(),
                keys.len() == i,
                keys_spec == ranks(self.measurements@),
                forall|k: int| 0 <= k < i ==> keys[k] == keys_spec[k],
            decreases self.measurements.len() - i,
        {
            let key: i128 = match self.measurements[i].average_ping {
                Some(v) => v as i128,
                None => u64::MAX as i128,
            };
            keys.push(key);
            i += 1;
        }
        assert(keys@ =~= keys_spec);
        let order = stable_order(&keys);
        let mut sorted: Vec<PingMeasurement> = Vec::new();
        let mut i: usize = 0;
        while i < order.len()
            invariant
                i <= order.len(),
                sorted.len() == i,
                is_stable_order(keys_spec, order@),
                keys_spec.len() == self.measurements.len(),
                forall|k: int| 0 <= k < i ==> sorted[k] == self.measurements[order[k] as int],
            decreases order.len() - i,
        {
            sorted.push(self.measurements[order[i]]);
            i += 1;
        }
        assert(sorted@ =~= arrange(self.measurements@, order@));
        assert forall|a: int, b: int| 0 <= a < b < sorted.len() implies (#[trigger] sorted[a]).rank()
            <= (#[trigger] sorted[b]).rank() by {
            assert(crate::order::precedes(keys_spec, order[a] as int, order[b] as int));
        }
        sorted
    }

    /// The address of the peer that ranks first, or nothing where no peer
    /// is on record.
    pub fn get_best_peer(&self) -> (best: Option<PeerAddr>)
        ensures
            match best {
                Some(addr) => exists|order: Seq<usize>| #[trigger]
                    is_stable_order(ranks(self.measurements@), order) && order.len() > 0 && addr
                        == self.measurements[order[0] as int].peer_addr,
                None => self.measurements.len() == 0,
            },
    {
        let sorted = self.get_sorted_by_ping();
        if sorted.len() > 0 {
            proof {
                let order = choose|order: Seq<usize>| #[trigger]
                    is_stable_order(ranks(self.measurements@), order) && sorted@ == arrange(
                        self.measurements@,
                        order,
                    );
                assert(sorted[0] == self.measurements[order[0] as int]);
            }
            Some(sorted[0].peer_addr)
        } else {
            None
        }
    }

    /// Drops old measurements as of the current time. See
    /// [`PingManager::cleanup_old_measurements_at`].
    pub fn cleanup_old_measurements(&mut self, max_age_minutes: u64)
        ensures
            exists|now: i64|
                final(self).measurements@ == #[trigger] young_ones(
                    old(self).measurements@,
                    max_age_minutes,
                    now,
                ),
            old(self).wf() ==> final(self).wf(),
    {
        let now = now_millis();
        self.cleanup_old_measurements_at(max_age_minutes, now);
    }

    /// Drops the measurements stamped before the cutoff, `max_age_minutes`
    /// before `now`, and keeps the others.
    pub fn cleanup_old_measurements_at(&mut self, max_age_minutes: u64, now: i64)
        ensures
            final(self).measurements@ == young_ones(old(self).measurements@, max_age_minutes, now),
            old(self).wf() ==> final(self).wf(),
    {
        let ghost keep = |m: PingMeasurement| is_young(m.timestamp, max_age_minutes, now);
        let ghost before = self.measurements@;
        let ghost mut source: Seq<int> = Seq::empty();
        let cutoff: i128 = now as i128 - (max_age_minutes as i128) * 60_000;
        let mut kept: Vec<PingMeasurement> = Vec::new();
        let mut i: usize = 0;
        while i < self.measurements.len()
            invariant
                i <= self.measurements.len(),
                before == self.measurements@,
                cutoff == now as int - max_age_minutes as int * 60_000,
                keep == (|m: PingMeasurement| is_young(m.timestamp, max_age_minutes, now)),
                kept@ == before.take(i as int).filter(keep),
                source.len() == kept.len(),
                forall|k: int|
                    0 <= k < kept.len() ==> 0 <= #[trigger] source[k] < i && kept[k] == before[source[k]],
                forall|a: int, b: int|
                    0 <= a < b < source.len() ==> #[trigger] source[a] < #[trigger] source[b],
            decreases self.measurements.len() - i,
        {
            let m = self.measurements[i];
            proof {
                let seen = before.take(i as int);
                assert(before.take(i + 1) =~= seen.push(m));
                seen.lemma_filter_push(m, keep);
            }
            if (m.timestamp as i128) >= cutoff {
                kept.push(m);
                proof {
                    source = source.push(i as int);
                }
            }
            i += 1;
        }
        assert(before.take(i as int) =~= before);
        assert(measurements_distinct(before) ==> measurements_distinct(kept@)) by {
            if measurements_distinct(before) {
                assert forall|a: int, b: int| 0 <= a < b < kept.len() implies (
                #[trigger] kept[a]).peer_addr != (#[trigger] kept[b]).peer_addr by {
                    assert(source[a] < source[b]);
                    assert(before[source[a]].peer_addr != before[source[b]].peer_addr);
                }
            }
        }
        self.measurements = kept;
    }
}

/// What a probe that ended as `outcome` reports.
pub open spec fn probe_result(outcome: ProbeOutcome) -> Result<u64, PingError> {
    match outcome {
        ProbeOutcome::Answered { elapsed_ms } => Ok(elapsed_ms),
        ProbeOutcome::Failed => Err(PingError::ConnectFailed),
        ProbeOutcome::TimedOut => Err(PingError::Timeout),
    }
}

/// The measurements after a probe of `metric` to the peer at `addr` ended
/// as `outcome` at `now`: only an answer is recorded.
pub open spec fn after_probe(
    ms: Seq<PingMeasurement>,
    addr: PeerAddr,
    metric: Metric,
    outcome: ProbeOutcome,
    now: i64,
) -> Seq<PingMeasurement> {
    match outcome {
        ProbeOutcome::Answered { elapsed_ms } => measured(ms, addr, metric, elapsed_ms, now),
        _ => ms,
    }
}

} // verus!
