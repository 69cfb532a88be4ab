//! Active health checking: turning a stream of probe outcomes into health
//! transitions, with hysteresis, and the probe's own small protocol.
use vstd::prelude::*;

use crate::backend::{HealthStatus, RuntimeState, RuntimeView};
use crate::text::{
    chars_of, is_ws, is_ws_char, parse_unsigned, parse_unsigned_range, trim_start_len,
};

verus! {

/// The name of this part of the library.
pub fn janus_health() -> (r: &'static str)
    ensures
        r@ == "janus-health"@,
{
    "janus-health"
}

/// How a backend is probed.
#[derive(Debug)]
pub enum HealthCheckKind {
    /// A TCP connection is opened and closed.
    TcpConnect,
    /// `GET path` must answer with a 2xx status.
    Http { path: String },
}

impl Clone for HealthCheckKind {
    fn clone(&self) -> (r: Self)
        ensures
            r == *self,
    {
        match self {
            HealthCheckKind::TcpConnect => HealthCheckKind::TcpConnect,
            HealthCheckKind::Http { path } => HealthCheckKind::Http { path: path.clone() },
        }
    }
}

/// The health check settings of a service.
#[derive(Debug)]
pub struct HealthCheckConfig {
    /// Which check to run.
    pub kind: HealthCheckKind,
    /// Time between two rounds of probes, in milliseconds.
    pub interval_ms: u64,
    /// Time a single probe may take, in milliseconds.
    pub timeout_ms: u64,
    /// Consecutive successes that mark a backend healthy.
    pub healthy_threshold: u32,
    /// Consecutive failures that mark a backend unhealthy.
    pub unhealthy_threshold: u32,
}

impl Clone for HealthCheckConfig {
    fn clone(&self) -> (r: Self)
        ensures
            r == *self,
    {
        HealthCheckConfig {
            kind: self.kind.clone(),
            interval_ms: self.interval_ms,
            timeout_ms: self.timeout_ms,
            healthy_threshold: self.healthy_threshold,
            unhealthy_threshold: self.unhealthy_threshold,
        }
    }
}

impl Default for HealthCheckConfig {
    /// A TCP connect check every 5 s with a 2 s timeout; 2 successes mark a
    /// backend healthy, 3 failures unhealthy.
    fn default() -> (r: Self)
        ensures
            r.kind == HealthCheckKind::TcpConnect,
            r.interval_ms == 5000,
            r.timeout_ms == 2000,
            r.healthy_threshold == 2,
            r.unhealthy_threshold == 3,
    {
        HealthCheckConfig {
            kind: HealthCheckKind::TcpConnect,
            interval_ms: 5000,
            timeout_ms: 2000,
            healthy_threshold: 2,
            unhealthy_threshold: 3,
        }
    }
}

// ---------------------------------------------------------------------------
// The tracker
// ---------------------------------------------------------------------------

/// The health of one backend as the probes see it, with the current streaks.
#[derive(Debug)]
pub struct HealthTracker {
    status: HealthStatus,
    consecutive_successes: u32,
    consecutive_failures: u32,
    healthy_threshold: u32,
    unhealthy_threshold: u32,
}

/// The abstract state of a [`HealthTracker`].
pub struct TrackerView {
    pub status: HealthStatus,
    pub successes: u32,
    pub failures: u32,
    pub healthy_threshold: u32,
    pub unhealthy_threshold: u32,
}

impl View for HealthTracker {
    type V = TrackerView;

    closed spec fn view(&self) -> TrackerView {
        TrackerView {
            status: self.status,
            successes: self.consecutive_successes,
            failures: self.consecutive_failures,
            healthy_threshold: self.healthy_threshold,
            unhealthy_threshold: self.unhealthy_threshold,
        }
    }
}

/// The state of a tracker before any probe.
pub open spec fn initial_tracker(config: HealthCheckConfig) -> TrackerView {
    TrackerView {
        status: HealthStatus::Unknown,
        successes: 0,
        failures: 0,
        healthy_threshold: config.healthy_threshold,
        unhealthy_threshold: config.unhealthy_threshold,
    }
}

/// A probe outcome can be counted without the streak counter overflowing.
pub open spec fn can_record(t: TrackerView, passed: bool) -> bool {
    if passed {
        t.successes < u32::MAX
    } else {
        t.failures < u32::MAX
    }
}

/// The tracker after one probe outcome, and the transition it reports: a
/// success extends the success streak and ends the failure streak (and the
/// other way round); reaching a threshold switches the status, reported
/// only when the status actually changes.
pub open spec fn record_spec(t: TrackerView, passed: bool) -> (TrackerView, Option<HealthStatus>) {
    if passed {
        let s = (t.successes + 1) as u32;
        if s >= t.healthy_threshold && t.status != HealthStatus::Healthy {
            (
                TrackerView { status: HealthStatus::Healthy, successes: s, failures: 0, ..t },
                Some(HealthStatus::Healthy),
            )
        } else {
            (TrackerView { successes: s, failures: 0, ..t }, None)
        }
    } else {
        let f = (t.failures + 1) as u32;
        if f >= t.unhealthy_threshold && t.status != HealthStatus::Unhealthy {
            (
                TrackerView { status: HealthStatus::Unhealthy, successes: 0, failures: f, ..t },
                Some(HealthStatus::Unhealthy),
            )
        } else {
            (TrackerView { successes: 0, failures: f, ..t }, None)
        }
    }
}

impl HealthTracker {
    /// A tracker that has seen no probe, with the thresholds of `config`.
    pub fn new(config: &HealthCheckConfig) -> (r: Self)
        ensures
            r@ == initial_tracker(*config),
    {
        HealthTracker {
            status: HealthStatus::Unknown,
            consecutive_successes: 0,
            consecutive_failures: 0,
            healthy_threshold: config.healthy_threshold,
            unhealthy_threshold: config.unhealthy_threshold,
        }
    }

    /// The status the probes currently support.
    pub fn status(&self) -> (r: HealthStatus)
        ensures
            r == self@.status,
    {
        self.status
    }

    /// Counts one probe outcome; returns the new status when it changed.
    pub fn record(&mut self, passed: bool) -> (r: Option<HealthStatus>)
        requires
            can_record(old(self)@, passed),
        ensures
            (final(self)@, r) == record_spec(old(self)@, passed),
    {
        if passed {
            self.consecutive_successes = self.consecutive_successes + 1;
            self.consecutive_failures = 0;
            if self.consecutive_successes >= self.healthy_threshold && self.status
                != HealthStatus::Healthy {
                self.status = HealthStatus::Healthy;
                return Some(self.status);
            }
        } else {
            self.consecutive_failures = self.consecutive_failures + 1;
            self.consecutive_successes = 0;
            if self.consecutive_failures >= self.unhealthy_threshold && self.status
                != HealthStatus::Unhealthy {
                self.status = HealthStatus::Unhealthy;
                return Some(self.status);
            }
        }
        None
    }
}


// ---------------------------------------------------------------------------
// Laws of the tracker
// ---------------------------------------------------------------------------

/// The tracker after `k` probes that all had the outcome `passed`.
pub open spec fn run(t: TrackerView, passed: bool, k: nat) -> TrackerView
    decreases k,
{
    if k == 0 {
        t
    } else {
        record_spec(run(t, passed, (k - 1) as nat), passed).0
    }
}

/// A transition is reported exactly when the status changes, and what is
/// reported is the new status; the thresholds never change.
pub proof fn lemma_report_iff_change(t: TrackerView, passed: bool)
    ensures
        ({
            let (n, r) = record_spec(t, passed);
            &&& (r is Some <==> n.status != t.status)
            &&& r matches Some(s) ==> s == n.status
            &&& n.healthy_threshold == t.healthy_threshold
            &&& n.unhealthy_threshold == t.unhealthy_threshold
        }),
{
}

/// A success ends the failure streak and a failure ends the success streak.
pub proof fn lemma_outcome_resets_other_streak(t: TrackerView)
    ensures
        record_spec(t, true).0.failures == 0,
        record_spec(t, false).0.successes == 0,
{
}

/// Once reported, a status is not reported again by the same outcome.
pub proof fn lemma_reports_once(t: TrackerView, passed: bool)
    requires
        record_spec(t, passed).1 is Some,
    ensures
        record_spec(record_spec(t, passed).0, passed).1 is None,
{
}

/// `k >= 1` consecutive failures that bring the failure streak to the
/// unhealthy threshold mark the backend unhealthy; the streak counts them
/// and the success streak is zero.
pub proof fn lemma_failures_mark_unhealthy(t: TrackerView, k: nat)
    requires
        k >= 1,
        t.failures + k >= t.unhealthy_threshold,
        t.failures + k <= u32::MAX,
    ensures
        run(t, false, k).status == HealthStatus::Unhealthy,
        run(t, false, k).failures == t.failures + k,
        run(t, false, k).successes == 0,
    decreases k,
{
    lemma_failure_streak(t, k);
    if k > 1 && t.failures + k - 1 >= t.unhealthy_threshold {
        lemma_failures_mark_unhealthy(t, (k - 1) as nat);
    }
}

/// `k >= 1` consecutive successes that bring the success streak to the
/// healthy threshold mark the backend healthy.
pub proof fn lemma_successes_mark_healthy(t: TrackerView, k: nat)
    requires
        k >= 1,
        t.successes + k >= t.healthy_threshold,
        t.successes + k <= u32::MAX,
    ensures
        run(t, true, k).status == HealthStatus::Healthy,
        run(t, true, k).successes == t.successes + k,
        run(t, true, k).failures == 0,
    decreases k,
{
    lemma_success_streak(t, k);
    if k > 1 && t.successes + k - 1 >= t.healthy_threshold {
        lemma_successes_mark_healthy(t, (k - 1) as nat);
    }
}

proof fn lemma_failure_streak(t: TrackerView, k: nat)
    requires
        t.failures + k <= u32::MAX,
    ensures
        k >= 1 ==> run(t, false, k).failures == t.failures + k && run(t, false, k).successes == 0,
        run(t, false, k).unhealthy_threshold == t.unhealthy_threshold,
        k >= 1 ==> (run(t, false, k).status == HealthStatus::Unhealthy || run(t, false, k).status
            == t.status),
        k >= 1 && t.failures + k >= t.unhealthy_threshold ==> run(t, false, k).status
            == HealthStatus::Unhealthy,
    decreases k,
{
    if k > 0 {
        lemma_failure_streak(t, (k - 1) as nat);
    }
}

proof fn lemma_success_streak(t: TrackerView, k: nat)
    requires
        t.successes + k <= u32::MAX,
    ensures
        k >= 1 ==> run(t, true, k).successes == t.successes + k && run(t, true, k).failures == 0,
        run(t, true, k).healthy_threshold == t.healthy_threshold,
        k >= 1 && t.successes + k >= t.healthy_threshold ==> run(t, true, k).status
            == HealthStatus::Healthy,
    decreases k,
{
    if k > 0 {
        lemma_success_streak(t, (k - 1) as nat);
    }
}

/// Failures that leave the streak below the unhealthy threshold change
/// nothing but the streaks: a backend is never marked unhealthy early.
pub proof fn lemma_short_failure_streak_keeps_status(t: TrackerView, k: nat)
    requires
        t.failures + k < t.unhealthy_threshold,
    ensures
        run(t, false, k).status == t.status,
    decreases k,
{
    if k > 0 {
        lemma_short_failure_streak_keeps_status(t, (k - 1) as nat);
        lemma_failure_streak(t, (k - 1) as nat);
    }
}

/// Successes that leave the streak below the healthy threshold change
/// nothing but the streaks.
pub proof fn lemma_short_success_streak_keeps_status(t: TrackerView, k: nat)
    requires
        t.successes + k < t.healthy_threshold,
    ensures
        run(t, true, k).status == t.status,
    decreases k,
{
    if k > 0 {
        lemma_short_success_streak_keeps_status(t, (k - 1) as nat);
        lemma_success_streak(t, (k - 1) as nat);
    }
}

// ---------------------------------------------------------------------------
// The supervisor's decisions
// ---------------------------------------------------------------------------

/// One tracker per backend of a service, in the same order.
#[derive(Debug)]
pub struct HealthSupervisor {
    trackers: Vec<HealthTracker>,
}

impl View for HealthSupervisor {
    type V = Seq<TrackerView>;

    closed spec fn view(&self) -> Seq<TrackerView> {
        self.trackers@.map_values(|t: HealthTracker| t@)
    }
}

/// Every backend whose tracker has reached a verdict carries that verdict.
pub open spec fn in_sync(ts: Seq<TrackerView>, state: Seq<crate::backend::BackendRuntime>) -> bool {
    &&& ts.len() == state.len()
    &&& forall|i: int|
        0 <= i < ts.len() && ts[i].status != HealthStatus::Unknown ==> #[trigger] state[i]@.health
            == ts[i].status
}

impl HealthSupervisor {
    /// Fresh trackers for `backend_count` backends.
    pub fn new(backend_count: usize, config: &HealthCheckConfig) -> (r: Self)
        ensures
            r@.len() == backend_count,
            forall|i: int| 0 <= i < backend_count ==> #[trigger] r@[i] == initial_tracker(*config),
    {
        let mut trackers: Vec<HealthTracker> = Vec::new();
        let mut i: usize = 0;
        while i < backend_count
            invariant
                i <= backend_count,
                trackers@.len() == i,
                forall|j: int| 0 <= j < i ==> #[trigger] trackers@[j]@ == initial_tracker(*config),
            decreases backend_count - i,
        {
            trackers.push(HealthTracker::new(config));
            i = i + 1;
        }
        let r = HealthSupervisor { trackers };
        assert forall|j: int| 0 <= j < backend_count implies #[trigger] r@[j] == initial_tracker(
            *config,
        ) by {
            assert(r@[j] == trackers@[j]@);
        }
        r
    }

    /// Whether the outcome `passed` can be counted for backend `index`
    /// without a streak counter overflowing.
    pub fn can_observe(&self, index: usize, passed: bool) -> (r: bool)
        requires
            index < self@.len(),
        ensures
            r == can_record(self@[index as int], passed),
    {
        let t = &self.trackers[index];
        if passed {
            t.consecutive_successes < u32::MAX
        } else {
            t.consecutive_failures < u32::MAX
        }
    }

    /// The number of backends watched.
    pub fn len(&self) -> (r: usize)
        ensures
            r == self@.len(),
    {
        self.trackers.len()
    }

    /// Counts the outcome of the probe of backend `index` and, when the
    /// tracker reports a transition, sets that backend's health to it.
    pub fn observe(&mut self, state: &mut RuntimeState, index: usize, passed: bool) -> (r: Option<
        HealthStatus,
    >)
        requires
            index < old(self)@.len(),
            index < old(state)@.len(),
            can_record(old(self)@[index as int], passed),
        ensures
            final(self)@ == old(self)@.update(
                index as int,
                record_spec(old(self)@[index as int], passed).0,
            ),
            r == record_spec(old(self)@[index as int], passed).1,
            final(state)@.len() == old(state)@.len(),
            forall|j: int|
                0 <= j < old(state)@.len() && j != index ==> final(state)@[j] == old(state)@[j],
            match r {
                Some(s) => final(state)@[index as int]@ == (RuntimeView {
                    health: s,
                    ..old(state)@[index as int]@
                }),
                None => final(state)@[index as int] == old(state)@[index as int],
            },
            in_sync(old(self)@, old(state)@) ==> in_sync(final(self)@, final(state)@),
    {
        let ghost before = self@;
        let mut tracker = self.trackers.remove(index);
        let r = tracker.record(passed);
        self.trackers.insert(index, tracker);
        assert(self@ =~= before.update(index as int, record_spec(before[index as int], passed).0));
        match r {
            Some(s) => {
                state.set_health(index, s);
            },
            None => {},
        }
        r
    }
}

// ---------------------------------------------------------------------------
// The HTTP probe
// ---------------------------------------------------------------------------

/// The request an HTTP probe sends for `path`.
pub open spec fn probe_request_text(path: Seq<char>) -> Seq<char> {
    "GET "@ + path + " HTTP/1.1\r\nHost: healthcheck\r\nConnection: close\r\n\r\n"@
}

/// The request an HTTP probe sends.
pub fn health_probe_request(path: &str) -> (r: String)
    ensures
        r@ == probe_request_text(path@),
{
    let mut out = String::from_str("GET ");
    out.append(path);
    out.append(" HTTP/1.1\r\nHost: healthcheck\r\nConnection: close\r\n\r\n");
    out
}

/// Length of the run of non-whitespace characters that starts `s`.
pub open spec fn word_len(s: Seq<char>) -> nat
    decreases s.len(),
{
    if s.len() > 0 && !is_ws(s[0]) {
        1 + word_len(s.drop_first())
    } else {
        0
    }
}

/// The second whitespace-separated word of `s`
/// (`s.split_whitespace().nth(1)`).
pub open spec fn second_word(s: Seq<char>) -> Option<Seq<char>> {
    let t1 = s.subrange(trim_start_len(s) as int, s.len() as int);
    let rest = t1.subrange(word_len(t1) as int, t1.len() as int);
    let t2 = rest.subrange(trim_start_len(rest) as int, rest.len() as int);
    if t1.len() == 0 || t2.len() == 0 {
        None
    } else {
        Some(t2.subrange(0, word_len(t2) as int))
    }
}

/// A probe passes when the status code (the second word of the status line)
/// is a number from 200 to 299.
pub open spec fn probe_passes(status_line: Seq<char>) -> bool {
    match second_word(status_line) {
        None => false,
        Some(w) => match parse_unsigned(w, u16::MAX as nat) {
            None => false,
            Some(code) => 200 <= code <= 299,
        },
    }
}

fn skip_ws(v: &Vec<char>, from: usize) -> (r: usize)
    requires
        from <= v@.len(),
    ensures
        r == from + trim_start_len(v@.subrange(from as int, v@.len() as int)),
        r <= v@.len(),
{
    let mut i = from;
    while i < v.len() && is_ws_char(v[i])
        invariant
            from <= i <= v@.len(),
            trim_start_len(v@.subrange(from as int, v@.len() as int)) == (i - from)
                + trim_start_len(v@.subrange(i as int, v@.len() as int)),
        decreases v@.len() - i,
    {
        assert(v@.subrange(i as int, v@.len() as int).drop_first() =~= v@.subrange(
            i + 1,
            v@.len() as int,
        ));
        i = i + 1;
    }
    i
}

fn skip_word(v: &Vec<char>, from: usize) -> (r: usize)
    requires
        from <= v@.len(),
    ensures
        r == from + word_len(v@.subrange(from as int, v@.len() as int)),
        r <= v@.len(),
{
    let mut i = from;
    while i < v.len() && !is_ws_char(v[i])
        invariant
            from <= i <= v@.len(),
            word_len(v@.subrange(from as int, v@.len() as int)) == (i - from) + word_len(
                v@.subrange(i as int, v@.len() as int),
            ),
        decreases v@.len() - i,
    {
        assert(v@.subrange(i as int, v@.len() as int).drop_first() =~= v@.subrange(
            i + 1,
            v@.len() as int,
        ));
        i = i + 1;
    }
    i
}

/// Whether the status line a probe read reports a 2xx status.
pub fn probe_status_passed(status_line: &str) -> (r: bool)
    ensures
        r == probe_passes(status_line@),
{
    let v = chars_of(status_line);
    let n = v.len();
    let ghost s = status_line@;
    assert(v@.subrange(0, n as int) =~= s);
    let a = skip_ws(&v, 0);
    let ghost t1 = s.subrange(trim_start_len(s) as int, s.len() as int);
    assert(t1 =~= v@.subrange(a as int, n as int));
    let b = skip_word(&v, a);
    let ghost rest = t1.subrange(word_len(t1) as int, t1.len() as int);
    assert(rest =~= v@.subrange(b as int, n as int));
    let c = skip_ws(&v, b);
    let ghost t2 = rest.subrange(trim_start_len(rest) as int, rest.len() as int);
    assert(t2 =~= v@.subrange(c as int, n as int));
    if a == n || c == n {
        return false;
    }
    let d = skip_word(&v, c);
    assert(t2.subrange(0, word_len(t2) as int) =~= v@.subrange(c as int, d as int));
    match parse_unsigned_range(&v, c, d, 65535) {
        None => false,
        Some(code) => 200 <= code && code <= 299,
    }
}

} // verus!
