use janus::backend::{
    Backend, BackendAddress, BackendId, BackendRuntime, HealthStatus, IpAddress, RuntimeState,
    SocketAddress,
};
use janus::health::{
    health_probe_request, janus_health, probe_status_passed, HealthCheckConfig, HealthCheckKind,
    HealthSupervisor, HealthTracker,
};

fn config(healthy: u32, unhealthy: u32) -> HealthCheckConfig {
    HealthCheckConfig {
        healthy_threshold: healthy,
        unhealthy_threshold: unhealthy,
        ..Default::default()
    }
}

fn runtime(id: &str) -> BackendRuntime {
    BackendRuntime::new(Backend {
        id: BackendId(id.into()),
        address: BackendAddress(SocketAddress { ip: IpAddress::V4([127, 0, 0, 1]), port: 9000 }),
        weight: 1,
    })
}

#[test]
fn failures_below_threshold_do_not_transition() {
    let mut tracker = HealthTracker::new(&config(2, 3));

    // unhealthy_threshold is 3, so the first two failures are not enough.
    assert_eq!(tracker.record(false), None);
    assert_eq!(tracker.record(false), None);
}

#[test]
fn reaching_the_unhealthy_threshold_transitions_once() {
    let mut tracker = HealthTracker::new(&config(2, 3));

    assert_eq!(tracker.record(false), None);
    assert_eq!(tracker.record(false), None);
    // The third consecutive failure crosses the threshold.
    assert_eq!(tracker.record(false), Some(HealthStatus::Unhealthy));
    // Already Unhealthy: further failures must not re-report a transition.
    assert_eq!(tracker.record(false), None);
}

#[test]
fn reaching_the_healthy_threshold_transitions_once() {
    let mut tracker = HealthTracker::new(&config(2, 3));

    assert_eq!(tracker.record(true), None);
    // Second consecutive success crosses healthy_threshold.
    assert_eq!(tracker.record(true), Some(HealthStatus::Healthy));
    assert_eq!(tracker.record(true), None);
}

#[test]
fn a_success_resets_the_failure_streak() {
    let mut tracker = HealthTracker::new(&config(2, 3));

    // Two failures, then a success wipes the failure counter.
    tracker.record(false);
    tracker.record(false);
    tracker.record(true);

    // The streak restarts: two failures are no longer enough to flip.
    assert_eq!(tracker.record(false), None);
    assert_eq!(tracker.record(false), None);
    // Only the third fresh failure crosses the threshold again.
    assert_eq!(tracker.record(false), Some(HealthStatus::Unhealthy));
}

#[test]
fn recovery_after_unhealthy_needs_the_healthy_threshold() {
    let mut tracker = HealthTracker::new(&config(2, 1));
    assert_eq!(tracker.record(false), Some(HealthStatus::Unhealthy));
    assert_eq!(tracker.record(true), None);
    assert_eq!(tracker.status(), HealthStatus::Unhealthy);
    assert_eq!(tracker.record(true), Some(HealthStatus::Healthy));
}

#[test]
fn zero_thresholds_flip_on_the_first_outcome() {
    let mut tracker = HealthTracker::new(&config(0, 0));
    assert_eq!(tracker.record(true), Some(HealthStatus::Healthy));
    assert_eq!(tracker.record(false), Some(HealthStatus::Unhealthy));
}

#[test]
fn default_config() {
    let c = HealthCheckConfig::default();
    assert!(matches!(c.kind, HealthCheckKind::TcpConnect));
    assert_eq!(c.interval_ms, 5000);
    assert_eq!(c.timeout_ms, 2000);
    assert_eq!(c.healthy_threshold, 2);
    assert_eq!(c.unhealthy_threshold, 3);
    assert_eq!(janus_health(), "janus-health");
}

#[test]
fn supervisor_applies_transitions_to_the_runtime_state() {
    let mut state = RuntimeState::new(vec![runtime("b1"), runtime("b2")]);
    let mut sup = HealthSupervisor::new(2, &config(2, 2));
    for _ in 0..2 {
        sup.observe(&mut state, 0, true);
        sup.observe(&mut state, 1, true);
    }
    assert_eq!(state.backends()[0].health(), HealthStatus::Healthy);
    assert_eq!(state.backends()[1].health(), HealthStatus::Healthy);
    assert_eq!(sup.observe(&mut state, 1, false), None);
    assert_eq!(state.backends()[1].health(), HealthStatus::Healthy);
    assert_eq!(sup.observe(&mut state, 1, false), Some(HealthStatus::Unhealthy));
    assert_eq!(state.backends()[1].health(), HealthStatus::Unhealthy);
    assert_eq!(state.backends()[0].health(), HealthStatus::Healthy);
}

#[test]
fn probe_request_text() {
    assert_eq!(
        health_probe_request("/healthz"),
        "GET /healthz HTTP/1.1\r\nHost: healthcheck\r\nConnection: close\r\n\r\n"
    );
}

#[test]
fn probe_status_lines() {
    assert!(probe_status_passed("HTTP/1.1 200 OK\r\n"));
    assert!(probe_status_passed("HTTP/1.1 299 Whatever"));
    assert!(probe_status_passed("  HTTP/1.0\t204"));
    assert!(!probe_status_passed("HTTP/1.1 199 Early"));
    assert!(!probe_status_passed("HTTP/1.1 300 Moved"));
    assert!(!probe_status_passed("HTTP/1.1 500 Oops"));
    assert!(!probe_status_passed("HTTP/1.1"));
    assert!(!probe_status_passed(""));
    assert!(!probe_status_passed("HTTP/1.1 2x0 OK"));
    assert!(!probe_status_passed("HTTP/1.1 99999 OK"));
}
