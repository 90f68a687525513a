use clawgate::dashboard::{BackendInfo, CircuitState, DashboardState};
use clawgate::health::{apply_probe_result, probe_is_healthy, probe_targets};
use std::collections::VecDeque;

const URL: &str = "http://127.0.0.1:4000";
const SEC: u64 = 1_000_000_000;

fn info(url: &str) -> BackendInfo {
    BackendInfo {
        url: url.to_string(),
        weight: 1,
        request_count: 0,
        last_hit: None,
        health_path: "/health".to_string(),
        is_healthy: true,
        last_checked: None,
        failed_count: 0,
        circuit_state: CircuitState::Closed,
        manually_disabled: false,
        active_connections: 0,
        route_label: "default".to_string(),
        error_count: 0,
        latency_history: VecDeque::new(),
    }
}

fn dash() -> DashboardState {
    DashboardState {
        backends: vec![info(URL)],
        recent_request: VecDeque::new(),
        total_request: 0,
        status_msg: String::new(),
        health_check_interval_secs: 5,
        selected_backend: 0,
        pinned_backend: None,
        current_tab: 0,
        search_mode: false,
        search_query: String::new(),
        blocked_requests: 0,
    }
}

#[test]
fn probe_status_below_500_is_healthy() {
    assert!(probe_is_healthy(Some(200)));
    assert!(probe_is_healthy(Some(404)));
    assert!(probe_is_healthy(Some(499)));
    assert!(!probe_is_healthy(Some(500)));
    assert!(!probe_is_healthy(Some(503)));
    assert!(!probe_is_healthy(None));
}

#[test]
fn probe_targets_join_url_and_path() {
    let d = dash();
    assert_eq!(probe_targets(&d), vec![(URL.to_string(), "http://127.0.0.1:4000/health".to_string())]);
}

#[test]
fn circuit_trips_after_threshold() {
    let mut d = dash();
    apply_probe_result(&mut d, URL, false, 1, 30, 3);
    assert_eq!(d.backends[0].failed_count, 1);
    assert!(!d.backends[0].is_healthy);
    assert_eq!(d.backends[0].circuit_state, CircuitState::Closed);
    assert_eq!(d.status_msg, "⚠ http://127.0.0.1:4000 unhealthy (1/3 failures)");
    assert_eq!(d.backends[0].last_checked, Some(1));
    apply_probe_result(&mut d, URL, false, 2, 30, 3);
    assert_eq!(d.status_msg, "⚠ http://127.0.0.1:4000 unhealthy (2/3 failures)");
    apply_probe_result(&mut d, URL, false, 3, 30, 3);
    assert!(matches!(d.backends[0].circuit_state, CircuitState::Open { tripped_at: 3 }));
    assert_eq!(d.status_msg, "⚡ http://127.0.0.1:4000 tripped -circuit Open (30s cooldown)");
}

#[test]
fn open_circuit_waits_for_cooldown_then_half_opens() {
    let mut d = dash();
    d.backends[0].circuit_state = CircuitState::Open { tripped_at: 10 * SEC };
    d.backends[0].failed_count = 5;
    d.status_msg = "before".to_string();
    apply_probe_result(&mut d, URL, false, 20 * SEC, 30, 5);
    assert!(matches!(d.backends[0].circuit_state, CircuitState::Open { tripped_at: t } if t == 10 * SEC));
    assert_eq!(d.status_msg, "before");
    assert_eq!(d.backends[0].failed_count, 6);
    apply_probe_result(&mut d, URL, false, 40 * SEC, 30, 5);
    assert_eq!(d.backends[0].circuit_state, CircuitState::HalfOpen);
    assert_eq!(d.status_msg, "⏳ http://127.0.0.1:4000 cooldown elapsed -entering HalfOpen");
}

#[test]
fn half_open_probe_failure_reopens() {
    let mut d = dash();
    d.backends[0].circuit_state = CircuitState::HalfOpen;
    d.backends[0].failed_count = 7;
    apply_probe_result(&mut d, URL, false, 99, 30, 5);
    assert!(matches!(d.backends[0].circuit_state, CircuitState::Open { tripped_at: 99 }));
    assert_eq!(d.backends[0].failed_count, 1);
    assert_eq!(d.status_msg, "⚡ http://127.0.0.1:4000 probe failed -circuit re-Opened");
}

#[test]
fn success_closes_and_reports_recovery() {
    let mut d = dash();
    d.backends[0].circuit_state = CircuitState::HalfOpen;
    d.backends[0].failed_count = 4;
    d.backends[0].is_healthy = false;
    apply_probe_result(&mut d, URL, true, 5, 30, 5);
    assert_eq!(d.backends[0].circuit_state, CircuitState::Closed);
    assert_eq!(d.backends[0].failed_count, 0);
    assert!(d.backends[0].is_healthy);
    assert_eq!(d.status_msg, "✓ http://127.0.0.1:4000 recovered -circuit Closed");
}

#[test]
fn success_while_closed_keeps_status_line() {
    let mut d = dash();
    d.status_msg = "quiet".to_string();
    apply_probe_result(&mut d, URL, true, 5, 30, 5);
    assert_eq!(d.status_msg, "quiet");
    assert_eq!(d.backends[0].last_checked, Some(5));
}

#[test]
fn unknown_url_changes_nothing() {
    let mut d = dash();
    apply_probe_result(&mut d, "http://elsewhere", false, 5, 30, 5);
    assert_eq!(d.backends[0].failed_count, 0);
    assert_eq!(d.backends[0].last_checked, None);
    assert_eq!(d.status_msg, "");
}

#[test]
fn circuit_state_equality_ignores_trip_time() {
    assert_eq!(CircuitState::Open { tripped_at: 1 }, CircuitState::Open { tripped_at: 2 });
    assert_ne!(CircuitState::Closed, CircuitState::HalfOpen);
    assert_eq!(CircuitState::HalfOpen.to_db_string(), "half_open");
    assert_eq!(CircuitState::Open { tripped_at: 0 }.to_db_string(), "open");
    assert_eq!(CircuitState::Closed.to_db_string(), "closed");
}

#[test]
fn healthy_probe_does_not_close_an_open_circuit_early() {
    let mut d = dash();
    d.backends[0].circuit_state = CircuitState::Open { tripped_at: 10 * SEC };
    d.backends[0].failed_count = 5;
    d.backends[0].is_healthy = false;
    d.status_msg = "before".to_string();
    apply_probe_result(&mut d, URL, true, 20 * SEC, 30, 5);
    assert!(matches!(d.backends[0].circuit_state, CircuitState::Open { tripped_at: t } if t == 10 * SEC));
    assert_eq!(d.backends[0].failed_count, 5);
    assert!(d.backends[0].is_healthy);
    assert_eq!(d.status_msg, "before");
    apply_probe_result(&mut d, URL, true, 41 * SEC, 30, 5);
    assert_eq!(d.backends[0].circuit_state, CircuitState::HalfOpen);
    assert_eq!(d.status_msg, "⏳ http://127.0.0.1:4000 cooldown elapsed -entering HalfOpen");
    apply_probe_result(&mut d, URL, true, 42 * SEC, 30, 5);
    assert_eq!(d.backends[0].circuit_state, CircuitState::Closed);
    assert_eq!(d.backends[0].failed_count, 0);
    assert_eq!(d.status_msg, "✓ http://127.0.0.1:4000 recovered -circuit Closed");
}
