use clawgate::balancer::RouteState;
use clawgate::config::{BalancingMode, RouteConfig};
use clawgate::dashboard::{BackendInfo, CircuitState, DashboardState};
use std::collections::VecDeque;

fn info(url: &str) -> BackendInfo {
    BackendInfo {
        url: url.to_string(),
        weight: 1,
        request_count: 0,
        last_hit: None,
        health_path: "/".to_string(),
        is_healthy: true,
        last_checked: None,
        failed_count: 0,
        circuit_state: CircuitState::Closed,
        manually_disabled: false,
        active_connections: 0,
        route_label: "default".to_string(),
        error_count: 0,
        latency_history: VecDeque::new(),
    }
}

fn dash(backends: Vec<BackendInfo>) -> DashboardState {
    DashboardState {
        backends,
        recent_request: VecDeque::new(),
        total_request: 0,
        status_msg: String::new(),
        health_check_interval_secs: 5,
        selected_backend: 0,
        pinned_backend: None,
        current_tab: 0,
        search_mode: false,
        search_query: String::new(),
        blocked_requests: 0,
    }
}

fn route(urls: &[&str]) -> RouteState {
    RouteState {
        config: RouteConfig {
            match_pattern: Some("*".to_string()),
            backends: vec![],
            match_header: None,
            split: None,
            label: None,
            ip_rules: None,
        },
        backends: urls.iter().map(|u| u.to_string()).collect(),
        counter: 0,
        ip_rules: None,
    }
}

const A: &str = "http://127.0.0.1:4000";
const B: &str = "http://127.0.0.1:4001";
const C: &str = "http://127.0.0.1:4002";

#[test]
fn round_robin_rotates() {
    let d = dash(vec![info(A), info(B), info(C)]);
    let mut r = route(&[A, B, C]);
    let picks: Vec<String> = (0..4).map(|_| r.next_backend("", BalancingMode::RoundRobin, &d).unwrap()).collect();
    assert_eq!(picks, vec![A, B, C, A]);
    assert_eq!(r.counter, 4);
}

#[test]
fn round_robin_skips_disabled_and_open() {
    let mut b = info(B);
    b.manually_disabled = true;
    let mut c = info(C);
    c.circuit_state = CircuitState::Open { tripped_at: 0 };
    let d = dash(vec![info(A), b, c]);
    let mut r = route(&[A, B, C]);
    for _ in 0..3 {
        assert_eq!(r.next_backend("", BalancingMode::RoundRobin, &d), Some(A.to_string()));
    }
}

#[test]
fn half_open_gets_traffic_and_closed_unhealthy_does_not() {
    let mut a = info(A);
    a.is_healthy = false;
    let mut b = info(B);
    b.is_healthy = false;
    b.circuit_state = CircuitState::HalfOpen;
    let d = dash(vec![a, b]);
    let mut r = route(&[A, B]);
    assert_eq!(r.next_backend("", BalancingMode::RoundRobin, &d), Some(B.to_string()));
}

#[test]
fn no_healthy_backend_gives_none() {
    let mut a = info(A);
    a.manually_disabled = true;
    let d = dash(vec![a]);
    let mut r = route(&[A]);
    assert_eq!(r.next_backend("", BalancingMode::RoundRobin, &d), None);
    assert_eq!(r.counter, 0);
}

#[test]
fn unknown_url_counts_as_healthy() {
    let d = dash(vec![]);
    let mut r = route(&[A]);
    assert_eq!(r.next_backend("", BalancingMode::LeastConnections, &d), Some(A.to_string()));
}

#[test]
fn pinned_backend_wins() {
    let mut d = dash(vec![info(A), info(B)]);
    d.pinned_backend = Some(1);
    let mut r = route(&[A, B]);
    assert_eq!(r.next_backend("", BalancingMode::RoundRobin, &d), Some(B.to_string()));
    assert_eq!(r.next_backend("", BalancingMode::RoundRobin, &d), Some(B.to_string()));
    assert_eq!(r.counter, 0);
}

#[test]
fn pinned_but_disabled_falls_through() {
    let mut b = info(B);
    b.manually_disabled = true;
    let mut d = dash(vec![info(A), b]);
    d.pinned_backend = Some(1);
    let mut r = route(&[A, B]);
    assert_eq!(r.next_backend("", BalancingMode::RoundRobin, &d), Some(A.to_string()));
}

#[test]
fn least_connections_picks_first_minimum() {
    let mut a = info(A);
    a.active_connections = 3;
    let mut b = info(B);
    b.active_connections = 1;
    let mut c = info(C);
    c.active_connections = 1;
    let d = dash(vec![a, b, c]);
    let mut r = route(&[A, B, C]);
    assert_eq!(r.next_backend("", BalancingMode::LeastConnections, &d), Some(B.to_string()));
    assert_eq!(r.counter, 0);
}

#[test]
fn ip_hash_is_sticky() {
    let d = dash(vec![info(A), info(B), info(C)]);
    let mut r = route(&[A, B, C]);
    let first = r.next_backend("10.1.2.3", BalancingMode::IpHash, &d);
    for _ in 0..5 {
        assert_eq!(r.next_backend("10.1.2.3", BalancingMode::IpHash, &d), first);
    }
    assert_eq!(r.counter, 0);
}

#[test]
fn pick_backend_uses_given_hash() {
    let d = dash(vec![info(A), info(B), info(C)]);
    let mut r = route(&[A, B, C]);
    assert_eq!(r.pick_backend(BalancingMode::IpHash, &d, 7), Some(B.to_string()));
    assert_eq!(r.pick_backend(BalancingMode::IpHash, &d, 9), Some(A.to_string()));
}

#[test]
fn counter_wraps() {
    let d = dash(vec![info(A), info(B)]);
    let mut r = route(&[A, B]);
    r.counter = usize::MAX;
    let got = r.next_backend("", BalancingMode::RoundRobin, &d);
    assert_eq!(got, Some(if usize::MAX % 2 == 1 { B } else { A }.to_string()));
    assert_eq!(r.counter, 0);
}


#[test]
fn pinned_but_failing_health_check_falls_through() {
    let mut b = info(B);
    b.is_healthy = false;
    let mut d = dash(vec![info(A), b]);
    d.pinned_backend = Some(1);
    let mut r = route(&[A, B]);
    assert_eq!(r.next_backend("", BalancingMode::RoundRobin, &d), Some(A.to_string()));
    let mut h = info(B);
    h.circuit_state = CircuitState::HalfOpen;
    let mut d2 = dash(vec![info(A), h]);
    d2.pinned_backend = Some(1);
    assert_eq!(r.next_backend("", BalancingMode::RoundRobin, &d2), Some(B.to_string()));
}
