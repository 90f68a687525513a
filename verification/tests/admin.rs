use clawgate::admin::{check_token, to_dto, AdminState, AdminStatus};
use clawgate::dashboard::{BackendInfo, CircuitState, DashboardState};
use clawgate::router::{HeaderEntry, Headers};
use std::collections::VecDeque;

const A: &str = "http://127.0.0.1:4000";
const B: &str = "http://127.0.0.1:4001";

fn info(url: &str, requests: u64) -> BackendInfo {
    BackendInfo {
        url: url.to_string(),
        weight: 1,
        request_count: requests,
        last_hit: None,
        health_path: "/".to_string(),
        is_healthy: true,
        last_checked: None,
        failed_count: 0,
        circuit_state: CircuitState::Closed,
        manually_disabled: false,
        active_connections: 2,
        route_label: "api".to_string(),
        error_count: 0,
        latency_history: VecDeque::new(),
    }
}

fn dash() -> DashboardState {
    DashboardState {
        backends: vec![info(A, 7), info(B, 3)],
        recent_request: VecDeque::new(),
        total_request: 10,
        status_msg: String::new(),
        health_check_interval_secs: 5,
        selected_backend: 0,
        pinned_backend: None,
        current_tab: 0,
        search_mode: false,
        search_query: String::new(),
        blocked_requests: 0,
    }
}

fn auth(value: &str) -> Headers {
    Headers { entries: vec![HeaderEntry { name: "authorization".to_string(), value: Some(value.to_string()) }] }
}

fn admin() -> AdminState {
    AdminState { token: "s3cret".to_string() }
}

#[test]
fn token_must_match_exactly() {
    assert!(check_token(&auth("Bearer s3cret"), "s3cret"));
    assert!(!check_token(&auth("Bearer s3cre"), "s3cret"));
    assert!(!check_token(&auth("bearer s3cret"), "s3cret"));
    assert!(!check_token(&auth("s3cret"), "s3cret"));
    assert!(!check_token(&Headers { entries: vec![] }, "s3cret"));
}

#[test]
fn list_backends_requires_the_token() {
    let d = dash();
    assert!(admin().list_backends(&auth("Bearer nope"), &d).is_none());
    let list = admin().list_backends(&auth("Bearer s3cret"), &d).unwrap();
    assert_eq!(list.len(), 2);
    assert_eq!(list[0].url, A);
    assert_eq!(list[0].request_count, 7);
    assert_eq!(list[1].url, B);
    assert_eq!(list[1].active_connections, 2);
    assert_eq!(list[1].route_label, "api");
    assert!(list[1].healthy);
}

#[test]
fn disable_and_enable_a_backend() {
    let mut d = dash();
    assert_eq!(admin().disable_backend(&auth("Bearer s3cret"), B, &mut d), AdminStatus::Done);
    assert!(d.backends[1].manually_disabled);
    assert!(!d.backends[0].manually_disabled);
    assert_eq!(admin().enable_backend(&auth("Bearer s3cret"), B, &mut d), AdminStatus::Done);
    assert!(!d.backends[1].manually_disabled);
}

#[test]
fn unknown_backend_is_not_found() {
    let mut d = dash();
    assert_eq!(admin().disable_backend(&auth("Bearer s3cret"), "http://nowhere:1", &mut d), AdminStatus::NotFound);
    assert_eq!(admin().enable_backend(&auth("Bearer s3cret"), "http://nowhere:1", &mut d), AdminStatus::NotFound);
}

#[test]
fn wrong_token_changes_nothing() {
    let mut d = dash();
    assert_eq!(admin().disable_backend(&auth("Bearer wrong"), A, &mut d), AdminStatus::Unauthorized);
    assert!(!d.backends[0].manually_disabled);
}

#[test]
fn stats_report_totals() {
    let d = dash();
    assert!(admin().get_stats(&auth("Bearer x"), &d).is_none());
    let s = admin().get_stats(&auth("Bearer s3cret"), &d).unwrap();
    assert_eq!(s.total_requests, 10);
    assert_eq!(s.backends.len(), 2);
    assert_eq!(s.backends[0].request_count, 7);
    assert_eq!(to_dto(&d)[1].request_count, 3);
}

#[test]
fn blocked_requests_are_counted() {
    let mut d = dash();
    d.record_blocked();
    d.record_blocked();
    assert_eq!(d.blocked_requests, 2);
    d.blocked_requests = u64::MAX;
    d.record_blocked();
    assert_eq!(d.blocked_requests, 0);
    assert_eq!(d.total_request, 10);
}

fn gateway_with(mode: clawgate::config::BalancingMode) -> clawgate::balancer::GateWayState {
    let cfg = clawgate::config::Config {
        backends: vec![clawgate::config::BackendConfig { url: A.to_string(), health_path: None, weight: 1 }],
        health_check_interval_secs: None,
        circuit_breaker: clawgate::config::CircuitBreakerConfig::default(),
        auth: None,
        balancing: mode,
        routes: vec![],
        ip_rules: None,
        rate_limit: None,
        max_body_size_mb: None,
        access_log: None,
        admin: None,
        tls: None,
        http2: None,
    };
    clawgate::gateway::build_gateway(cfg)
}

#[test]
fn add_backend_at_runtime() {
    let mut gw = gateway_with(clawgate::config::BalancingMode::WeightedRoundRobin);
    let new = clawgate::config::BackendConfig { url: B.to_string(), health_path: Some("/hz".to_string()), weight: 2 };
    let dup = clawgate::config::BackendConfig { url: A.to_string(), health_path: None, weight: 1 };
    let again = clawgate::config::BackendConfig { url: B.to_string(), health_path: None, weight: 1 };
    assert_eq!(admin().add_backend(&auth("Bearer no"), again, &mut gw), AdminStatus::Unauthorized);
    assert_eq!(admin().add_backend(&auth("Bearer s3cret"), dup, &mut gw), AdminStatus::Conflict);
    assert_eq!(gw.global_dashboard.backends.len(), 1);
    assert_eq!(admin().add_backend(&auth("Bearer s3cret"), new, &mut gw), AdminStatus::Done);
    assert_eq!(gw.global_dashboard.backends.len(), 2);
    assert_eq!(gw.global_dashboard.backends[1].url, B);
    assert_eq!(gw.global_dashboard.backends[1].route_label, "admin");
    assert_eq!(gw.global_dashboard.backends[1].health_path, "/hz");
    assert_eq!(gw.routes[0].backends, vec![A.to_string(), B.to_string(), B.to_string()]);
}
