use clawgate::dashboard::{BackendInfo, CircuitState, DashboardState};
use clawgate::gossip::{apply_peer_reports, collect_peer_reports, gossip_entries, peer_report, url_to_key};
use std::collections::VecDeque;

const A: &str = "http://127.0.0.1:4000";
const B: &str = "http://127.0.0.1:4001";

fn info(url: &str, healthy: bool, circuit: CircuitState) -> BackendInfo {
    BackendInfo {
        url: url.to_string(),
        weight: 1,
        request_count: 0,
        last_hit: None,
        health_path: "/".to_string(),
        is_healthy: healthy,
        last_checked: None,
        failed_count: 0,
        circuit_state: circuit,
        manually_disabled: false,
        active_connections: 0,
        route_label: "default".to_string(),
        error_count: 0,
        latency_history: VecDeque::new(),
    }
}

fn dash(backends: Vec<BackendInfo>) -> DashboardState {
    DashboardState {
        backends,
        recent_request: VecDeque::new(),
        total_request: 0,
        status_msg: "idle".to_string(),
        health_check_interval_secs: 5,
        selected_backend: 0,
        pinned_backend: None,
        current_tab: 0,
        search_mode: false,
        search_query: String::new(),
        blocked_requests: 0,
    }
}

fn pair(k: &str, v: &str) -> (String, String) {
    (k.to_string(), v.to_string())
}

#[test]
fn url_key_replaces_scheme_separator_and_port_colon() {
    assert_eq!(url_to_key("http://127.0.0.1:4000"), "http_127.0.0.1-4000");
    assert_eq!(url_to_key("https://a:1/b:c"), "https_a-1/b-c");
    assert_eq!(url_to_key(""), "");
}

#[test]
fn entries_publish_health_and_circuit_per_backend() {
    let d = dash(vec![info(A, true, CircuitState::Closed), info(B, false, CircuitState::Open { tripped_at: 5 })]);
    let e = gossip_entries(&d);
    assert_eq!(
        e,
        vec![
            pair("backend/http_127.0.0.1-4000/is_healthy", "true"),
            pair("backend/http_127.0.0.1-4000/circuit_state", "closed"),
            pair("backend/http_127.0.0.1-4001/is_healthy", "false"),
            pair("backend/http_127.0.0.1-4001/circuit_state", "open"),
        ]
    );
}

#[test]
fn peer_report_reads_only_unhealthy_health_keys() {
    assert_eq!(peer_report("backend/http_127.0.0.1-4000/is_healthy", "false"), Some("http_127.0.0.1-4000".to_string()));
    assert_eq!(peer_report("backend/http_127.0.0.1-4000/is_healthy", "true"), None);
    assert_eq!(peer_report("backend/http_127.0.0.1-4000/circuit_state", "false"), None);
    assert_eq!(peer_report("other/http_127.0.0.1-4000/is_healthy", "false"), None);
    assert_eq!(peer_report("backend//is_healthy", "false"), Some(String::new()));
}

#[test]
fn collect_keeps_report_order() {
    let entries = vec![
        pair("backend/k1/is_healthy", "false"),
        pair("backend/k2/is_healthy", "true"),
        pair("backend/k3/is_healthy", "false"),
    ];
    assert_eq!(collect_peer_reports(&entries), vec!["k1".to_string(), "k3".to_string()]);
}

#[test]
fn peer_report_marks_healthy_backend_down() {
    let mut d = dash(vec![info(A, true, CircuitState::Closed), info(B, true, CircuitState::Closed)]);
    apply_peer_reports(&mut d, &vec!["http_127.0.0.1-4001".to_string()]);
    assert!(d.backends[0].is_healthy);
    assert!(!d.backends[1].is_healthy);
    assert_eq!(d.status_msg, format!("Peer reports {} unhealthy", B));
}

#[test]
fn report_on_unknown_or_already_down_backend_changes_nothing() {
    let mut d = dash(vec![info(A, false, CircuitState::Closed)]);
    apply_peer_reports(&mut d, &vec!["http_127.0.0.1-4000".to_string(), "nope".to_string()]);
    assert!(!d.backends[0].is_healthy);
    assert_eq!(d.status_msg, "idle");
}

#[test]
fn published_entries_read_back_at_a_peer() {
    let mine = dash(vec![info(A, false, CircuitState::Open { tripped_at: 1 }), info(B, true, CircuitState::HalfOpen)]);
    let reports = collect_peer_reports(&gossip_entries(&mine));
    assert_eq!(reports, vec![url_to_key(A)]);
    let mut peer = dash(vec![info(A, true, CircuitState::Closed), info(B, true, CircuitState::Closed)]);
    apply_peer_reports(&mut peer, &reports);
    assert!(!peer.backends[0].is_healthy);
    assert!(peer.backends[1].is_healthy);
}
