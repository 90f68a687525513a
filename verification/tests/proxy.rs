use clawgate::balancer::{GateWayState, RouteState};
use clawgate::config::{BalancingMode, HeaderMatch, IpRulesConfig, IpRulesMode, RouteConfig, SplitGroupConfig};
use clawgate::dashboard::{BackendInfo, CircuitState, DashboardState};
use clawgate::middleware::ip_rules::IpRules;
use clawgate::proxy::{
    admit_request, body_too_large, client_ip_text, close_connection, open_connection, parse_usize, pick_split_group,
    record_response, select_route,
};
use clawgate::rate_limiter::RateLimiter;
use clawgate::router::{HeaderEntry, Headers};
use std::collections::VecDeque;

const A: &str = "http://127.0.0.1:4000";
const B: &str = "http://127.0.0.1:4001";

fn info(url: &str) -> BackendInfo {
    BackendInfo {
        url: url.to_string(),
        weight: 1,
        request_count: 0,
        last_hit: None,
        health_path: "/".to_string(),
        is_healthy: true,
        last_checked: None,
        failed_count: 0,
        circuit_state: CircuitState::Closed,
        manually_disabled: false,
        active_connections: 0,
        route_label: "default".to_string(),
        error_count: 0,
        latency_history: VecDeque::new(),
    }
}

fn dash(backends: Vec<BackendInfo>) -> DashboardState {
    DashboardState {
        backends,
        recent_request: VecDeque::new(),
        total_request: 0,
        status_msg: String::new(),
        health_check_interval_secs: 5,
        selected_backend: 0,
        pinned_backend: None,
        current_tab: 0,
        search_mode: false,
        search_query: String::new(),
        blocked_requests: 0,
    }
}

fn route_config(pattern: &str, header: Option<(&str, &str)>) -> RouteConfig {
    RouteConfig {
        match_pattern: Some(pattern.to_string()),
        backends: vec![],
        match_header: header.map(|(n, v)| HeaderMatch { name: n.to_string(), value: v.to_string() }),
        split: None,
        label: None,
        ip_rules: None,
    }
}

fn route(pattern: &str, urls: &[&str]) -> RouteState {
    RouteState {
        config: route_config(pattern, None),
        backends: urls.iter().map(|u| u.to_string()).collect(),
        counter: 0,
        ip_rules: None,
    }
}

fn gateway(routes: Vec<RouteState>, limiter: Option<RateLimiter>) -> GateWayState {
    GateWayState {
        routes,
        global_dashboard: dash(vec![info(A), info(B)]),
        balancing: BalancingMode::RoundRobin,
        rate_limiter: limiter,
        max_body_bytes: None,
    }
}

fn headers(pairs: &[(&str, &str)]) -> Headers {
    Headers {
        entries: pairs
            .iter()
            .map(|(n, v)| HeaderEntry { name: n.to_string(), value: Some(v.to_string()) })
            .collect(),
    }
}

fn outcome(r: Result<String, clawgate::proxy::Rejection>) -> Result<String, (u16, String)> {
    r.map_err(|e| (e.status, e.message))
}

#[test]
fn parse_usize_follows_str_parse() {
    assert_eq!(parse_usize("0"), Some(0));
    assert_eq!(parse_usize("1048576"), Some(1_048_576));
    assert_eq!(parse_usize("+7"), Some(7));
    assert_eq!(parse_usize(""), None);
    assert_eq!(parse_usize("+"), None);
    assert_eq!(parse_usize("-1"), None);
    assert_eq!(parse_usize("12a"), None);
    assert_eq!(parse_usize(" 12"), None);
    assert_eq!(parse_usize("99999999999999999999999"), None);
    assert_eq!(parse_usize(&usize::MAX.to_string()), Some(usize::MAX));
}

#[test]
fn announced_body_over_the_limit_is_refused() {
    assert!(body_too_large(Some(10), &headers(&[("content-length", "11")])));
    assert!(!body_too_large(Some(10), &headers(&[("content-length", "10")])));
    assert!(!body_too_large(Some(10), &headers(&[("content-length", "lots")])));
    assert!(!body_too_large(Some(10), &headers(&[])));
    assert!(!body_too_large(None, &headers(&[("content-length", "99999")])));
}

#[test]
fn client_ip_text_is_the_whole_forwarded_header() {
    assert_eq!(client_ip_text(&headers(&[("x-forwarded-for", "1.2.3.4, 5.6.7.8")])), "1.2.3.4, 5.6.7.8");
    assert_eq!(client_ip_text(&headers(&[])), "");
}

#[test]
fn first_matching_route_wins() {
    let mut api = route("/api/*", &[A]);
    api.config.match_header = Some(HeaderMatch { name: "x-version".to_string(), value: "2".to_string() });
    let routes = vec![api, route("/api/*", &[B]), route("*", &[A])];
    assert_eq!(select_route(&routes, "/api/users", &headers(&[("x-version", "2")])), Some(0));
    assert_eq!(select_route(&routes, "/api/users", &headers(&[("x-version", "1")])), Some(1));
    assert_eq!(select_route(&routes, "/other", &headers(&[])), Some(2));
    let no_catch_all = vec![route("/api/*", &[A]), route("/health", &[B])];
    assert_eq!(select_route(&no_catch_all, "/other", &headers(&[])), None);
}

#[test]
fn split_roll_selects_group_by_running_weight() {
    let groups = vec![
        SplitGroupConfig { backends: vec![A.to_string()], weight: 3 },
        SplitGroupConfig { backends: vec![], weight: 0 },
        SplitGroupConfig { backends: vec![B.to_string()], weight: 1 },
    ];
    assert_eq!(pick_split_group(&groups, 0), 0);
    assert_eq!(pick_split_group(&groups, 2), 0);
    assert_eq!(pick_split_group(&groups, 3), 2);
}

#[test]
fn admission_round_robins_over_the_route() {
    let mut gw = gateway(vec![route("*", &[A, B])], None);
    assert_eq!(outcome(admit_request(&mut gw, 0, "10.0.0.1")), Ok(A.to_string()));
    assert_eq!(outcome(admit_request(&mut gw, 0, "10.0.0.1")), Ok(B.to_string()));
    assert_eq!(outcome(admit_request(&mut gw, 0, "")), Ok(A.to_string()));
}

#[test]
fn route_ip_rules_answer_403() {
    let mut r = route("*", &[A]);
    r.ip_rules = Some(IpRules::from_config(&IpRulesConfig {
        mode: IpRulesMode::Denylist,
        cidrs: vec!["10.0.0.0/8".to_string()],
    }));
    let mut gw = gateway(vec![r], None);
    assert_eq!(outcome(admit_request(&mut gw, 0, "10.1.2.3")), Err((403, "IP address not allowed".to_string())));
    assert_eq!(outcome(admit_request(&mut gw, 0, "::ffff:10.1.2.3")), Err((403, "IP address not allowed".to_string())));
    assert_eq!(gw.routes[0].counter, 0);
    assert_eq!(outcome(admit_request(&mut gw, 0, "192.168.0.1")), Ok(A.to_string()));
    // an address that does not parse is not judged by the rules
    assert_eq!(outcome(admit_request(&mut gw, 0, "not-an-ip")), Ok(A.to_string()));
}

#[test]
fn rate_limit_answers_429() {
    let mut gw = gateway(vec![route("*", &[A])], Some(RateLimiter::new(2, 60)));
    assert!(admit_request(&mut gw, 0, "10.0.0.1").is_ok());
    assert!(admit_request(&mut gw, 0, "10.0.0.1").is_ok());
    assert_eq!(outcome(admit_request(&mut gw, 0, "10.0.0.1")), Err((429, "Rate limit exceeded".to_string())));
    assert!(admit_request(&mut gw, 0, "10.0.0.2").is_ok());
}

#[test]
fn no_eligible_backend_answers_503() {
    let mut gw = gateway(vec![route("*", &[A, B])], None);
    gw.global_dashboard.backends[0].is_healthy = false;
    gw.global_dashboard.backends[1].circuit_state = CircuitState::Open { tripped_at: 1 };
    assert_eq!(
        outcome(admit_request(&mut gw, 0, "10.0.0.1")),
        Err((503, "No healthy backends available".to_string()))
    );
}

#[test]
fn split_route_always_answers() {
    let mut r = route("*", &[]);
    r.config.split = Some(vec![
        SplitGroupConfig { backends: vec![A.to_string()], weight: 9 },
        SplitGroupConfig { backends: vec![B.to_string()], weight: 1 },
    ]);
    let mut gw = gateway(vec![r], None);
    for _ in 0..20 {
        let b = admit_request(&mut gw, 0, "10.0.0.1").unwrap();
        assert!(b == A || b == B);
    }
    assert_eq!(gw.routes[0].counter, 20);
}

#[test]
fn connections_are_counted_per_backend() {
    let mut d = dash(vec![info(A), info(B)]);
    open_connection(&mut d, B);
    open_connection(&mut d, B);
    close_connection(&mut d, B);
    open_connection(&mut d, "http://unknown:1");
    assert_eq!(d.backends[0].active_connections, 0);
    assert_eq!(d.backends[1].active_connections, 1);
}

#[test]
fn responses_update_counters_and_bounded_histories() {
    let mut d = dash(vec![info(A)]);
    for i in 0..35u64 {
        let status = if i % 5 == 0 { 502 } else { 200 };
        record_response(&mut d, A, "GET".to_string(), format!("/p{}", i), status, i as u128, format!("id{}", i), 1000 + i);
    }
    let b = &d.backends[0];
    assert_eq!(b.request_count, 35);
    assert_eq!(b.error_count, 7);
    assert_eq!(b.last_hit, Some(1034));
    assert_eq!(b.latency_history.len(), 30);
    assert_eq!(b.latency_history.front(), Some(&5));
    assert_eq!(b.latency_history.back(), Some(&34));
    assert_eq!(d.total_request, 35);
    assert_eq!(d.recent_request.len(), 20);
    assert_eq!(d.recent_request[0].path, "/p34");
    assert_eq!(d.recent_request[0].request_id, "id34");
    assert_eq!(d.recent_request[19].path, "/p15");
}

#[test]
fn response_for_unknown_backend_only_counts_the_total() {
    let mut d = dash(vec![info(A)]);
    record_response(&mut d, "http://gone:1", "POST".to_string(), "/x".to_string(), 500, 3, "r".to_string(), 9);
    assert_eq!(d.backends[0].request_count, 0);
    assert_eq!(d.backends[0].error_count, 0);
    assert_eq!(d.total_request, 1);
    assert_eq!(d.recent_request[0].backends, "http://gone:1");
    assert_eq!(d.recent_request[0].status, 500);
}

#[test]
fn closing_after_opening_restores_the_count() {
    let mut d = dash(vec![info(A), info(B)]);
    d.backends[0].active_connections = i64::MAX;
    open_connection(&mut d, A);
    assert_eq!(d.backends[0].active_connections, i64::MIN);
    close_connection(&mut d, A);
    assert_eq!(d.backends[0].active_connections, i64::MAX);
    assert_eq!(d.backends[1].active_connections, 0);
}

#[test]
fn every_roll_lands_in_a_group_in_proportion_to_weight() {
    let groups = vec![
        SplitGroupConfig { backends: vec![A.to_string()], weight: 90 },
        SplitGroupConfig { backends: vec![B.to_string()], weight: 10 },
    ];
    let mut counts = [0u32; 2];
    for roll in 0..100u32 {
        counts[pick_split_group(&groups, roll)] += 1;
    }
    assert_eq!(counts, [90, 10]);
}
