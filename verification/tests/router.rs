use clawgate::config::{HeaderMatch, RouteConfig};
use clawgate::router::{find_route, match_route, matches_path, HeaderEntry, Headers};

fn headers(pairs: &[(&str, Option<&str>)]) -> Headers {
    Headers {
        entries: pairs
            .iter()
            .map(|(n, v)| HeaderEntry { name: n.to_string(), value: v.map(|s| s.to_string()) })
            .collect(),
    }
}

fn route(pattern: Option<&str>, header: Option<(&str, &str)>) -> RouteConfig {
    RouteConfig {
        match_pattern: pattern.map(|s| s.to_string()),
        backends: vec![],
        match_header: header.map(|(n, v)| HeaderMatch { name: n.to_string(), value: v.to_string() }),
        split: None,
        label: None,
        ip_rules: None,
    }
}

#[test]
fn catch_all_matches_everything() {
    assert!(matches_path("*", "/anything/at/all"));
    assert!(matches_path("*", ""));
}

#[test]
fn exact_pattern_matches_only_itself() {
    assert!(matches_path("/health", "/health"));
    assert!(!matches_path("/health", "/health/live"));
    assert!(!matches_path("/health", "/healt"));
}

#[test]
fn glob_pattern_matches_prefix() {
    assert!(matches_path("/api/*", "/api/users"));
    assert!(matches_path("/api/*", "/api"));
    assert!(matches_path("/api/*", "/apiary"));
    assert!(!matches_path("/api/*", "/ap"));
    assert!(!matches_path("/api/*", "/other"));
}

#[test]
fn find_route_prefers_most_specific() {
    let patterns = vec!["*".to_string(), "/api/*".to_string(), "/api/v1/*".to_string(), "/api/v1/users".to_string()];
    assert_eq!(find_route(&patterns, "/api/v1/users"), Some("/api/v1/users"));
    assert_eq!(find_route(&patterns, "/api/v1/orders"), Some("/api/v1/*"));
    assert_eq!(find_route(&patterns, "/api/v2"), Some("/api/*"));
    assert_eq!(find_route(&patterns, "/static/x"), Some("*"));
}

#[test]
fn find_route_none_and_ties() {
    let patterns = vec!["/a".to_string(), "/b/*".to_string()];
    assert_eq!(find_route(&patterns, "/c"), None);
    let tie = vec!["/x/*".to_string(), "/y/*".to_string(), "*".to_string()];
    assert_eq!(find_route(&tie, "/x/1"), Some("/x/*"));
    let stars = vec!["*".to_string(), "/*".to_string()];
    assert_eq!(find_route(&stars, "/q"), Some("*"));
}

#[test]
fn match_route_path_and_header() {
    let r = route(Some("/api/*"), Some(("X-Version", "v2")));
    assert!(match_route(&r, "/api/x", &headers(&[("x-version", Some("v2"))])));
    assert!(!match_route(&r, "/api/x", &headers(&[("x-version", Some("v1"))])));
    assert!(!match_route(&r, "/other", &headers(&[("x-version", Some("v2"))])));
    assert!(!match_route(&r, "/api/x", &headers(&[])));
    assert!(!match_route(&r, "/api/x", &headers(&[("x-version", None)])));
}

#[test]
fn match_route_first_header_value_counts() {
    let r = route(None, Some(("X-Version", "v2")));
    assert!(match_route(&r, "/", &headers(&[("x-version", Some("v2")), ("x-version", Some("v1"))])));
    assert!(!match_route(&r, "/", &headers(&[("x-version", Some("v1")), ("x-version", Some("v2"))])));
}

#[test]
fn route_without_conditions_matches_all() {
    let r = route(None, None);
    assert!(match_route(&r, "/whatever", &headers(&[])));
}

#[test]
fn header_lookup_first_and_text() {
    let h = headers(&[("a", Some("1")), ("b", None), ("a", Some("2"))]);
    assert_eq!(h.index_of("a"), Some(0));
    assert_eq!(h.text("a"), Some("1".to_string()));
    assert_eq!(h.text("b"), None);
    assert_eq!(h.text("c"), None);
}

#[test]
fn find_route_ignores_pattern_order() {
    let a = vec!["/api/*".to_string(), "/api/users".to_string(), "*".to_string()];
    let b = vec!["*".to_string(), "/api/users".to_string(), "/api/*".to_string()];
    assert_eq!(find_route(&a, "/api/users"), Some("/api/users"));
    assert_eq!(find_route(&b, "/api/users"), Some("/api/users"));
    assert_eq!(find_route(&a, "/api/x"), find_route(&b, "/api/x"));
}
