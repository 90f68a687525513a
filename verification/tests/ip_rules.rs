use clawgate::balancer::RouteState;
use clawgate::config::{IpRulesConfig, IpRulesMode, RouteConfig};
use clawgate::middleware::ip_rules::{forwarded_client_ip, ip_filter, normalize, parse_ip, split_first, Cidr, FilterOutcome, Ip, IpRules};
use clawgate::router::{HeaderEntry, Headers};

fn cfg(mode: IpRulesMode, cidrs: &[&str]) -> IpRulesConfig {
    IpRulesConfig { mode, cidrs: cidrs.iter().map(|s| s.to_string()).collect() }
}

fn no_routes() -> Vec<RouteState> {
    vec![]
}

fn route(pattern: &str, rules: Option<IpRules>) -> RouteState {
    RouteState {
        config: RouteConfig {
            match_pattern: Some(pattern.to_string()),
            backends: vec![],
            match_header: None,
            split: None,
            label: None,
            ip_rules: None,
        },
        backends: vec![],
        counter: 0,
        ip_rules: rules,
    }
}

fn xff(v: &str) -> Headers {
    Headers { entries: vec![HeaderEntry { name: "x-forwarded-for".to_string(), value: Some(v.to_string()) }] }
}

#[test]
fn parse_ip_reads_both_families() {
    assert_eq!(parse_ip("10.0.0.1"), Some(Ip::V4(0x0A00_0001)));
    assert_eq!(parse_ip("::1"), Some(Ip::V6(1)));
    assert_eq!(parse_ip("10.0.0.1/8"), None);
    assert_eq!(parse_ip("not an ip"), None);
    assert_eq!(parse_ip(""), None);
}

#[test]
fn from_config_skips_bad_cidrs() {
    let rules = IpRules::from_config(&cfg(IpRulesMode::Denylist, &["192.168.1.0/24", "garbage", "10.0.0.0/33", "::1/128"]));
    assert_eq!(rules.networks, vec![Cidr::V4 { addr: 0xC0A8_0100, prefix: 24 }, Cidr::V6 { addr: 1, prefix: 128 }]);
    assert_eq!(rules.mode, IpRulesMode::Denylist);
}

#[test]
fn denylist_blocks_listed_network() {
    let rules = IpRules::from_config(&cfg(IpRulesMode::Denylist, &["192.168.1.0/24"]));
    assert!(!rules.is_allowed(parse_ip("192.168.1.5").unwrap()));
    assert!(rules.is_allowed(parse_ip("192.168.2.5").unwrap()));
}

#[test]
fn allowlist_admits_only_listed_network() {
    let rules = IpRules::from_config(&cfg(IpRulesMode::Allowlist, &["10.0.0.0/8"]));
    assert!(rules.is_allowed(parse_ip("10.20.30.40").unwrap()));
    assert!(!rules.is_allowed(parse_ip("11.0.0.1").unwrap()));
    assert!(!rules.is_allowed(parse_ip("::a00:1").unwrap()));
}

#[test]
fn allowlist_and_denylist_are_complements() {
    let allow = IpRules::from_config(&cfg(IpRulesMode::Allowlist, &["172.16.0.0/12"]));
    let deny = IpRules::from_config(&cfg(IpRulesMode::Denylist, &["172.16.0.0/12"]));
    for ip in ["172.16.0.1", "172.31.255.255", "172.32.0.0", "8.8.8.8"] {
        let a = parse_ip(ip).unwrap();
        assert_eq!(allow.is_allowed(a), !deny.is_allowed(a));
    }
}

#[test]
fn zero_prefix_contains_everything_of_family() {
    let all4 = Cidr::V4 { addr: 0x0102_0304, prefix: 0 };
    assert!(all4.contains(Ip::V4(0xFFFF_FFFF)));
    assert!(!all4.contains(Ip::V6(0)));
    let one6 = Cidr::V6 { addr: 5, prefix: 128 };
    assert!(one6.contains(Ip::V6(5)));
    assert!(!one6.contains(Ip::V6(4)));
}

#[test]
fn mapped_ipv6_normalises_to_ipv4() {
    assert_eq!(normalize(parse_ip("::ffff:192.168.1.5").unwrap()), parse_ip("192.168.1.5").unwrap());
    assert_eq!(normalize(Ip::V6(1)), Ip::V6(1));
    assert_eq!(normalize(Ip::V4(7)), Ip::V4(7));
}

#[test]
fn filter_uses_first_forwarded_entry() {
    let rules = Some(IpRules::from_config(&cfg(IpRulesMode::Denylist, &["192.168.1.0/24"])));
    assert_eq!(ip_filter(&rules, &no_routes(), "/", &xff(" 192.168.1.9 , 8.8.8.8"), None), FilterOutcome::Forbidden);
    assert_eq!(ip_filter(&rules, &no_routes(), "/", &xff("8.8.8.8, 192.168.1.9"), None), FilterOutcome::Pass);
    assert_eq!(ip_filter(&rules, &no_routes(), "/", &xff("::ffff:192.168.1.5"), None), FilterOutcome::Forbidden);
}

#[test]
fn filter_falls_back_to_socket_address() {
    let rules = Some(IpRules::from_config(&cfg(IpRulesMode::Allowlist, &["10.0.0.0/8"])));
    let none = Headers { entries: vec![] };
    assert_eq!(ip_filter(&rules, &no_routes(), "/", &none, Some(Ip::V4(0x0A00_0001))), FilterOutcome::Pass);
    assert_eq!(ip_filter(&rules, &no_routes(), "/", &xff("garbage"), Some(Ip::V4(0x0B00_0001))), FilterOutcome::Forbidden);
    assert_eq!(ip_filter(&rules, &no_routes(), "/", &none, None), FilterOutcome::NoClientIp);
}

#[test]
fn filter_without_rules_passes() {
    let none = Headers { entries: vec![] };
    assert_eq!(ip_filter(&None, &no_routes(), "/", &none, None), FilterOutcome::Pass);
}

#[test]
fn forwarded_and_split_helpers() {
    assert_eq!(split_first("a,b,c", ','), "a");
    assert_eq!(split_first("abc", ','), "abc");
    assert_eq!(forwarded_client_ip(&xff("1.2.3.4,5.6.7.8")), Some(Ip::V4(0x0102_0304)));
    assert_eq!(forwarded_client_ip(&Headers { entries: vec![] }), None);
}

#[test]
fn route_rules_override_global_rules() {
    let global = Some(IpRules::from_config(&cfg(IpRulesMode::Denylist, &["10.0.0.0/8"])));
    let own = Some(IpRules::from_config(&cfg(IpRulesMode::Allowlist, &["10.0.0.0/8"])));
    let routes = vec![route("/admin/*", own), route("*", None)];
    assert_eq!(ip_filter(&global, &routes, "/admin/users", &xff("10.1.1.1"), None), FilterOutcome::Pass);
    assert_eq!(ip_filter(&global, &routes, "/public", &xff("10.1.1.1"), None), FilterOutcome::Forbidden);
}

#[test]
fn forwarded_entry_is_trimmed_of_unicode_white_space() {
    assert_eq!(forwarded_client_ip(&xff("\u{3000}\t1.2.3.4\u{a0} ,x")), Some(Ip::V4(0x0102_0304)));
    assert_eq!(forwarded_client_ip(&xff(" \u{2003}::1\n")), Some(Ip::V6(1)));
    assert_eq!(forwarded_client_ip(&xff("   ")), None);
}
