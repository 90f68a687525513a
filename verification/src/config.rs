use vstd::prelude::*;

verus! {

/// One line of the access log, written as JSON by the log writer.
pub struct LogRecord {
    pub timestamp: String,
    pub request_id: String,
    pub method: String,
    pub path: String,
    pub backend: String,
    pub status: u16,
    pub duration_ms: u128,
    pub client_ip: String,
}

/// `access_log:` section.
pub struct AccessLogConfig {
    pub path: String,
    pub enabled: bool,
}

/// Whether the listed networks are the only ones let through, or the ones kept out.
#[derive(Clone, Copy, Debug, PartialEq, Eq, Structural)]
pub enum IpRulesMode {
    Allowlist,
    Denylist,
}

/// `ip_rules:` section (global or per route).
#[derive(Clone)]
pub struct IpRulesConfig {
    pub mode: IpRulesMode,
    pub cidrs: Vec<String>,
}

/// One group of a canary / A-B split with its relative weight.
#[derive(Clone)]
pub struct SplitGroupConfig {
    pub backends: Vec<String>,
    pub weight: u32,
}

/// Header condition of a route: the header `name` must carry exactly `value`.
#[derive(Clone)]
pub struct HeaderMatch {
    pub name: String,
    pub value: String,
}

/// One entry of `routes:`.
#[derive(Clone)]
pub struct RouteConfig {
    pub match_pattern: Option<String>,
    pub backends: Vec<BackendConfig>,
    pub match_header: Option<HeaderMatch>,
    pub split: Option<Vec<SplitGroupConfig>>,
    pub label: Option<String>,
    pub ip_rules: Option<IpRulesConfig>,
}

/// `balancing:` — the load balancing algorithm.
#[derive(Clone, Copy, Debug, PartialEq, Eq, Structural)]
pub enum BalancingMode {
    RoundRobin,
    WeightedRoundRobin,
    LeastConnections,
    IpHash,
}

impl Default for BalancingMode {
    fn default() -> (r: Self)
        ensures
            r == BalancingMode::RoundRobin,
    {
        BalancingMode::RoundRobin
    }
}

/// `auth:` section for JWT validation.
#[derive(Clone)]
pub struct AuthConfig {
    pub secret: String,
    pub required_claims: Option<Vec<String>>,
    pub issuer: Option<String>,
}

/// One backend server.
#[derive(Clone)]
pub struct BackendConfig {
    pub url: String,
    pub health_path: Option<String>,
    pub weight: u32,
}

/// `circuit_breaker:` section.
#[derive(Clone)]
pub struct CircuitBreakerConfig {
    pub failure_threshold: u64,
    pub cooldown: u64,
}

/// `rate_limit:` section.
#[derive(Clone)]
pub struct RateLimitConfig {
    pub requests: u64,
    pub window_secs: u64,
    pub per: String,
}

impl Default for CircuitBreakerConfig {
    fn default() -> (r: Self)
        ensures
            r.failure_threshold == 5,
            r.cooldown == 30,
    {
        CircuitBreakerConfig { failure_threshold: 5, cooldown: 30 }
    }
}

/// `tls:` section.
#[derive(Clone)]
pub struct TlsConfig {
    pub cert_path: String,
    pub key_path: String,
}

/// The weight a backend gets when the configuration names none.
pub fn default_weight() -> (r: u32)
    ensures
        r == 1,
{
    1
}

/// The whole `config.yaml`.
pub struct Config {
    pub backends: Vec<BackendConfig>,
    pub health_check_interval_secs: Option<u64>,
    pub circuit_breaker: CircuitBreakerConfig,
    pub auth: Option<AuthConfig>,
    pub balancing: BalancingMode,
    pub routes: Vec<RouteConfig>,
    pub ip_rules: Option<IpRulesConfig>,
    pub rate_limit: Option<RateLimitConfig>,
    pub max_body_size_mb: Option<u64>,
    pub access_log: Option<AccessLogConfig>,
    pub admin: Option<AdminConfig>,
    pub tls: Option<TlsConfig>,
    pub http2: Option<bool>,
}

/// `admin:` section.
#[derive(Clone)]
pub struct AdminConfig {
    pub port: u16,
    pub token: String,
}

} // verus!
