use vstd::prelude::*;
use std::collections::VecDeque;
use crate::balancer::{GateWayState, RouteState};
use crate::config::{BackendConfig, BalancingMode, Config, RateLimitConfig, RouteConfig};
use crate::dashboard::{backend_views, find_backend, find_backend_index, BackendInfo, BackendView, CircuitState, DashboardState};
use crate::middleware::ip_rules::IpRules;
use crate::rate_limiter::RateLimiter;
use crate::text::{push_decimal, decimal, str_eq};

verus! {

/// The rotation of a backend list: each url once, or — for weighted round robin — each
/// url repeated as many times as its weight, in list order.
pub open spec fn expanded(backends: Seq<BackendConfig>, mode: BalancingMode) -> Seq<Seq<char>>
    decreases backends.len(),
{
    if backends.len() == 0 {
        Seq::empty()
    } else {
        let b = backends.last();
        let slots = match mode {
            BalancingMode::WeightedRoundRobin => Seq::new(b.weight as nat, |_i: int| b.url@),
            _ => seq![b.url@],
        };
        expanded(backends.drop_last(), mode) + slots
    }
}

/// Expands a backend list into a rotation Vec, repeating each URL `weight` times.
/// With mode=RoundRobin all weights are ignored and each URL appears exactly once.
/// With mode=WeightedRoundRobin a backend with weight=3 gets 3 slots in the rotation.
pub fn expand_backends(backends: &[BackendConfig], mode: BalancingMode) -> (r: Vec<String>)
    ensures
        crate::router::views(r@) == expanded(backends@, mode),
{
    let mut out: Vec<String> = Vec::new();
    let mut i: usize = 0;
    while i < backends.len()
        invariant
            i <= backends@.len(),
            crate::router::views(out@) == expanded(backends@.take(i as int), mode),
        decreases backends@.len() - i,
    {
        proof {
            assert(backends@.take(i + 1).drop_last() =~= backends@.take(i as int));
            assert(backends@.take(i + 1).last() == backends@[i as int]);
        }
        let b = &backends[i];
        let ghost before = crate::router::views(out@);
        match mode {
            BalancingMode::WeightedRoundRobin => {
                let n = b.weight as usize;
                let mut k: usize = 0;
                while k < n
                    invariant
                        k <= n,
                        n == b.weight as usize,
                        crate::router::views(out@) == before + Seq::new(k as nat, |_j: int| b.url@),
                    decreases n - k,
                {
                    let ghost prev = out@;
                    let u = b.url.clone();
                    out.push(u);
                    proof {
                        crate::router::lemma_views_push(prev, u);
                        assert(crate::router::views(out@) =~= before + Seq::new((k + 1) as nat, |_j: int| b.url@));
                    }
                    k = k + 1;
                }
                proof {
                    assert(Seq::new(n as nat, |_j: int| b.url@) =~= Seq::new(b.weight as nat, |_j: int| b.url@));
                }
            },
            _ => {
                let ghost prev = out@;
                let u = b.url.clone();
                out.push(u);
                proof {
                    crate::router::lemma_views_push(prev, u);
                    assert(crate::router::views(out@) =~= before + seq![b.url@]);
                }
            },
        }
        i = i + 1;
    }
    proof {
        assert(backends@.take(backends@.len() as int) =~= backends@);
    }
    out
}

/// The total weight of a backend list.
pub open spec fn weight_sum(backends: Seq<BackendConfig>) -> nat
    decreases backends.len(),
{
    if backends.len() == 0 {
        0
    } else {
        weight_sum(backends.drop_last()) + backends.last().weight as nat
    }
}

/// Occurrences of `u` in `s`.
pub open spec fn occurrences(s: Seq<Seq<char>>, u: Seq<char>) -> nat
    decreases s.len(),
{
    if s.len() == 0 {
        0
    } else {
        occurrences(s.drop_last(), u) + if s.last() == u { 1nat } else { 0nat }
    }
}

/// The total weight of the entries of a backend list whose url is `u`.
pub open spec fn weight_of(backends: Seq<BackendConfig>, u: Seq<char>) -> nat
    decreases backends.len(),
{
    if backends.len() == 0 {
        0
    } else {
        weight_of(backends.drop_last(), u) + if backends.last().url@ == u { backends.last().weight as nat } else { 0nat }
    }
}

proof fn lemma_occurrences_concat(a: Seq<Seq<char>>, b: Seq<Seq<char>>, u: Seq<char>)
    ensures
        occurrences(a + b, u) == occurrences(a, u) + occurrences(b, u),
    decreases b.len(),
{
    if b.len() == 0 {
        assert(a + b =~= a);
    } else {
        assert((a + b).drop_last() =~= a + b.drop_last());
        lemma_occurrences_concat(a, b.drop_last(), u);
    }
}

proof fn lemma_occurrences_repeat(n: nat, x: Seq<char>, u: Seq<char>)
    ensures
        occurrences(Seq::new(n, |_i: int| x), u) == if x == u { n } else { 0 },
    decreases n,
{
    if n > 0 {
        assert(Seq::new(n, |_i: int| x).drop_last() =~= Seq::new((n - 1) as nat, |_i: int| x));
        lemma_occurrences_repeat((n - 1) as nat, x, u);
    }
}

/// Weighted round robin gives each url as many slots in the rotation as the weights of
/// its entries add up to; plain round robin, least connections and IP hash give each
/// entry exactly one slot, in list order.
pub proof fn law_rotation_slots(backends: Seq<BackendConfig>, u: Seq<char>)
    ensures
        occurrences(expanded(backends, BalancingMode::WeightedRoundRobin), u) == weight_of(backends, u),
        expanded(backends, BalancingMode::RoundRobin) == backends.map_values(|b: BackendConfig| b.url@),
    decreases backends.len(),
{
    if backends.len() > 0 {
        let b = backends.last();
        law_rotation_slots(backends.drop_last(), u);
        lemma_occurrences_concat(
            expanded(backends.drop_last(), BalancingMode::WeightedRoundRobin),
            Seq::new(b.weight as nat, |_i: int| b.url@),
            u,
        );
        lemma_occurrences_repeat(b.weight as nat, b.url@, u);
        assert(backends.map_values(|b: BackendConfig| b.url@) =~= backends.drop_last().map_values(
            |b: BackendConfig| b.url@,
        ).push(b.url@));
    } else {
        assert(backends.map_values(|b: BackendConfig| b.url@) =~= Seq::<Seq<char>>::empty());
    }
}

/// The health path of a backend: the configured one, or `/`.
pub open spec fn health_path_of(bc: BackendConfig) -> Seq<char> {
    match bc.health_path {
        Some(p) => p@,
        None => "/"@,
    }
}

fn health_path(bc: &BackendConfig) -> (r: String)
    ensures
        r@ == health_path_of(*bc),
{
    match &bc.health_path {
        Some(p) => p.clone(),
        None => String::from_str("/"),
    }
}

/// A backend that has seen no traffic and no probe yet.
pub open spec fn fresh_view(bc: BackendConfig, label: Seq<char>) -> BackendView {
    BackendView {
        url: bc.url@,
        weight: bc.weight,
        request_count: 0,
        last_hit: None,
        health_path: health_path_of(bc),
        is_healthy: true,
        last_checked: None,
        failed_count: 0,
        circuit_state: CircuitState::Closed,
        manually_disabled: false,
        active_connections: 0,
        route_label: label,
        error_count: 0,
        latency_history: Seq::empty(),
    }
}

pub(crate) fn fresh_backend(bc: &BackendConfig, label: String) -> (r: BackendInfo)
    ensures
        r@ == fresh_view(*bc, label@),
{
    BackendInfo {
        url: bc.url.clone(),
        weight: bc.weight,
        request_count: 0,
        last_hit: None,
        health_path: health_path(bc),
        is_healthy: true,
        last_checked: None,
        failed_count: 0,
        circuit_state: CircuitState::Closed,
        manually_disabled: false,
        active_connections: 0,
        route_label: label,
        error_count: 0,
        latency_history: VecDeque::new(),
    }
}

/// Does any backend of the route have url `u`?
pub open spec fn route_has_url(route: RouteConfig, u: Seq<char>) -> bool {
    exists|j: int| 0 <= j < route.backends@.len() && (#[trigger] route.backends@[j]).url@ == u
}

/// Index of the first route that lists url `u` among its backends.
pub open spec fn first_route_with(routes: Seq<RouteConfig>, u: Seq<char>) -> Option<int>
    decreases routes.len(),
{
    if routes.len() == 0 {
        None
    } else {
        match first_route_with(routes.drop_last(), u) {
            Some(i) => Some(i),
            None => if route_has_url(routes.last(), u) {
                Some(routes.len() - 1)
            } else {
                None
            },
        }
    }
}

proof fn lemma_first_route_with(routes: Seq<RouteConfig>, u: Seq<char>)
    ensures
        match first_route_with(routes, u) {
            Some(i) => 0 <= i < routes.len() && route_has_url(routes[i], u)
                && forall|j: int| 0 <= j < i ==> !route_has_url(#[trigger] routes[j], u),
            None => forall|j: int| 0 <= j < routes.len() ==> !route_has_url(#[trigger] routes[j], u),
        },
    decreases routes.len(),
{
    if routes.len() > 0 {
        let prefix = routes.drop_last();
        lemma_first_route_with(prefix, u);
        assert(forall|j: int| 0 <= j < prefix.len() ==> prefix[j] == routes[j]);
    }
}

/// The dashboard label of a backend: the label of the first route that lists it (or,
/// lacking a label, that route's pattern, or `*`), and `default` when no route lists it.
pub open spec fn route_label_of(routes: Seq<RouteConfig>, u: Seq<char>) -> Seq<char> {
    match first_route_with(routes, u) {
        Some(i) => match routes[i].label {
            Some(l) => l@,
            None => match routes[i].match_pattern {
                Some(p) => p@,
                None => "*"@,
            },
        },
        None => "default"@,
    }
}

fn route_lists(route: &RouteConfig, u: &str) -> (r: bool)
    ensures
        r == route_has_url(*route, u@),
{
    let mut j: usize = 0;
    while j < route.backends.len()
        invariant
            j <= route.backends@.len(),
            forall|k: int| 0 <= k < j ==> route.backends@[k].url@ != u@,
        decreases route.backends@.len() - j,
    {
        if str_eq(route.backends[j].url.as_str(), u) {
            return true;
        }
        j = j + 1;
    }
    false
}

/// The dashboard label for a backend url.
pub fn route_label_for(routes: &Vec<RouteConfig>, u: &str) -> (r: String)
    ensures
        r@ == route_label_of(routes@, u@),
{
    let mut i: usize = 0;
    while i < routes.len()
        invariant
            i <= routes@.len(),
            forall|k: int| 0 <= k < i ==> !route_has_url(#[trigger] routes@[k], u@),
        decreases routes@.len() - i,
    {
        if route_lists(&routes[i], u) {
            proof {
                lemma_first_route_with(routes@, u@);
                match first_route_with(routes@, u@) {
                    Some(f) => {
                        if f < i {
                        } else if f > i {
                        }
                        assert(f == i);
                    },
                    None => {},
                }
            }
            let r = &routes[i];
            return match &r.label {
                Some(l) => l.clone(),
                None => match &r.match_pattern {
                    Some(p) => p.clone(),
                    None => String::from_str("*"),
                },
            };
        }
        i = i + 1;
    }
    proof {
        lemma_first_route_with(routes@, u@);
        match first_route_with(routes@, u@) {
            Some(f) => {
                assert(!route_has_url(routes@[f], u@));
            },
            None => {},
        }
    }
    String::from_str("default")
}

/// The dashboard a configuration starts with: one fresh backend per configured
/// backend, labelled by its route; no traffic, nothing selected or pinned; the health
/// interval as configured or 5 seconds.
pub fn initial_dashboard(config: &Config) -> (r: DashboardState)
    ensures
        backend_views(r.backends@) == config.backends@.map_values(
            |bc: BackendConfig| fresh_view(bc, route_label_of(config.routes@, bc.url@)),
        ),
        r.recent_request@.len() == 0,
        r.total_request == 0,
        r.status_msg@.len() == 0,
        r.health_check_interval_secs == match config.health_check_interval_secs {
            Some(s) => s,
            None => 5,
        },
        r.selected_backend == 0,
        r.pinned_backend is None,
        r.current_tab == 0,
        !r.search_mode,
        r.search_query@.len() == 0,
        r.blocked_requests == 0,
{
    let mut backends: Vec<BackendInfo> = Vec::new();
    let mut i: usize = 0;
    while i < config.backends.len()
        invariant
            i <= config.backends@.len(),
            backend_views(backends@) == config.backends@.take(i as int).map_values(
                |bc: BackendConfig| fresh_view(bc, route_label_of(config.routes@, bc.url@)),
            ),
        decreases config.backends@.len() - i,
    {
        let bc = &config.backends[i];
        let label = route_label_for(&config.routes, bc.url.as_str());
        let fb = fresh_backend(bc, label);
        let ghost prev = backends@;
        backends.push(fb);
        proof {
            assert(backend_views(backends@) =~= backend_views(prev).push(fb@));
            assert(config.backends@.take(i + 1) =~= config.backends@.take(i as int).push(*bc));
            assert(backend_views(backends@) =~= config.backends@.take(i + 1).map_values(
                |bc: BackendConfig| fresh_view(bc, route_label_of(config.routes@, bc.url@)),
            ));
        }
        i = i + 1;
    }
    proof {
        assert(config.backends@.take(config.backends@.len() as int) =~= config.backends@);
    }
    DashboardState {
        backends,
        recent_request: VecDeque::new(),
        total_request: 0,
        status_msg: String::new(),
        health_check_interval_secs: match config.health_check_interval_secs {
            Some(s) => s,
            None => 5,
        },
        selected_backend: 0,
        pinned_backend: None,
        current_tab: 0,
        search_mode: false,
        search_query: String::new(),
        blocked_requests: 0,
    }
}

impl RouteState {
    /// The state of a configured route: its rotation expanded for the balancing mode,
    /// the counter at 0, and its IP rules parsed.
    pub fn from_config(config: RouteConfig, balancing: BalancingMode) -> (r: RouteState)
        ensures
            r.config == config,
            crate::router::views(r.backends@) == expanded(config.backends@, balancing),
            r.counter == 0,
            match config.ip_rules {
                Some(c) => r.ip_rules matches Some(rules) && rules.mode == c.mode
                    && rules.networks@ == crate::middleware::ip_rules::parsed_networks(
                        crate::middleware::ip_rules::string_views(c.cidrs@),
                    ) && rules.wf(),
                None => r.ip_rules is None,
            },
    {
        let backends = expand_backends(config.backends.as_slice(), balancing);
        let ip_rules = match &config.ip_rules {
            Some(c) => Some(IpRules::from_config(c)),
            None => None,
        };
        RouteState { config, backends, counter: 0, ip_rules }
    }
}

/// The per-IP rate limiter of a configuration: present when `rate_limit` is configured
/// with `per: ip`.
pub fn build_rate_limiter(cfg: &Option<RateLimitConfig>) -> (r: Option<RateLimiter>)
    ensures
        match *cfg {
            Some(rl) => if rl.per@ == "ip"@ {
                r matches Some(l) && l.limit == rl.requests && l.window_secs == rl.window_secs
                    && l.contents().dom().is_empty()
            } else {
                r is None
            },
            None => r is None,
        },
{
    match cfg {
        Some(rl) => if str_eq(rl.per.as_str(), "ip") {
            let l = RateLimiter::new(rl.requests, rl.window_secs);
            proof {
                assert(l.contents().dom() =~= Set::<(u8, u128)>::empty());
            }
            Some(l)
        } else {
            None
        },
        None => None,
    }
}

/// The body size limit in bytes for a limit in megabytes.
pub fn max_body_bytes(mb: Option<u64>) -> (r: Option<usize>)
    requires
        mb matches Some(m) ==> m * 1024 * 1024 <= u64::MAX,
    ensures
        r == match mb {
            Some(m) => Some(((m * 1024 * 1024) as u64) as usize),
            None => None::<usize>,
        },
{
    match mb {
        Some(m) => Some((m * 1024 * 1024) as usize),
        None => None,
    }
}

/// Builds the gateway from a configuration: the initial dashboard, one route state per
/// configured route (or, when there are none, a catch-all route over the top-level
/// backends), the balancing mode, the rate limiter and the body size limit.
pub fn build_gateway(config: Config) -> (r: GateWayState)
    requires
        config.max_body_size_mb matches Some(m) ==> m * 1024 * 1024 <= u64::MAX,
    ensures
        backend_views(r.global_dashboard.backends@) == config.backends@.map_values(
            |bc: BackendConfig| fresh_view(bc, route_label_of(config.routes@, bc.url@)),
        ),
        r.balancing == config.balancing,
        r.routes@.len() == if config.routes@.len() == 0 { 1 } else { config.routes@.len() },
        config.routes@.len() == 0 ==> {
            &&& r.routes@[0].config.match_pattern matches Some(p) && p@ == "*"@
            &&& r.routes@[0].config.backends@ == config.backends@
            &&& r.routes@[0].config.match_header is None
            &&& r.routes@[0].config.split is None
            &&& r.routes@[0].config.label is None
            &&& r.routes@[0].config.ip_rules is None
            &&& r.routes@[0].ip_rules is None
            &&& r.routes@[0].counter == 0
            &&& crate::router::views(r.routes@[0].backends@) == expanded(config.backends@, config.balancing)
        },
        forall|i: int| 0 <= i < config.routes@.len() ==> {
            &&& (#[trigger] r.routes@[i]).config == config.routes@[i]
            &&& r.routes@[i].counter == 0
            &&& crate::router::views(r.routes@[i].backends@) == expanded(config.routes@[i].backends@, config.balancing)
            &&& (config.routes@[i].ip_rules is Some <==> r.routes@[i].ip_rules is Some)
        },
        r.max_body_bytes == match config.max_body_size_mb {
            Some(m) => Some(((m * 1024 * 1024) as u64) as usize),
            None => None::<usize>,
        },
        match config.rate_limit {
            Some(rl) => if rl.per@ == "ip"@ {
                r.rate_limiter matches Some(l) && l.limit == rl.requests && l.window_secs == rl.window_secs
            } else {
                r.rate_limiter is None
            },
            None => r.rate_limiter is None,
        },
{
    let dashboard = initial_dashboard(&config);
    let rate_limiter = build_rate_limiter(&config.rate_limit);
    let max_body = max_body_bytes(config.max_body_size_mb);
    let balancing = config.balancing;
    let ghost cfg_routes = config.routes@;
    let ghost cfg_backends = config.backends@;
    let Config { backends, routes, .. } = config;
    let mut out: Vec<RouteState> = Vec::new();
    if routes.len() == 0 {
        let rotation = expand_backends(backends.as_slice(), balancing);
        out.push(RouteState {
            config: RouteConfig {
                match_pattern: Some(String::from_str("*")),
                backends,
                match_header: None,
                split: None,
                label: None,
                ip_rules: None,
            },
            backends: rotation,
            counter: 0,
            ip_rules: None,
        });
    } else {
        let mut routes = routes;
        let mut taken: usize = 0;
        let ghost total = cfg_routes.len();
        proof {
            assert(routes@.len() == routes.len());
        }
        while routes.len() > 0
            invariant
                total == cfg_routes.len(),
                total <= usize::MAX,
                taken + routes@.len() == total,
                routes@ == cfg_routes.skip(taken as int),
                out@.len() == taken,
                forall|i: int| 0 <= i < taken ==> {
                    &&& (#[trigger] out@[i]).config == cfg_routes[i]
                    &&& out@[i].counter == 0
                    &&& crate::router::views(out@[i].backends@) == expanded(cfg_routes[i].backends@, balancing)
                    &&& (cfg_routes[i].ip_rules is Some <==> out@[i].ip_rules is Some)
                },
            decreases routes@.len(),
        {
            let ghost before = routes@;
            let rc = routes.remove(0);
            proof {
                assert(before[0] == cfg_routes.skip(taken as int)[0]);
                assert(cfg_routes.skip(taken as int)[0] == cfg_routes[taken as int]);
                assert(rc == before[0]);
                assert forall|k: int| 0 <= k < routes@.len() implies routes@[k] == cfg_routes.skip(taken + 1)[k] by {
                    assert(routes@[k] == before[k + 1]);
                }
                assert(rc == cfg_routes[taken as int]);
                assert(routes@ =~= cfg_routes.skip(taken + 1));
            }
            out.push(RouteState::from_config(rc, balancing));
            taken = taken + 1;
        }
    }
    GateWayState {
        routes: out,
        global_dashboard: dashboard,
        balancing,
        rate_limiter,
        max_body_bytes: max_body,
    }
}

/// One backend of a reloaded configuration applied to the dashboard: the first entry
/// with its url takes the new weight and health path, or a fresh entry labelled
/// `reloaded` is appended.
pub open spec fn sync_one(bs: Seq<BackendView>, bc: BackendConfig) -> Seq<BackendView> {
    match find_view(bs, bc.url@) {
        Some(i) => bs.update(i, BackendView { weight: bc.weight, health_path: health_path_of(bc), ..bs[i] }),
        None => bs.push(fresh_view(bc, "reloaded"@)),
    }
}

/// Index of the first backend view with url `u`.
pub open spec fn find_view(bs: Seq<BackendView>, u: Seq<char>) -> Option<int>
    decreases bs.len(),
{
    if bs.len() == 0 {
        None
    } else {
        match find_view(bs.drop_last(), u) {
            Some(i) => Some(i),
            None => if bs.last().url == u {
                Some(bs.len() - 1)
            } else {
                None
            },
        }
    }
}

proof fn lemma_find_view_matches(bs: Seq<BackendInfo>, u: Seq<char>)
    ensures
        find_view(backend_views(bs), u) == find_backend(bs, u),
    decreases bs.len(),
{
    if bs.len() > 0 {
        assert(backend_views(bs).drop_last() =~= backend_views(bs.drop_last()));
        lemma_find_view_matches(bs.drop_last(), u);
    }
}

/// All backends of a reloaded configuration applied in order.
pub open spec fn sync_all(bs: Seq<BackendView>, new_backends: Seq<BackendConfig>) -> Seq<BackendView>
    decreases new_backends.len(),
{
    if new_backends.len() == 0 {
        bs
    } else {
        sync_one(sync_all(bs, new_backends.drop_last()), new_backends.last())
    }
}

/// Is `u` among the urls of the backend list?
pub open spec fn listed(new_backends: Seq<BackendConfig>, u: Seq<char>) -> bool {
    exists|j: int| 0 <= j < new_backends.len() && (#[trigger] new_backends[j]).url@ == u
}

/// The entries whose url the new configuration lists, in order.
pub open spec fn keep_listed(bs: Seq<BackendView>, new_backends: Seq<BackendConfig>) -> Seq<BackendView>
    decreases bs.len(),
{
    if bs.len() == 0 {
        bs
    } else {
        let prev = keep_listed(bs.drop_last(), new_backends);
        if listed(new_backends, bs.last().url) {
            prev.push(bs.last())
        } else {
            prev
        }
    }
}

fn is_listed(new_backends: &Vec<BackendConfig>, u: &str) -> (r: bool)
    ensures
        r == listed(new_backends@, u@),
{
    let mut j: usize = 0;
    while j < new_backends.len()
        invariant
            j <= new_backends@.len(),
            forall|k: int| 0 <= k < j ==> new_backends@[k].url@ != u@,
        decreases new_backends@.len() - j,
    {
        if str_eq(new_backends[j].url.as_str(), u) {
            return true;
        }
        j = j + 1;
    }
    false
}

/// Applies a reloaded backend list: the first route's rotation becomes the expansion
/// of the new list; the dashboard updates the entries it knows, appends the new ones,
/// drops those the list no longer names, and reports the reload.
pub fn reload_backends(gw: &mut GateWayState, new_backends: &Vec<BackendConfig>)
    requires
        old(gw).routes@.len() > 0,
    ensures
        final(gw).routes@.len() == old(gw).routes@.len(),
        crate::router::views(final(gw).routes@[0].backends@) == expanded(new_backends@, old(gw).balancing),
        final(gw).routes@[0].config == old(gw).routes@[0].config,
        final(gw).routes@[0].counter == old(gw).routes@[0].counter,
        final(gw).routes@[0].ip_rules == old(gw).routes@[0].ip_rules,
        forall|i: int| 1 <= i < final(gw).routes@.len() ==> final(gw).routes@[i] == old(gw).routes@[i],
        backend_views(final(gw).global_dashboard.backends@) == keep_listed(
            sync_all(backend_views(old(gw).global_dashboard.backends@), new_backends@),
            new_backends@,
        ),
        final(gw).global_dashboard.status_msg@ == "Config reloaded: "@ + decimal(new_backends@.len() as nat)
            + " backends active"@,
        final(gw).global_dashboard.recent_request == old(gw).global_dashboard.recent_request,
        final(gw).global_dashboard.total_request == old(gw).global_dashboard.total_request,
        final(gw).global_dashboard.pinned_backend == old(gw).global_dashboard.pinned_backend,
        final(gw).global_dashboard.selected_backend == old(gw).global_dashboard.selected_backend,
        final(gw).balancing == old(gw).balancing,
        final(gw).rate_limiter == old(gw).rate_limiter,
        final(gw).max_body_bytes == old(gw).max_body_bytes,
{
    let rotation = expand_backends(new_backends.as_slice(), gw.balancing);
    let mut first = gw.routes.remove(0);
    first.backends = rotation;
    gw.routes.insert(0, first);
    proof {
        assert forall|i: int| 1 <= i < gw.routes@.len() implies gw.routes@[i] == old(gw).routes@[i] by {}
    }

    let mut backends: Vec<BackendInfo> = Vec::new();
    std::mem::swap(&mut backends, &mut gw.global_dashboard.backends);
    let ghost start = backend_views(backends@);
    let mut i: usize = 0;
    while i < new_backends.len()
        invariant
            i <= new_backends@.len(),
            backend_views(backends@) == sync_all(start, new_backends@.take(i as int)),
        decreases new_backends@.len() - i,
    {
        let bc = &new_backends[i];
        proof {
            assert(new_backends@.take(i + 1).drop_last() =~= new_backends@.take(i as int));
            assert(new_backends@.take(i + 1).last() == *bc);
            lemma_find_view_matches(backends@, bc.url@);
            crate::dashboard::lemma_find_backend(backends@, bc.url@);
        }
        match find_backend_index(&backends, bc.url.as_str()) {
            Some(k) => {
                let mut existing = backends.remove(k);
                existing.weight = bc.weight;
                existing.health_path = health_path(bc);
                backends.insert(k, existing);
                proof {
                    assert(backend_views(backends@) =~= sync_one(sync_all(start, new_backends@.take(i as int)), *bc));
                }
            },
            None => {
                let label = String::from_str("reloaded");
                backends.push(fresh_backend(bc, label));
                proof {
                    assert(backend_views(backends@) =~= sync_one(sync_all(start, new_backends@.take(i as int)), *bc));
                }
            },
        }
        i = i + 1;
    }
    proof {
        assert(new_backends@.take(new_backends@.len() as int) =~= new_backends@);
    }
    let ghost synced = backend_views(backends@);
    let mut kept: Vec<BackendInfo> = Vec::new();
    let mut rest = backends;
    let mut taken: usize = 0;
    let ghost all = rest@;
    proof {
        assert(all.len() == rest.len());
    }
    while rest.len() > 0
        invariant
            taken + rest@.len() == all.len(),
            rest@ == all.skip(taken as int),
            all.len() <= usize::MAX,
            synced == backend_views(all),
            backend_views(kept@) == keep_listed(backend_views(all.take(taken as int)), new_backends@),
        decreases rest@.len(),
    {
        let b = rest.remove(0);
        proof {
            assert(b == all[taken as int]);
            assert(rest@ =~= all.skip(taken + 1));
            assert(backend_views(all.take(taken + 1)).drop_last() =~= backend_views(all.take(taken as int)));
            assert(backend_views(all.take(taken + 1)).last() == b@);
        }
        if is_listed(new_backends, b.url.as_str()) {
            kept.push(b);
            proof {
                assert(backend_views(kept@) =~= keep_listed(backend_views(all.take(taken as int)), new_backends@).push(all[taken as int]@));
            }
        }
        taken = taken + 1;
    }
    proof {
        assert(all.take(all.len() as int) =~= all);
    }
    gw.global_dashboard.backends = kept;
    let mut msg = String::from_str("Config reloaded: ");
    push_decimal(&mut msg, new_backends.len() as u64);
    msg.append(" backends active");
    gw.global_dashboard.status_msg = msg;
}

/// After a reload, the dashboard names exactly the urls of the new backend list.
pub proof fn law_reload_tracks_config(bs: Seq<BackendView>, new_backends: Seq<BackendConfig>)
    ensures
        forall|k: int| 0 <= k < keep_listed(sync_all(bs, new_backends), new_backends).len()
            ==> listed(new_backends, #[trigger] keep_listed(sync_all(bs, new_backends), new_backends)[k].url),
        forall|j: int| 0 <= j < new_backends.len() ==> exists|k: int|
            0 <= k < keep_listed(sync_all(bs, new_backends), new_backends).len()
                && #[trigger] keep_listed(sync_all(bs, new_backends), new_backends)[k].url == (#[trigger] new_backends[j]).url@,
{
    let synced = sync_all(bs, new_backends);
    lemma_keep_listed(synced, new_backends);
    assert forall|j: int| 0 <= j < new_backends.len() implies exists|k: int|
        0 <= k < keep_listed(synced, new_backends).len()
            && #[trigger] keep_listed(synced, new_backends)[k].url == (#[trigger] new_backends[j]).url@ by {
        lemma_sync_all_contains(bs, new_backends, j);
        let m = choose|m: int| 0 <= m < synced.len() && synced[m].url == new_backends[j].url@;
        assert(listed(new_backends, synced[m].url));
        lemma_keep_listed_keeps(synced, new_backends, m);
    }
}

proof fn lemma_keep_listed(bs: Seq<BackendView>, new_backends: Seq<BackendConfig>)
    ensures
        forall|k: int| 0 <= k < keep_listed(bs, new_backends).len()
            ==> listed(new_backends, #[trigger] keep_listed(bs, new_backends)[k].url),
    decreases bs.len(),
{
    if bs.len() > 0 {
        lemma_keep_listed(bs.drop_last(), new_backends);
    }
}

proof fn lemma_keep_listed_keeps(bs: Seq<BackendView>, new_backends: Seq<BackendConfig>, m: int)
    requires
        0 <= m < bs.len(),
        listed(new_backends, bs[m].url),
    ensures
        exists|k: int| 0 <= k < keep_listed(bs, new_backends).len()
            && #[trigger] keep_listed(bs, new_backends)[k].url == bs[m].url,
    decreases bs.len(),
{
    if m == bs.len() - 1 {
        let k = keep_listed(bs.drop_last(), new_backends).len() as int;
        assert(keep_listed(bs, new_backends)[k].url == bs[m].url);
    } else {
        lemma_keep_listed_keeps(bs.drop_last(), new_backends, m);
        let k = choose|k: int| 0 <= k < keep_listed(bs.drop_last(), new_backends).len()
            && #[trigger] keep_listed(bs.drop_last(), new_backends)[k].url == bs.drop_last()[m].url;
        assert(keep_listed(bs, new_backends)[k].url == bs[m].url);
    }
}

proof fn lemma_find_view(bs: Seq<BackendView>, u: Seq<char>)
    ensures
        match find_view(bs, u) {
            Some(i) => 0 <= i < bs.len() && bs[i].url == u,
            None => forall|j: int| 0 <= j < bs.len() ==> bs[j].url != u,
        },
    decreases bs.len(),
{
    if bs.len() > 0 {
        lemma_find_view(bs.drop_last(), u);
        assert(forall|j: int| 0 <= j < bs.len() - 1 ==> bs.drop_last()[j] == bs[j]);
    }
}

proof fn lemma_sync_one_keeps_urls(bs: Seq<BackendView>, bc: BackendConfig, u: Seq<char>)
    requires
        exists|m: int| 0 <= m < bs.len() && bs[m].url == u,
    ensures
        exists|m: int| 0 <= m < sync_one(bs, bc).len() && (#[trigger] sync_one(bs, bc)[m]).url == u,
{
    let m = choose|m: int| 0 <= m < bs.len() && bs[m].url == u;
    lemma_find_view(bs, bc.url@);
    assert(sync_one(bs, bc)[m].url == u);
}

proof fn lemma_sync_all_contains(bs: Seq<BackendView>, new_backends: Seq<BackendConfig>, j: int)
    requires
        0 <= j < new_backends.len(),
    ensures
        exists|m: int| 0 <= m < sync_all(bs, new_backends).len()
            && (#[trigger] sync_all(bs, new_backends)[m]).url == new_backends[j].url@,
    decreases new_backends.len(),
{
    let prev = sync_all(bs, new_backends.drop_last());
    let bc = new_backends.last();
    assert(sync_all(bs, new_backends) == sync_one(prev, bc));
    if j == new_backends.len() - 1 {
        lemma_find_view(prev, bc.url@);
        match find_view(prev, bc.url@) {
            Some(i) => {
                assert(sync_one(prev, bc)[i].url == bc.url@);
            },
            None => {
                assert(sync_one(prev, bc)[prev.len() as int].url == bc.url@);
            },
        }
    } else {
        lemma_sync_all_contains(bs, new_backends.drop_last(), j);
        assert(new_backends.drop_last()[j] == new_backends[j]);
        lemma_sync_one_keeps_urls(prev, bc, new_backends[j].url@);
    }
}

} // verus!
