use vstd::prelude::*;
use crate::config::{BalancingMode, RouteConfig};
use crate::dashboard::{find_backend, find_backend_index, BackendInfo, CircuitState, DashboardState};
use crate::middleware::ip_rules::IpRules;
use crate::rate_limiter::RateLimiter;
use crate::router::views;
use std::hash::{Hash, Hasher};

verus! {

/// Is a backend eligible for traffic? It must not be disabled by hand, and its circuit
/// must let traffic through: Closed and healthy, or HalfOpen.
pub open spec fn backend_eligible(b: BackendInfo) -> bool {
    !b.manually_disabled && match b.circuit_state {
        CircuitState::Closed => b.is_healthy,
        CircuitState::Open { .. } => false,
        CircuitState::HalfOpen => true,
    }
}

/// Is a backend url eligible for traffic? A url the dashboard does not know is; a known
/// one is when its (first) dashboard entry is eligible.
pub open spec fn url_healthy(dash: Seq<BackendInfo>, url: Seq<char>) -> bool {
    match find_backend(dash, url) {
        None => true,
        Some(i) => backend_eligible(dash[i]),
    }
}

/// The eligible urls of a pool, in pool order.
pub open spec fn healthy_list(urls: Seq<Seq<char>>, dash: Seq<BackendInfo>) -> Seq<Seq<char>>
    decreases urls.len(),
{
    if urls.len() == 0 {
        Seq::empty()
    } else {
        let prev = healthy_list(urls.drop_last(), dash);
        if url_healthy(dash, urls.last()) {
            prev.push(urls.last())
        } else {
            prev
        }
    }
}

/// Active connections of a url as the least-connections balancer weighs it
/// (`i64::MAX` for a url the dashboard does not know).
pub open spec fn conn_key(dash: Seq<BackendInfo>, url: Seq<char>) -> i64 {
    match find_backend(dash, url) {
        Some(i) => dash[i].active_connections,
        None => i64::MAX,
    }
}

/// Index of the first url with the fewest active connections.
pub open spec fn least_loaded(list: Seq<Seq<char>>, dash: Seq<BackendInfo>) -> int
    decreases list.len(),
{
    if list.len() <= 1 {
        0
    } else {
        let p = least_loaded(list.drop_last(), dash);
        if conn_key(dash, list.last()) < conn_key(dash, list[p]) {
            list.len() - 1
        } else {
            p
        }
    }
}

/// The pinned backend, when one is pinned, exists and is eligible for traffic.
pub open spec fn pinned_choice(dash: DashboardState) -> Option<Seq<char>> {
    match dash.pinned_backend {
        Some(p) => if p < dash.backends@.len() && backend_eligible(dash.backends@[p as int]) {
            Some(dash.backends@[p as int].url@)
        } else {
            None
        },
        None => None,
    }
}

/// The round-robin counter after one step (it wraps like an atomic `fetch_add`).
pub open spec fn next_counter(counter: usize) -> usize {
    if counter == usize::MAX {
        0
    } else {
        (counter + 1) as usize
    }
}

/// The backend a pool picks and its counter afterwards: nothing when no url is
/// eligible; else the pinned backend when it is usable; else by the balancing mode —
/// round robin (plain or weighted) takes the next eligible url in turn, least
/// connections the first url with the fewest active connections, IP hash the url at the
/// client's hash modulo the number of eligible urls.
pub open spec fn pick(
    urls: Seq<Seq<char>>,
    dash: DashboardState,
    balancing: BalancingMode,
    counter: usize,
    hash: u64,
) -> (Option<Seq<char>>, usize) {
    let h = healthy_list(urls, dash.backends@);
    if h.len() == 0 {
        (None, counter)
    } else if pinned_choice(dash) is Some {
        (pinned_choice(dash), counter)
    } else {
        match balancing {
            BalancingMode::RoundRobin | BalancingMode::WeightedRoundRobin => (
                Some(h[(counter as int) % (h.len() as int)]),
                next_counter(counter),
            ),
            BalancingMode::LeastConnections => (Some(h[least_loaded(h, dash.backends@)]), counter),
            BalancingMode::IpHash => (Some(h[((hash as usize) as int) % (h.len() as int)]), counter),
        }
    }
}

/// A string option by its view.
pub open spec fn opt_view(o: Option<String>) -> Option<Seq<char>> {
    match o {
        Some(s) => Some(s@),
        None => None,
    }
}

/// The FxHash of a client address string, as `rustc_hash::FxHasher` computes it through
/// `Hash for str`. The value depends on the platform's word size, so nothing is stated of it.
#[verifier::external_body]
fn fx_hash_str(s: &str) -> (r: u64) {
    let mut hasher = rustc_hash::FxHasher::default();
    s.hash(&mut hasher);
    hasher.finish()
}

fn url_is_healthy(dash: &Vec<BackendInfo>, url: &str) -> (r: bool)
    ensures
        r == url_healthy(dash@, url@),
{
    proof {
        crate::dashboard::lemma_find_backend(dash@, url@);
    }
    match find_backend_index(dash, url) {
        None => true,
        Some(i) => is_eligible(&dash[i]),
    }
}

fn is_eligible(b: &BackendInfo) -> (r: bool)
    ensures
        r == backend_eligible(*b),
{
    !b.manually_disabled && match b.circuit_state {
        CircuitState::Closed => b.is_healthy,
        CircuitState::Open { .. } => false,
        CircuitState::HalfOpen => true,
    }
}

fn connections_of(dash: &Vec<BackendInfo>, url: &str) -> (r: i64)
    ensures
        r == conn_key(dash@, url@),
{
    proof {
        crate::dashboard::lemma_find_backend(dash@, url@);
    }
    match find_backend_index(dash, url) {
        Some(i) => dash[i].active_connections,
        None => i64::MAX,
    }
}

/// Per-route state: the route's configuration, its backend pool, its round-robin counter
/// and its parsed IP rules.
pub struct RouteState {
    pub config: RouteConfig,
    pub backends: Vec<String>,
    pub counter: usize,
    pub ip_rules: Option<IpRules>,
}

impl RouteState {
    fn healthy_backends(&self, dash: &DashboardState) -> (r: Vec<String>)
        ensures
            views(r@) == healthy_list(views(self.backends@), dash.backends@),
    {
        let mut out: Vec<String> = Vec::new();
        let mut i: usize = 0;
        while i < self.backends.len()
            invariant
                i <= self.backends@.len(),
                views(out@) == healthy_list(views(self.backends@).take(i as int), dash.backends@),
            decreases self.backends@.len() - i,
        {
            proof {
                assert(views(self.backends@).take(i + 1).drop_last() =~= views(self.backends@).take(i as int));
                assert(views(self.backends@).take(i + 1).last() == self.backends@[i as int]@);
            }
            if url_is_healthy(&dash.backends, self.backends[i].as_str()) {
                let u = self.backends[i].clone();
                out.push(u);
                proof {
                    assert(views(out@) =~= healthy_list(views(self.backends@).take(i as int), dash.backends@).push(self.backends@[i as int]@));
                }
            }
            i = i + 1;
        }
        proof {
            assert(views(self.backends@).take(self.backends@.len() as int) =~= views(self.backends@));
        }
        out
    }

    fn least_loaded_index(list: &Vec<String>, dash: &DashboardState) -> (r: usize)
        requires
            list@.len() > 0,
        ensures
            r == least_loaded(views(list@), dash.backends@),
            r < list@.len(),
    {
        let mut best: usize = 0;
        let mut best_key = connections_of(&dash.backends, list[0].as_str());
        let mut i: usize = 1;
        proof {
            assert(views(list@).take(1).len() == 1);
        }
        while i < list.len()
            invariant
                1 <= i <= list@.len(),
                best < i,
                best == least_loaded(views(list@).take(i as int), dash.backends@),
                best_key == conn_key(dash.backends@, list@[best as int]@),
            decreases list@.len() - i,
        {
            proof {
                assert(views(list@).take(i + 1).drop_last() =~= views(list@).take(i as int));
                assert(views(list@).take(i + 1).last() == list@[i as int]@);
                assert(views(list@).take(i as int)[best as int] == list@[best as int]@);
            }
            let k = connections_of(&dash.backends, list[i].as_str());
            if k < best_key {
                best = i;
                best_key = k;
            }
            i = i + 1;
        }
        proof {
            assert(views(list@).take(list@.len() as int) =~= views(list@));
        }
        best
    }

    /// Picks the backend for a request given the client's address hash (used by the
    /// IP-hash mode only) and advances the round-robin counter when round robin chose.
    pub fn pick_backend(&mut self, balancing: BalancingMode, dash: &DashboardState, ip_hash: u64) -> (r: Option<String>)
        ensures
            (opt_view(r), final(self).counter) == pick(views(old(self).backends@), *dash, balancing, old(self).counter, ip_hash),
            final(self).config == old(self).config,
            final(self).backends == old(self).backends,
            final(self).ip_rules == old(self).ip_rules,
    {
        let healthy = self.healthy_backends(dash);
        if healthy.len() == 0 {
            return None;
        }
        if let Some(pin_idx) = dash.pinned_backend {
            if pin_idx < dash.backends.len() {
                let b = &dash.backends[pin_idx];
                if is_eligible(b) {
                    return Some(b.url.clone());
                }
            }
        }
        match balancing {
            BalancingMode::RoundRobin | BalancingMode::WeightedRoundRobin => {
                let index = self.counter % healthy.len();
                self.counter = self.counter.wrapping_add(1);
                proof {
                    assert(views(healthy@)[index as int] == healthy@[index as int]@);
                }
                Some(healthy[index].clone())
            },
            BalancingMode::LeastConnections => {
                let index = Self::least_loaded_index(&healthy, dash);
                proof {
                    assert(views(healthy@)[index as int] == healthy@[index as int]@);
                }
                Some(healthy[index].clone())
            },
            BalancingMode::IpHash => {
                let index = (ip_hash as usize) % healthy.len();
                proof {
                    assert(views(healthy@)[index as int] == healthy@[index as int]@);
                }
                Some(healthy[index].clone())
            },
        }
    }

    /// Pick the next healthy backend from this route's pool. In IP-hash mode the client
    /// address is hashed with FxHash; whatever hash came back, the choice is the one
    /// `pick` makes with it.
    pub fn next_backend(&mut self, client_ip: &str, balancing: BalancingMode, dash: &DashboardState) -> (r: Option<String>)
        ensures
            exists|h: u64|
                (opt_view(r), final(self).counter) == pick(views(old(self).backends@), *dash, balancing, old(self).counter, h),
            balancing != BalancingMode::IpHash ==>
                (opt_view(r), final(self).counter) == pick(views(old(self).backends@), *dash, balancing, old(self).counter, 0),
            final(self).config == old(self).config,
            final(self).backends == old(self).backends,
            final(self).ip_rules == old(self).ip_rules,
    {
        let h = if balancing == BalancingMode::IpHash {
            fx_hash_str(client_ip)
        } else {
            0
        };
        self.pick_backend(balancing, dash, h)
    }
}

proof fn lemma_healthy_list(urls: Seq<Seq<char>>, dash: Seq<BackendInfo>)
    ensures
        forall|k: int| 0 <= k < healthy_list(urls, dash).len() ==> {
            &&& url_healthy(dash, #[trigger] healthy_list(urls, dash)[k])
            &&& urls.contains(healthy_list(urls, dash)[k])
        },
        healthy_list(urls, dash).len() <= urls.len(),
    decreases urls.len(),
{
    if urls.len() > 0 {
        lemma_healthy_list(urls.drop_last(), dash);
        let prev = healthy_list(urls.drop_last(), dash);
        assert forall|k: int| 0 <= k < healthy_list(urls, dash).len() implies {
            &&& url_healthy(dash, #[trigger] healthy_list(urls, dash)[k])
            &&& urls.contains(healthy_list(urls, dash)[k])
        } by {
            if k < prev.len() {
                assert(healthy_list(urls, dash)[k] == prev[k]);
                let m = choose|m: int| 0 <= m < urls.drop_last().len() && urls.drop_last()[m] == prev[k];
                assert(urls[m] == prev[k]);
            } else {
                assert(urls[urls.len() - 1] == urls.last());
            }
        }
    }
}

proof fn lemma_least_loaded(list: Seq<Seq<char>>, dash: Seq<BackendInfo>)
    requires
        list.len() > 0,
    ensures
        0 <= least_loaded(list, dash) < list.len(),
    decreases list.len(),
{
    if list.len() > 1 {
        lemma_least_loaded(list.drop_last(), dash);
    }
}

/// Whatever the mode, the pool picks either the usable pinned backend or an eligible
/// url of the pool: never a url disabled by hand, nor one whose circuit is Open, nor a
/// Closed one found unhealthy.
pub proof fn law_pick_only_eligible(
    urls: Seq<Seq<char>>,
    dash: DashboardState,
    balancing: BalancingMode,
    counter: usize,
    hash: u64,
)
    ensures
        pick(urls, dash, balancing, counter, hash).0 matches Some(u) ==> (pinned_choice(dash) == Some(u) || (
        url_healthy(dash.backends@, u) && urls.contains(u))),
{
    let h = healthy_list(urls, dash.backends@);
    lemma_healthy_list(urls, dash.backends@);
    if h.len() > 0 && pinned_choice(dash) is None {
        match balancing {
            BalancingMode::RoundRobin | BalancingMode::WeightedRoundRobin => {
                let k = (counter as int) % (h.len() as int);
                assert(url_healthy(dash.backends@, h[k]));
            },
            BalancingMode::LeastConnections => {
                lemma_least_loaded(h, dash.backends@);
                let k = least_loaded(h, dash.backends@);
                assert(url_healthy(dash.backends@, h[k]));
            },
            BalancingMode::IpHash => {
                let k = ((hash as usize) as int) % (h.len() as int);
                assert(url_healthy(dash.backends@, h[k]));
            },
        }
    }
}

/// A backend whose circuit is Open never receives balanced traffic.
pub proof fn law_open_circuit_gets_no_traffic(urls: Seq<Seq<char>>, dash: Seq<BackendInfo>, u: Seq<char>)
    requires
        find_backend(dash, u) matches Some(i) && dash[i].circuit_state is Open,
    ensures
        !healthy_list(urls, dash).contains(u),
{
    lemma_healthy_list(urls, dash);
    if healthy_list(urls, dash).contains(u) {
        let k = choose|k: int| 0 <= k < healthy_list(urls, dash).len() && healthy_list(urls, dash)[k] == u;
        assert(url_healthy(dash, healthy_list(urls, dash)[k]));
    }
}

/// Sticky sessions: with IP hashing the choice depends on the client's hash, not on
/// the round-robin counter, so the same client keeps hitting the same backend while the
/// pool and the dashboard stay as they are.
pub proof fn law_ip_hash_sticky(urls: Seq<Seq<char>>, dash: DashboardState, c1: usize, c2: usize, hash: u64)
    ensures
        pick(urls, dash, BalancingMode::IpHash, c1, hash).0 == pick(urls, dash, BalancingMode::IpHash, c2, hash).0,
{
}

/// Round robin visits the whole eligible pool: over as many consecutive requests as there
/// are eligible urls (counter not wrapping, nothing pinned), every eligible url is chosen.
pub proof fn law_round_robin_covers_pool(urls: Seq<Seq<char>>, dash: DashboardState, counter: usize, hash: u64, t: int)
    requires
        0 <= t < healthy_list(urls, dash.backends@).len(),
        pinned_choice(dash) is None,
        counter + healthy_list(urls, dash.backends@).len() <= usize::MAX,
    ensures
        exists|j: int|
            0 <= j < healthy_list(urls, dash.backends@).len() && #[trigger] pick(
                urls,
                dash,
                BalancingMode::RoundRobin,
                (counter + j) as usize,
                hash,
            ).0 == Some(healthy_list(urls, dash.backends@)[t]),
{
    let h = healthy_list(urls, dash.backends@);
    let n = h.len() as int;
    let r = (counter as int) % n;
    let j = if t >= r { t - r } else { t + n - r };
    vstd::arithmetic::div_mod::lemma_fundamental_div_mod(counter as int, n);
    let q = (counter as int) / n;
    assert(0 <= r < n) by {
        vstd::arithmetic::div_mod::lemma_mod_bound(counter as int, n);
    }
    assert((counter as int) + j == n * q + t || (counter as int) + j == n * (q + 1) + t) by (nonlinear_arith)
        requires
            counter as int == n * q + r,
            j == if t >= r { t - r } else { t + n - r },
    ;
    if t >= r {
        assert(((counter as int) + j) % n == t) by {
            vstd::arithmetic::div_mod::lemma_mod_multiples_vanish(q, t, n);
            vstd::arithmetic::div_mod::lemma_small_mod(t as nat, n as nat);
        }
    } else {
        assert(((counter as int) + j) % n == t) by {
            vstd::arithmetic::div_mod::lemma_mod_multiples_vanish(q + 1, t, n);
            vstd::arithmetic::div_mod::lemma_small_mod(t as nat, n as nat);
        }
    }
    assert(pick(urls, dash, BalancingMode::RoundRobin, (counter + j) as usize, hash).0 == Some(h[t]));
}

/// Least connections picks a url with no more active connections than any other
/// eligible url (the first such url when several tie).
pub proof fn law_least_connections_picks_minimum(list: Seq<Seq<char>>, dash: Seq<BackendInfo>)
    requires
        list.len() > 0,
    ensures
        0 <= least_loaded(list, dash) < list.len(),
        forall|k: int| 0 <= k < list.len() ==> conn_key(dash, list[least_loaded(list, dash)]) <= conn_key(dash, #[trigger] list[k]),
        forall|k: int| 0 <= k < least_loaded(list, dash) ==> conn_key(dash, list[least_loaded(list, dash)]) < conn_key(dash, #[trigger] list[k]),
    decreases list.len(),
{
    if list.len() > 1 {
        let prev = list.drop_last();
        law_least_connections_picks_minimum(prev, dash);
        assert(forall|k: int| 0 <= k < prev.len() ==> prev[k] == list[k]);
    }
}

/// Pinning sends all traffic of a pool to the pinned backend while it is eligible
/// (not disabled, and Closed and healthy or HalfOpen), as long as the pool has any
/// eligible url; a pinned backend that is not eligible gets none of it.
pub proof fn law_pinned_backend_takes_traffic(
    urls: Seq<Seq<char>>,
    dash: DashboardState,
    balancing: BalancingMode,
    counter: usize,
    hash: u64,
)
    requires
        dash.pinned_backend matches Some(p) && p < dash.backends@.len(),
        healthy_list(urls, dash.backends@).len() > 0,
    ensures
        backend_eligible(dash.backends@[dash.pinned_backend->0 as int]) ==> pick(urls, dash, balancing, counter, hash) == (
            Some(dash.backends@[dash.pinned_backend->0 as int].url@),
            counter,
        ),
        !backend_eligible(dash.backends@[dash.pinned_backend->0 as int]) ==> pick(urls, dash, balancing, counter, hash).0
            != Some(dash.backends@[dash.pinned_backend->0 as int].url@) || url_healthy(dash.backends@, dash.backends@[dash.pinned_backend->0 as int].url@),
{
    law_pick_only_eligible(urls, dash, balancing, counter, hash);
}

/// Top-level gateway state shared across all routes and request handlers: the routes,
/// the dashboard, the balancing mode, the per-IP rate limiter and the body size limit.
pub struct GateWayState {
    pub routes: Vec<RouteState>,
    pub global_dashboard: DashboardState,
    pub balancing: BalancingMode,
    pub rate_limiter: Option<RateLimiter>,
    pub max_body_bytes: Option<usize>,
}

} // verus!
