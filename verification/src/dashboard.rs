use vstd::prelude::*;
use crate::text::str_eq;

verus! {

/// The circuit breaker state of one backend.
///
/// `tripped_at` is the moment the circuit opened, in nanoseconds of the gateway's
/// monotonic clock.
#[derive(Clone, Copy, Debug)]
pub enum CircuitState {
    Closed,
    Open { tripped_at: u64 },
    HalfOpen,
}

/// Two circuit states are equal when they are the same variant; the trip time of
/// `Open` does not take part.
pub open spec fn same_circuit_variant(a: CircuitState, b: CircuitState) -> bool {
    match (a, b) {
        (CircuitState::Closed, CircuitState::Closed) => true,
        (CircuitState::Open { .. }, CircuitState::Open { .. }) => true,
        (CircuitState::HalfOpen, CircuitState::HalfOpen) => true,
        _ => false,
    }
}

impl PartialEq for CircuitState {
    fn eq(&self, other: &Self) -> (r: bool) {
        match (self, other) {
            (CircuitState::Closed, CircuitState::Closed) => true,
            (CircuitState::Open { .. }, CircuitState::Open { .. }) => true,
            (CircuitState::HalfOpen, CircuitState::HalfOpen) => true,
            _ => false,
        }
    }
}

impl vstd::std_specs::cmp::PartialEqSpecImpl for CircuitState {
    open spec fn obeys_eq_spec() -> bool {
        true
    }

    open spec fn eq_spec(&self, other: &CircuitState) -> bool {
        same_circuit_variant(*self, *other)
    }
}

/// The name under which a circuit state is stored and gossiped.
pub open spec fn circuit_name(c: CircuitState) -> Seq<char> {
    match c {
        CircuitState::Closed => "closed"@,
        CircuitState::Open { .. } => "open"@,
        CircuitState::HalfOpen => "half_open"@,
    }
}

impl CircuitState {
    /// The name under which this state is stored in the database and published to peers.
    pub fn to_db_string(&self) -> (r: &'static str)
        ensures
            r@ == circuit_name(*self),
    {
        match self {
            CircuitState::Closed => "closed",
            CircuitState::Open { .. } => "open",
            CircuitState::HalfOpen => "half_open",
        }
    }
}

/// Runtime view of one backend. Times are nanoseconds of the gateway's monotonic clock.
pub struct BackendInfo {
    pub url: String,
    pub weight: u32,
    pub request_count: u64,
    pub last_hit: Option<u64>,
    pub health_path: String,
    pub is_healthy: bool,
    pub last_checked: Option<u64>,
    pub failed_count: u64,
    pub circuit_state: CircuitState,
    pub manually_disabled: bool,
    pub active_connections: i64,
    pub route_label: String,
    pub error_count: u64,
    pub latency_history: std::collections::VecDeque<u128>,
}

/// The value of a `BackendInfo`, with its strings and latency history as sequences.
pub struct BackendView {
    pub url: Seq<char>,
    pub weight: u32,
    pub request_count: u64,
    pub last_hit: Option<u64>,
    pub health_path: Seq<char>,
    pub is_healthy: bool,
    pub last_checked: Option<u64>,
    pub failed_count: u64,
    pub circuit_state: CircuitState,
    pub manually_disabled: bool,
    pub active_connections: i64,
    pub route_label: Seq<char>,
    pub error_count: u64,
    pub latency_history: Seq<u128>,
}

impl View for BackendInfo {
    type V = BackendView;

    open spec fn view(&self) -> BackendView {
        BackendView {
            url: self.url@,
            weight: self.weight,
            request_count: self.request_count,
            last_hit: self.last_hit,
            health_path: self.health_path@,
            is_healthy: self.is_healthy,
            last_checked: self.last_checked,
            failed_count: self.failed_count,
            circuit_state: self.circuit_state,
            manually_disabled: self.manually_disabled,
            active_connections: self.active_connections,
            route_label: self.route_label@,
            error_count: self.error_count,
            latency_history: self.latency_history@,
        }
    }
}

/// The views of a sequence of backends.
pub open spec fn backend_views(bs: Seq<BackendInfo>) -> Seq<BackendView> {
    bs.map_values(|b: BackendInfo| b@)
}

/// One entry of the recent-request log.
pub struct RequestLog {
    pub method: String,
    pub path: String,
    pub backends: String,
    pub status: u16,
    pub duration_ms: u128,
    pub request_id: String,
}

/// Everything the dashboard, the admin API and the balancer share at run time.
pub struct DashboardState {
    pub backends: Vec<BackendInfo>,
    pub recent_request: std::collections::VecDeque<RequestLog>,
    pub total_request: u64,
    pub status_msg: String,
    pub health_check_interval_secs: u64,
    pub selected_backend: usize,
    pub pinned_backend: Option<usize>,
    pub current_tab: usize,
    pub search_mode: bool,
    pub search_query: String,
    pub blocked_requests: u64,
}

impl DashboardState {
    /// Counts one request the IP filter refused (the count wraps as an atomic's does);
    /// nothing else changes.
    pub fn record_blocked(&mut self)
        ensures
            *final(self) == (DashboardState { blocked_requests: old(self).blocked_requests.wrapping_add(1), ..*old(self) }),
    {
        self.blocked_requests = self.blocked_requests.wrapping_add(1);
    }
}

/// What the admin API reports of one backend.
pub struct BackendDto {
    pub url: String,
    pub healthy: bool,
    pub manually_disabled: bool,
    pub request_count: u64,
    pub active_connections: i64,
    pub route_label: String,
}

/// The index of the first backend whose url is `url`.
pub open spec fn find_backend(backends: Seq<BackendInfo>, url: Seq<char>) -> Option<int>
    decreases backends.len(),
{
    if backends.len() == 0 {
        None
    } else {
        match find_backend(backends.drop_last(), url) {
            Some(i) => Some(i),
            None => if backends.last().url@ == url {
                Some(backends.len() - 1)
            } else {
                None
            },
        }
    }
}

pub proof fn lemma_find_backend(backends: Seq<BackendInfo>, url: Seq<char>)
    ensures
        match find_backend(backends, url) {
            Some(i) => 0 <= i < backends.len() && backends[i].url@ == url
                && forall|j: int| 0 <= j < i ==> backends[j].url@ != url,
            None => forall|j: int| 0 <= j < backends.len() ==> backends[j].url@ != url,
        },
    decreases backends.len(),
{
    if backends.len() > 0 {
        let prefix = backends.drop_last();
        lemma_find_backend(prefix, url);
        assert(forall|j: int| 0 <= j < prefix.len() ==> prefix[j] == backends[j]);
    }
}

/// The first index whose url is `url` is determined by the urls alone.
pub proof fn lemma_find_backend_char(backends: Seq<BackendInfo>, url: Seq<char>, i: int)
    requires
        0 <= i < backends.len(),
        backends[i].url@ == url,
        forall|j: int| 0 <= j < i ==> backends[j].url@ != url,
    ensures
        find_backend(backends, url) == Some(i),
{
    lemma_find_backend(backends, url);
    match find_backend(backends, url) {
        Some(k) => {
            if k < i {
            } else if k > i {
            }
        },
        None => {},
    }
}

/// Position of the first backend with the given url.
pub fn find_backend_index(backends: &Vec<BackendInfo>, url: &str) -> (r: Option<usize>)
    ensures
        match r {
            Some(i) => find_backend(backends@, url@) == Some(i as int),
            None => find_backend(backends@, url@) is None,
        },
{
    let mut i: usize = 0;
    while i < backends.len()
        invariant
            i <= backends@.len(),
            forall|j: int| 0 <= j < i ==> backends@[j].url@ != url@,
        decreases backends@.len() - i,
    {
        if str_eq(backends[i].url.as_str(), url) {
            proof {
                lemma_find_backend_char(backends@, url@, i as int);
            }
            return Some(i);
        }
        i = i + 1;
    }
    proof {
        lemma_find_backend(backends@, url@);
        match find_backend(backends@, url@) {
            Some(k) => {
                assert(backends@[k].url@ == url@);
            },
            None => {},
        }
    }
    None
}

} // verus!
