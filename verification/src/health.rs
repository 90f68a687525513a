use vstd::prelude::*;
use crate::dashboard::{find_backend, find_backend_index, BackendInfo, CircuitState, DashboardState};
use crate::text::{decimal, push_decimal};

verus! {

/// A probe counts as healthy when the backend answered with a status below 500.
pub open spec fn probe_ok(status: Option<u16>) -> bool {
    match status {
        Some(s) => s < 500,
        None => false,
    }
}

/// Turns the outcome of a health probe (the HTTP status, or `None` when the request
/// failed or timed out) into healthy / unhealthy.
pub fn probe_is_healthy(status: Option<u16>) -> (r: bool)
    ensures
        r == probe_ok(status),
{
    match status {
        Some(s) => s < 500,
        None => false,
    }
}

/// The probe target of each backend: its url followed by its health path, in dashboard order.
pub fn probe_targets(dash: &DashboardState) -> (r: Vec<(String, String)>)
    ensures
        r@.len() == dash.backends@.len(),
        forall|i: int| 0 <= i < r@.len() ==> {
            &&& (#[trigger] r@[i]).0@ == dash.backends@[i].url@
            &&& r@[i].1@ == dash.backends@[i].url@ + dash.backends@[i].health_path@
        },
{
    let mut out: Vec<(String, String)> = Vec::new();
    let mut i: usize = 0;
    while i < dash.backends.len()
        invariant
            i <= dash.backends@.len(),
            out@.len() == i,
            forall|k: int| 0 <= k < i ==> {
                &&& (#[trigger] out@[k]).0@ == dash.backends@[k].url@
                &&& out@[k].1@ == dash.backends@[k].url@ + dash.backends@[k].health_path@
            },
        decreases dash.backends@.len() - i,
    {
        let b = &dash.backends[i];
        let url = b.url.clone();
        let mut target = b.url.clone();
        target.append(b.health_path.as_str());
        out.push((url, target));
        i = i + 1;
    }
    out
}

/// Has the cooldown passed since the circuit opened? Times are nanoseconds; a clock
/// reading before the trip time counts as no time elapsed.
pub open spec fn cooldown_elapsed(now: u64, tripped_at: u64, cooldown_secs: u64) -> bool {
    (if now >= tripped_at { now - tripped_at } else { 0 }) >= cooldown_secs * 1_000_000_000
}

/// The circuit breaker transition for one probe: the circuit state and failure count
/// afterwards. An Open circuit waits out its cooldown whatever the probe says: before it
/// has passed the circuit stays Open, once it has passed the circuit moves to HalfOpen; a
/// failed probe counts one more failure. Otherwise a healthy probe closes the circuit and
/// clears the count, and a failed one counts one more failure and then: Closed trips to
/// Open at the threshold; HalfOpen re-opens with the count at 1.
pub open spec fn circuit_step(
    state: CircuitState,
    failed: u64,
    healthy: bool,
    now: u64,
    cooldown_secs: u64,
    threshold: u64,
) -> (CircuitState, int) {
    match state {
        CircuitState::Open { tripped_at } => {
            let f = if healthy { failed as int } else { failed + 1 };
            if cooldown_elapsed(now, tripped_at, cooldown_secs) {
                (CircuitState::HalfOpen, f)
            } else {
                (CircuitState::Open { tripped_at }, f)
            }
        },
        CircuitState::Closed => if healthy {
            (CircuitState::Closed, 0)
        } else if failed + 1 >= threshold {
            (CircuitState::Open { tripped_at: now }, failed + 1)
        } else {
            (CircuitState::Closed, failed + 1)
        },
        CircuitState::HalfOpen => if healthy {
            (CircuitState::Closed, 0)
        } else {
            (CircuitState::Open { tripped_at: now }, 1)
        },
    }
}

/// A backend after one probe.
pub open spec fn probed(b: BackendInfo, healthy: bool, now: u64, cooldown_secs: u64, threshold: u64) -> BackendInfo {
    let (c, f) = circuit_step(b.circuit_state, b.failed_count, healthy, now, cooldown_secs, threshold);
    BackendInfo {
        url: b.url,
        weight: b.weight,
        request_count: b.request_count,
        last_hit: b.last_hit,
        health_path: b.health_path,
        is_healthy: healthy,
        last_checked: Some(now),
        failed_count: f as u64,
        circuit_state: c,
        manually_disabled: b.manually_disabled,
        active_connections: b.active_connections,
        route_label: b.route_label,
        error_count: b.error_count,
        latency_history: b.latency_history,
    }
}

/// The status line a probe leaves, or `None` when it leaves the status line as it was.
pub open spec fn probe_message(
    url: Seq<char>,
    b: BackendInfo,
    healthy: bool,
    now: u64,
    cooldown_secs: u64,
    threshold: u64,
) -> Option<Seq<char>> {
    if b.circuit_state is Open {
        if cooldown_elapsed(now, b.circuit_state->tripped_at, cooldown_secs) {
            Some("⏳ "@ + url + " cooldown elapsed -entering HalfOpen"@)
        } else {
            None
        }
    } else if healthy {
        if b.circuit_state is Closed {
            None
        } else {
            Some("✓ "@ + url + " recovered -circuit Closed"@)
        }
    } else {
        let f = b.failed_count + 1;
        match b.circuit_state {
            CircuitState::Closed => if f >= threshold {
                Some("⚡ "@ + url + " tripped -circuit Open ("@ + decimal(cooldown_secs as nat) + "s cooldown)"@)
            } else {
                Some("⚠ "@ + url + " unhealthy ("@ + decimal(f as nat) + "/"@ + decimal(threshold as nat) + " failures)"@)
            },
            CircuitState::Open { tripped_at } => if cooldown_elapsed(now, tripped_at, cooldown_secs) {
                Some("⏳ "@ + url + " cooldown elapsed -entering HalfOpen"@)
            } else {
                None
            },
            CircuitState::HalfOpen => Some("⚡ "@ + url + " probe failed -circuit re-Opened"@),
        }
    }
}

/// Applies the outcome of one health probe of `url` to the dashboard: the first backend
/// with that url records the check time, its health, and the circuit breaker transition,
/// and the status line reports what changed. A url the dashboard does not hold changes
/// nothing.
pub fn apply_probe_result(
    dash: &mut DashboardState,
    url: &str,
    is_healthy: bool,
    now: u64,
    cooldown_secs: u64,
    failure_threshold: u64,
)
    requires
        match find_backend(old(dash).backends@, url@) {
            Some(i) => !is_healthy ==> old(dash).backends@[i].failed_count < u64::MAX,
            None => true,
        },
    ensures
        match find_backend(old(dash).backends@, url@) {
            None => *final(dash) == *old(dash),
            Some(i) => {
                &&& final(dash).backends@ == old(dash).backends@.update(
                    i,
                    probed(old(dash).backends@[i], is_healthy, now, cooldown_secs, failure_threshold),
                )
                &&& final(dash).status_msg@ == match probe_message(
                    url@,
                    old(dash).backends@[i],
                    is_healthy,
                    now,
                    cooldown_secs,
                    failure_threshold,
                ) {
                    Some(m) => m,
                    None => old(dash).status_msg@,
                }
                &&& final(dash).recent_request == old(dash).recent_request
                &&& final(dash).total_request == old(dash).total_request
                &&& final(dash).health_check_interval_secs == old(dash).health_check_interval_secs
                &&& final(dash).selected_backend == old(dash).selected_backend
                &&& final(dash).pinned_backend == old(dash).pinned_backend
                &&& final(dash).current_tab == old(dash).current_tab
                &&& final(dash).search_mode == old(dash).search_mode
                &&& final(dash).search_query == old(dash).search_query
                &&& final(dash).blocked_requests == old(dash).blocked_requests
            },
        },
{
    proof {
        crate::dashboard::lemma_find_backend(dash.backends@, url@);
    }
    let idx = match find_backend_index(&dash.backends, url) {
        Some(i) => i,
        None => return,
    };
    let ghost old_b = dash.backends@[idx as int];
    let mut info = dash.backends.remove(idx);
    info.last_checked = Some(now);
    let mut msg: Option<String> = None;
    if let CircuitState::Open { tripped_at } = info.circuit_state {
        info.is_healthy = is_healthy;
        if !is_healthy {
            info.failed_count = info.failed_count + 1;
        }
        let elapsed: u64 = if now >= tripped_at { now - tripped_at } else { 0 };
        if (elapsed as u128) >= (cooldown_secs as u128) * 1_000_000_000u128 {
            info.circuit_state = CircuitState::HalfOpen;
            let mut m = String::from_str("⏳ ");
            m.append(url);
            m.append(" cooldown elapsed -entering HalfOpen");
            msg = Some(m);
        }
    } else if is_healthy {
        let was_half_open = matches!(info.circuit_state, CircuitState::HalfOpen);
        info.failed_count = 0;
        info.is_healthy = true;
        info.circuit_state = CircuitState::Closed;
        if was_half_open {
            let mut m = String::from_str("✓ ");
            m.append(url);
            m.append(" recovered -circuit Closed");
            msg = Some(m);
        }
    } else {
        info.is_healthy = false;
        info.failed_count = info.failed_count + 1;
        if let CircuitState::HalfOpen = info.circuit_state {
            info.failed_count = 1;
            info.circuit_state = CircuitState::Open { tripped_at: now };
            let mut m = String::from_str("⚡ ");
            m.append(url);
            m.append(" probe failed -circuit re-Opened");
            msg = Some(m);
        } else if info.failed_count >= failure_threshold {
            info.circuit_state = CircuitState::Open { tripped_at: now };
            let mut m = String::from_str("⚡ ");
            m.append(url);
            m.append(" tripped -circuit Open (");
            push_decimal(&mut m, cooldown_secs);
            m.append("s cooldown)");
            msg = Some(m);
        } else {
            let mut m = String::from_str("⚠ ");
            m.append(url);
            m.append(" unhealthy (");
            push_decimal(&mut m, info.failed_count);
            m.append("/");
            push_decimal(&mut m, failure_threshold);
            m.append(" failures)");
            msg = Some(m);
        }
    }
    dash.backends.insert(idx, info);
    if let Some(m) = msg {
        dash.status_msg = m;
    }
    proof {
        assert(dash.backends@ =~= old(dash).backends@.update(
            idx as int,
            probed(old_b, is_healthy, now, cooldown_secs, failure_threshold),
        ));
    }
}

/// The failure count and circuit after `k` failed probes in a row, starting Closed
/// with no failures (probe times do not matter while the circuit is Closed).
pub open spec fn after_failures(k: nat, threshold: u64) -> (CircuitState, int)
    decreases k,
{
    if k == 0 {
        (CircuitState::Closed, 0)
    } else {
        let (c, f) = after_failures((k - 1) as nat, threshold);
        match c {
            CircuitState::Closed => circuit_step(c, f as u64, false, 0, 0, threshold),
            _ => (c, f),
        }
    }
}

/// A Closed circuit stays Closed through the first `threshold - 1` consecutive
/// failures, counting each, and trips to Open on the `threshold`-th.
pub proof fn law_trips_after_threshold(threshold: u64, k: nat)
    requires
        1 <= k <= threshold,
    ensures
        k < threshold ==> after_failures(k, threshold) == (CircuitState::Closed, k as int),
        k == threshold ==> after_failures(k, threshold).0 is Open,
        after_failures(k, threshold).1 == k,
    decreases k,
{
    if k > 1 {
        law_trips_after_threshold(threshold, (k - 1) as nat);
        assert(after_failures((k - 1) as nat, threshold) == (CircuitState::Closed, (k - 1) as int));
    } else {
        assert(after_failures(0, threshold) == (CircuitState::Closed, 0int));
    }
    let prev = after_failures((k - 1) as nat, threshold);
    assert(prev.0 is Closed);
    assert(((prev.1 as u64) + 1) == k);
}

/// A successful probe closes a Closed or HalfOpen circuit and clears the failure count.
pub proof fn law_success_closes(state: CircuitState, failed: u64, now: u64, cooldown_secs: u64, threshold: u64)
    requires
        !(state is Open),
    ensures
        circuit_step(state, failed, true, now, cooldown_secs, threshold) == (CircuitState::Closed, 0int),
{
}

/// A failed probe in HalfOpen re-opens the circuit at the probe time.
pub proof fn law_half_open_failure_reopens(failed: u64, now: u64, cooldown_secs: u64, threshold: u64)
    ensures
        circuit_step(CircuitState::HalfOpen, failed, false, now, cooldown_secs, threshold)
            == (CircuitState::Open { tripped_at: now }, 1int),
{
}

/// An Open circuit waits out its cooldown whatever the probe says: before the cooldown
/// has passed it stays Open with its trip time, and once it has passed it moves to
/// HalfOpen. So an Open circuit is never closed directly.
pub proof fn law_open_waits_for_cooldown(tripped_at: u64, failed: u64, healthy: bool, now: u64, cooldown_secs: u64, threshold: u64)
    ensures
        ({
            let step = circuit_step((CircuitState::Open { tripped_at }), failed, healthy, now, cooldown_secs, threshold);
            if cooldown_elapsed(now, tripped_at, cooldown_secs) {
                step.0 is HalfOpen
            } else {
                step.0 == (CircuitState::Open { tripped_at })
            }
        }),
{
}

} // verus!
