use vstd::prelude::*;
use crate::dashboard::{backend_views, find_backend, find_backend_index, BackendDto, BackendInfo, BackendView, DashboardState};
use crate::balancer::GateWayState;
use crate::config::BackendConfig;
use crate::gateway::{expand_backends, expanded, fresh_backend, fresh_view};
use crate::router::{header_text, views, Headers};
use crate::text::{has_prefix, str_eq, strip_prefix};

verus! {

/// The admin API's own state: the bearer token it expects.
pub struct AdminState {
    pub token: String,
}

/// Does the request carry `Authorization: Bearer <token>` with exactly this token?
pub open spec fn token_ok(headers: Seq<crate::router::HeaderEntry>, token: Seq<char>) -> bool {
    match header_text(headers, "authorization"@) {
        Some(v) => has_prefix(v, "Bearer "@) && v.skip(7) == token,
        None => false,
    }
}

/// Returns false if the Authorization: Bearer <token> header doesn't match.
pub fn check_token(headers: &Headers, token: &str) -> (r: bool)
    ensures
        r == token_ok(headers.entries@, token@),
{
    match headers.text("authorization") {
        Some(v) => {
            proof {
                reveal_strlit("Bearer ");
            }
            match strip_prefix(v.as_str(), "Bearer ") {
                Some(t) => str_eq(t.as_str(), token),
                None => false,
            }
        },
        None => false,
    }
}

/// What the admin API reports of a backend.
pub open spec fn dto_matches(d: BackendDto, b: BackendInfo) -> bool {
    &&& d.url@ == b.url@
    &&& d.healthy == b.is_healthy
    &&& d.manually_disabled == b.manually_disabled
    &&& d.request_count == b.request_count
    &&& d.active_connections == b.active_connections
    &&& d.route_label@ == b.route_label@
}

/// Shared response shape for all backends.
pub fn to_dto(dash: &DashboardState) -> (r: Vec<BackendDto>)
    ensures
        r@.len() == dash.backends@.len(),
        forall|i: int| 0 <= i < r@.len() ==> dto_matches(#[trigger] r@[i], dash.backends@[i]),
{
    let mut out: Vec<BackendDto> = Vec::new();
    let mut i: usize = 0;
    while i < dash.backends.len()
        invariant
            i <= dash.backends@.len(),
            out@.len() == i,
            forall|k: int| 0 <= k < i ==> dto_matches(#[trigger] out@[k], dash.backends@[k]),
        decreases dash.backends@.len() - i,
    {
        let b = &dash.backends[i];
        out.push(BackendDto {
            url: b.url.clone(),
            healthy: b.is_healthy,
            manually_disabled: b.manually_disabled,
            request_count: b.request_count,
            active_connections: b.active_connections,
            route_label: b.route_label.clone(),
        });
        i = i + 1;
    }
    out
}

/// Total request count and per-backend hit counts.
pub struct StatsResponse {
    pub total_requests: u64,
    pub backends: Vec<BackendDto>,
}

/// The outcome of an admin call that changes a backend.
#[derive(Clone, Copy, Debug, PartialEq, Eq, Structural)]
pub enum AdminStatus {
    /// 401: the token is missing or wrong.
    Unauthorized,
    /// 200: the change was made.
    Done,
    /// 404: no backend has that url.
    NotFound,
    /// 409: a backend with that url is already there.
    Conflict,
}

/// The dashboard with the first backend of `url` set to `disabled` (unchanged when
/// there is none).
pub open spec fn with_disabled(bs: Seq<BackendInfo>, url: Seq<char>, disabled: bool) -> Seq<BackendView> {
    match find_backend(bs, url) {
        Some(i) => backend_views(bs).update(i, BackendView { manually_disabled: disabled, ..bs[i]@ }),
        None => backend_views(bs),
    }
}

/// Every dashboard field but the backends is unchanged.
pub open spec fn dashboard_frame(a: DashboardState, b: DashboardState) -> bool {
    &&& b.recent_request == a.recent_request
    &&& b.total_request == a.total_request
    &&& b.status_msg == a.status_msg
    &&& b.health_check_interval_secs == a.health_check_interval_secs
    &&& b.selected_backend == a.selected_backend
    &&& b.pinned_backend == a.pinned_backend
    &&& b.current_tab == a.current_tab
    &&& b.search_mode == a.search_mode
    &&& b.search_query == a.search_query
    &&& b.blocked_requests == a.blocked_requests
}

fn set_disabled(dash: &mut DashboardState, url: &str, disabled: bool) -> (r: bool)
    ensures
        r == find_backend(old(dash).backends@, url@) is Some,
        backend_views(final(dash).backends@) == with_disabled(old(dash).backends@, url@, disabled),
        !r ==> *final(dash) == *old(dash),
        dashboard_frame(*old(dash), *final(dash)),
{
    proof {
        crate::dashboard::lemma_find_backend(dash.backends@, url@);
    }
    match find_backend_index(&dash.backends, url) {
        Some(i) => {
            let mut b = dash.backends.remove(i);
            b.manually_disabled = disabled;
            dash.backends.insert(i, b);
            proof {
                assert(backend_views(dash.backends@) =~= with_disabled(old(dash).backends@, url@, disabled));
            }
            true
        },
        None => false,
    }
}

impl AdminState {
    /// GET /admin/backends — list all backends + health + hit counts (`None`: 401).
    pub fn list_backends(&self, headers: &Headers, dash: &DashboardState) -> (r: Option<Vec<BackendDto>>)
        ensures
            !token_ok(headers.entries@, self.token@) ==> r is None,
            token_ok(headers.entries@, self.token@) ==> (r matches Some(v) && v@.len() == dash.backends@.len()
                && forall|i: int| 0 <= i < v@.len() ==> dto_matches(#[trigger] v@[i], dash.backends@[i])),
    {
        if !check_token(headers, self.token.as_str()) {
            return None;
        }
        Some(to_dto(dash))
    }

    /// POST /admin/backends/:url/disable
    pub fn disable_backend(&self, headers: &Headers, url: &str, dash: &mut DashboardState) -> (r: AdminStatus)
        ensures
            !token_ok(headers.entries@, self.token@) ==> r == AdminStatus::Unauthorized && *final(dash) == *old(dash),
            token_ok(headers.entries@, self.token@) ==> {
                &&& r == if find_backend(old(dash).backends@, url@) is Some { AdminStatus::Done } else { AdminStatus::NotFound }
                &&& backend_views(final(dash).backends@) == with_disabled(old(dash).backends@, url@, true)
                &&& dashboard_frame(*old(dash), *final(dash))
                &&& (r == AdminStatus::NotFound ==> *final(dash) == *old(dash))
            },
    {
        if !check_token(headers, self.token.as_str()) {
            return AdminStatus::Unauthorized;
        }
        if set_disabled(dash, url, true) {
            AdminStatus::Done
        } else {
            AdminStatus::NotFound
        }
    }

    /// POST /admin/backends/:url/enable
    pub fn enable_backend(&self, headers: &Headers, url: &str, dash: &mut DashboardState) -> (r: AdminStatus)
        ensures
            !token_ok(headers.entries@, self.token@) ==> r == AdminStatus::Unauthorized && *final(dash) == *old(dash),
            token_ok(headers.entries@, self.token@) ==> {
                &&& r == if find_backend(old(dash).backends@, url@) is Some { AdminStatus::Done } else { AdminStatus::NotFound }
                &&& backend_views(final(dash).backends@) == with_disabled(old(dash).backends@, url@, false)
                &&& dashboard_frame(*old(dash), *final(dash))
                &&& (r == AdminStatus::NotFound ==> *final(dash) == *old(dash))
            },
    {
        if !check_token(headers, self.token.as_str()) {
            return AdminStatus::Unauthorized;
        }
        if set_disabled(dash, url, false) {
            AdminStatus::Done
        } else {
            AdminStatus::NotFound
        }
    }

    /// GET /admin/stats — total request count + per-backend hit counts (`None`: 401).
    pub fn get_stats(&self, headers: &Headers, dash: &DashboardState) -> (r: Option<StatsResponse>)
        ensures
            !token_ok(headers.entries@, self.token@) ==> r is None,
            token_ok(headers.entries@, self.token@) ==> (r matches Some(s) && s.total_requests == dash.total_request
                && s.backends@.len() == dash.backends@.len()
                && forall|i: int| 0 <= i < s.backends@.len() ==> dto_matches(#[trigger] s.backends@[i], dash.backends@[i])),
    {
        if !check_token(headers, self.token.as_str()) {
            return None;
        }
        Some(StatsResponse { total_requests: dash.total_request, backends: to_dto(dash) })
    }
}

impl AdminState {
    /// POST /admin/backends — adds a backend at runtime: a fresh dashboard entry labelled
    /// `admin`, and its slots (as the balancing mode expands it) at the end of the first
    /// route's rotation. 401 without the token; 409, changing nothing, when the
    /// dashboard already holds a backend with that url.
    pub fn add_backend(&self, headers: &Headers, backend: BackendConfig, gw: &mut GateWayState) -> (r: AdminStatus)
        ensures
            !token_ok(headers.entries@, self.token@) ==> r == AdminStatus::Unauthorized && *final(gw) == *old(gw),
            token_ok(headers.entries@, self.token@) && find_backend(old(gw).global_dashboard.backends@, backend.url@) is Some
                ==> r == AdminStatus::Conflict && *final(gw) == *old(gw),
            token_ok(headers.entries@, self.token@) && find_backend(old(gw).global_dashboard.backends@, backend.url@) is None ==> {
                &&& r == AdminStatus::Done
                &&& backend_views(final(gw).global_dashboard.backends@) == backend_views(old(gw).global_dashboard.backends@).push(
                    fresh_view(backend, "admin"@),
                )
                &&& dashboard_frame(old(gw).global_dashboard, final(gw).global_dashboard)
                &&& final(gw).routes@.len() == old(gw).routes@.len()
                &&& old(gw).routes@.len() > 0 ==> {
                    &&& views(final(gw).routes@[0].backends@) == views(old(gw).routes@[0].backends@) + expanded(
                        seq![backend],
                        old(gw).balancing,
                    )
                    &&& final(gw).routes@[0].config == old(gw).routes@[0].config
                    &&& final(gw).routes@[0].counter == old(gw).routes@[0].counter
                    &&& final(gw).routes@[0].ip_rules == old(gw).routes@[0].ip_rules
                }
                &&& forall|i: int| 1 <= i < final(gw).routes@.len() ==> final(gw).routes@[i] == old(gw).routes@[i]
                &&& final(gw).balancing == old(gw).balancing
                &&& final(gw).rate_limiter == old(gw).rate_limiter
                &&& final(gw).max_body_bytes == old(gw).max_body_bytes
            },
    {
        if !check_token(headers, self.token.as_str()) {
            return AdminStatus::Unauthorized;
        }
        if find_backend_index(&gw.global_dashboard.backends, backend.url.as_str()).is_some() {
            return AdminStatus::Conflict;
        }
        let label = String::from_str("admin");
        proof {
            reveal_strlit("admin");
        }
        let info = fresh_backend(&backend, label);
        let ghost old_views = backend_views(gw.global_dashboard.backends@);
        gw.global_dashboard.backends.push(info);
        proof {
            assert(backend_views(gw.global_dashboard.backends@) =~= old_views.push(fresh_view(backend, "admin"@)));
        }
        if gw.routes.len() > 0 {
            let one = vec![backend];
            let slots = expand_backends(one.as_slice(), gw.balancing);
            let mut route = gw.routes.remove(0);
            let ghost before = route;
            let mut k: usize = 0;
            while k < slots.len()
                invariant
                    k <= slots@.len(),
                    views(route.backends@) == views(before.backends@) + views(slots@).take(k as int),
                    route.config == before.config,
                    route.counter == before.counter,
                    route.ip_rules == before.ip_rules,
                decreases slots@.len() - k,
            {
                let ghost prev = route.backends@;
                route.backends.push(slots[k].clone());
                proof {
                    crate::router::lemma_views_push(prev, slots@[k as int]);
                    assert(views(slots@).take(k + 1) =~= views(slots@).take(k as int).push(slots@[k as int]@));
                    assert(views(before.backends@) + views(slots@).take(k + 1) =~= (views(before.backends@)
                        + views(slots@).take(k as int)).push(slots@[k as int]@));
                }
                k = k + 1;
            }
            gw.routes.insert(0, route);
            proof {
                assert(views(slots@).take(slots@.len() as int) =~= views(slots@));
                assert(one@ =~= seq![backend]);
            }
        }
        AdminStatus::Done
    }
}

/// Disabling a backend and enabling it again restores its entry: every backend view is
/// as before.
pub proof fn law_disable_then_enable_restores(bs: Seq<BackendInfo>, url: Seq<char>, disabled_after: Seq<BackendInfo>)
    requires
        backend_views(disabled_after) == with_disabled(bs, url, true),
        find_backend(bs, url) matches Some(i) ==> !bs[i].manually_disabled,
    ensures
        with_disabled(disabled_after, url, false) == backend_views(bs),
{
    crate::dashboard::lemma_find_backend(bs, url);
    crate::dashboard::lemma_find_backend(disabled_after, url);
    assert(disabled_after.len() == bs.len()) by {
        assert(backend_views(disabled_after).len() == backend_views(bs).len());
    }
    assert forall|j: int| 0 <= j < bs.len() implies #[trigger] disabled_after[j].url@ == bs[j].url@ by {
        assert(backend_views(disabled_after)[j].url == with_disabled(bs, url, true)[j].url);
    }
    match find_backend(bs, url) {
        Some(i) => {
            crate::dashboard::lemma_find_backend_char(disabled_after, url, i);
            assert(with_disabled(bs, url, true) == backend_views(bs).update(i, BackendView { manually_disabled: true, ..bs[i]@ }));
            assert(backend_views(disabled_after)[i] == disabled_after[i]@);
            assert(disabled_after[i]@ == BackendView { manually_disabled: true, ..bs[i]@ });
            assert forall|j: int| 0 <= j < bs.len() && j != i implies disabled_after[j]@ == bs[j]@ by {
                assert(backend_views(disabled_after)[j] == disabled_after[j]@);
                assert(backend_views(bs)[j] == bs[j]@);
            }
            assert(with_disabled(disabled_after, url, false) =~= backend_views(bs));
        },
        None => {
            match find_backend(disabled_after, url) {
                Some(k) => {
                    assert(bs[k].url@ == url);
                },
                None => {},
            }
            assert(with_disabled(disabled_after, url, false) =~= backend_views(bs));
        },
    }
}

/// A backend disabled by hand is never eligible for balanced traffic.
pub proof fn law_disabled_is_ineligible(bs: Seq<BackendInfo>, url: Seq<char>, after: Seq<BackendInfo>)
    requires
        backend_views(after) == with_disabled(bs, url, true),
        find_backend(bs, url) is Some,
    ensures
        !crate::balancer::url_healthy(after, url),
{
    crate::dashboard::lemma_find_backend(bs, url);
    let i = find_backend(bs, url)->0;
    assert(after.len() == bs.len()) by {
        assert(backend_views(after).len() == backend_views(bs).len());
    }
    assert forall|j: int| 0 <= j < bs.len() implies #[trigger] after[j].url@ == bs[j].url@ by {
        assert(backend_views(after)[j].url == with_disabled(bs, url, true)[j].url);
    }
    crate::dashboard::lemma_find_backend_char(after, url, i);
    assert(backend_views(after)[i].manually_disabled);
}

} // verus!
