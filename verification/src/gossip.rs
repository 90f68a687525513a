use vstd::prelude::*;
use crate::dashboard::{backend_views, circuit_name, BackendInfo, BackendView, DashboardState};
use crate::text::{chars_of, chars_occur_at, has_prefix, has_suffix, occurs_at, str_eq, string_from_chars, strip_prefix};

verus! {

/// `s` with every occurrence of `from` replaced by `to`, scanning left to right
/// without overlap, as `str::replace` does.
pub open spec fn replace_all(s: Seq<char>, from: Seq<char>, to: Seq<char>) -> Seq<char>
    decreases s.len(),
{
    if s.len() == 0 {
        s
    } else if from.len() > 0 && has_prefix(s, from) {
        to + replace_all(s.skip(from.len() as int), from, to)
    } else {
        seq![s[0]] + replace_all(s.drop_first(), from, to)
    }
}

/// The gossip key of a backend url: `://` becomes `_`, then `:` becomes `-`
/// (`http://127.0.0.1:4000` becomes `http_127.0.0.1-4000`).
pub open spec fn url_key(url: Seq<char>) -> Seq<char> {
    replace_all(replace_all(url, seq![':', '/', '/'], seq!['_']), seq![':'], seq!['-'])
}

fn replace_chars(cs: &Vec<char>, from: &Vec<char>, to: &Vec<char>) -> (r: Vec<char>)
    requires
        from@.len() > 0,
    ensures
        r@ == replace_all(cs@, from@, to@),
{
    let mut out: Vec<char> = Vec::new();
    let mut i: usize = 0;
    proof {
        assert(cs@.skip(0) =~= cs@);
        assert(out@ + replace_all(cs@.skip(0), from@, to@) =~= replace_all(cs@, from@, to@));
    }
    while i < cs.len()
        invariant
            i <= cs@.len(),
            from@.len() > 0,
            out@ + replace_all(cs@.skip(i as int), from@, to@) == replace_all(cs@, from@, to@),
        decreases cs@.len() - i,
    {
        let ghost rest = cs@.skip(i as int);
        if chars_occur_at(cs, from, i) {
            proof {
                assert(rest.take(from@.len() as int) =~= cs@.subrange(i as int, i + from@.len()));
                assert(has_prefix(rest, from@));
                assert(rest.skip(from@.len() as int) =~= cs@.skip(i + from@.len()));
                assert(replace_all(rest, from@, to@) == to@ + replace_all(cs@.skip(i + from@.len()), from@, to@));
            }
            let ghost before = out@;
            let mut k: usize = 0;
            while k < to.len()
                invariant
                    k <= to@.len(),
                    out@ == before + to@.take(k as int),
                decreases to@.len() - k,
            {
                out.push(to[k]);
                proof {
                    assert(to@.take(k + 1) =~= to@.take(k as int).push(to@[k as int]));
                }
                k = k + 1;
            }
            proof {
                assert(to@.take(to@.len() as int) =~= to@);
                assert(before + (to@ + replace_all(cs@.skip(i + from@.len()), from@, to@)) =~= (before + to@)
                    + replace_all(cs@.skip(i + from@.len()), from@, to@));
            }
            i = i + from.len();
        } else {
            proof {
                if has_prefix(rest, from@) {
                    assert(rest.take(from@.len() as int) =~= cs@.subrange(i as int, i + from@.len()));
                }
                assert(rest.drop_first() =~= cs@.skip(i + 1));
                assert(rest[0] == cs@[i as int]);
                assert(replace_all(rest, from@, to@) == seq![cs@[i as int]] + replace_all(cs@.skip(i + 1), from@, to@));
            }
            let ghost before = out@;
            out.push(cs[i]);
            proof {
                assert(before + (seq![cs@[i as int]] + replace_all(cs@.skip(i + 1), from@, to@)) =~= before.push(cs@[i as int])
                    + replace_all(cs@.skip(i + 1), from@, to@));
            }
            i = i + 1;
        }
    }
    proof {
        assert(cs@.skip(cs@.len() as int) =~= Seq::<char>::empty());
        assert(out@ + Seq::<char>::empty() =~= out@);
    }
    out
}

/// Sanitise a backend URL into a key-safe string.
/// "http://127.0.0.1:4000" becomes "http_127.0.0.1-4000"
pub fn url_to_key(url: &str) -> (r: String)
    ensures
        r@ == url_key(url@),
{
    let cs = chars_of(url);
    let sep = vec![':', '/', '/'];
    let underscore = vec!['_'];
    let colon = vec![':'];
    let dash = vec!['-'];
    proof {
        assert(sep@ =~= seq![':', '/', '/']);
        assert(underscore@ =~= seq!['_']);
        assert(colon@ =~= seq![':']);
        assert(dash@ =~= seq!['-']);
    }
    let once = replace_chars(&cs, &sep, &underscore);
    let twice = replace_chars(&once, &colon, &dash);
    string_from_chars(&twice, 0, twice.len())
}

/// The entries a node publishes about a backend: its health and its circuit state,
/// under keys derived from its url.
pub open spec fn published_health(b: BackendInfo) -> (Seq<char>, Seq<char>) {
    ("backend/"@ + url_key(b.url@) + "/is_healthy"@, if b.is_healthy { "true"@ } else { "false"@ })
}

/// The circuit state entry a node publishes about a backend.
pub open spec fn published_circuit(b: BackendInfo) -> (Seq<char>, Seq<char>) {
    ("backend/"@ + url_key(b.url@) + "/circuit_state"@, circuit_name(b.circuit_state))
}

/// The key-value pairs this node publishes to its peers: for each backend, in order,
/// its health entry and then its circuit state entry.
pub fn gossip_entries(dash: &DashboardState) -> (r: Vec<(String, String)>)
    ensures
        r@.len() == 2 * dash.backends@.len(),
        forall|i: int| 0 <= i < dash.backends@.len() ==> {
            &&& (r@[2 * i].0@, r@[2 * i].1@) == published_health(#[trigger] dash.backends@[i])
            &&& (r@[2 * i + 1].0@, r@[2 * i + 1].1@) == published_circuit(dash.backends@[i])
        },
{
    let mut out: Vec<(String, String)> = Vec::new();
    let mut i: usize = 0;
    while i < dash.backends.len()
        invariant
            i <= dash.backends@.len(),
            out@.len() == 2 * i,
            forall|k: int| 0 <= k < i ==> {
                &&& (out@[2 * k].0@, out@[2 * k].1@) == published_health(#[trigger] dash.backends@[k])
                &&& (out@[2 * k + 1].0@, out@[2 * k + 1].1@) == published_circuit(dash.backends@[k])
            },
        decreases dash.backends@.len() - i,
    {
        let b = &dash.backends[i];
        let key = url_to_key(b.url.as_str());
        let mut hk = String::from_str("backend/");
        hk.append(key.as_str());
        hk.append("/is_healthy");
        let hv = if b.is_healthy { String::from_str("true") } else { String::from_str("false") };
        let mut ck = String::from_str("backend/");
        ck.append(key.as_str());
        ck.append("/circuit_state");
        let cv = String::from_str(b.circuit_state.to_db_string());
        out.push((hk, hv));
        out.push((ck, cv));
        i = i + 1;
    }
    out
}

/// The backend key a peer's entry reports unhealthy: a key `backend/<k>/is_healthy`
/// whose value is `false`.
pub open spec fn reported_unhealthy(key: Seq<char>, value: Seq<char>) -> Option<Seq<char>> {
    if value == "false"@ && has_prefix(key, "backend/"@) && has_suffix(key.skip(8), "/is_healthy"@) {
        let rest = key.skip(8);
        Some(rest.take(rest.len() - 11))
    } else {
        None
    }
}

/// Reads one entry of a peer's state: the backend key it reports unhealthy, if any.
pub fn peer_report(key: &str, value: &str) -> (r: Option<String>)
    ensures
        opt_str(r) == reported_unhealthy(key@, value@),
{
    proof {
        reveal_strlit("backend/");
        reveal_strlit("/is_healthy");
    }
    if !str_eq(value, "false") {
        return None;
    }
    let rest = match strip_prefix(key, "backend/") {
        Some(r) => r,
        None => return None,
    };
    let rc = chars_of(rest.as_str());
    let suffix = chars_of("/is_healthy");
    if rc.len() < suffix.len() {
        return None;
    }
    let at = rc.len() - suffix.len();
    if !chars_occur_at(&rc, &suffix, at) {
        proof {
            assert(rest@.skip(at as int) =~= rc@.subrange(at as int, rc@.len() as int));
        }
        return None;
    }
    proof {
        assert(rest@.skip(at as int) =~= rc@.subrange(at as int, rc@.len() as int));
        assert(rc@.subrange(0, at as int) =~= rest@.take(at as int));
    }
    Some(string_from_chars(&rc, 0, at))
}

/// A string option by its view.
pub open spec fn opt_str(o: Option<String>) -> Option<Seq<char>> {
    match o {
        Some(s) => Some(s@),
        None => None,
    }
}

/// The keys that a list of peer entries reports unhealthy, in order.
pub open spec fn reports_of(entries: Seq<(String, String)>) -> Seq<Seq<char>>
    decreases entries.len(),
{
    if entries.len() == 0 {
        Seq::empty()
    } else {
        let prev = reports_of(entries.drop_last());
        match reported_unhealthy(entries.last().0@, entries.last().1@) {
            Some(k) => prev.push(k),
            None => prev,
        }
    }
}

/// Collects the unhealthy reports in the entries of the other nodes.
pub fn collect_peer_reports(entries: &Vec<(String, String)>) -> (r: Vec<String>)
    ensures
        crate::router::views(r@) == reports_of(entries@),
{
    let mut out: Vec<String> = Vec::new();
    let mut i: usize = 0;
    while i < entries.len()
        invariant
            i <= entries@.len(),
            crate::router::views(out@) == reports_of(entries@.take(i as int)),
        decreases entries@.len() - i,
    {
        proof {
            assert(entries@.take(i + 1).drop_last() =~= entries@.take(i as int));
            assert(entries@.take(i + 1).last() == entries@[i as int]);
        }
        match peer_report(entries[i].0.as_str(), entries[i].1.as_str()) {
            Some(k) => {
                let ghost prev = out@;
                out.push(k);
                proof {
                    crate::router::lemma_views_push(prev, k);
                }
            },
            None => {},
        }
        i = i + 1;
    }
    proof {
        assert(entries@.take(entries@.len() as int) =~= entries@);
    }
    out
}

/// Index of the first backend whose gossip key is `key`.
pub open spec fn find_by_key(bs: Seq<BackendView>, key: Seq<char>) -> Option<int>
    decreases bs.len(),
{
    if bs.len() == 0 {
        None
    } else {
        match find_by_key(bs.drop_last(), key) {
            Some(i) => Some(i),
            None => if url_key(bs.last().url) == key {
                Some(bs.len() - 1)
            } else {
                None
            },
        }
    }
}

proof fn lemma_find_by_key(bs: Seq<BackendView>, key: Seq<char>)
    ensures
        match find_by_key(bs, key) {
            Some(i) => 0 <= i < bs.len() && url_key(bs[i].url) == key
                && forall|j: int| 0 <= j < i ==> url_key(bs[j].url) != key,
            None => forall|j: int| 0 <= j < bs.len() ==> url_key(bs[j].url) != key,
        },
    decreases bs.len(),
{
    if bs.len() > 0 {
        let prefix = bs.drop_last();
        lemma_find_by_key(prefix, key);
        assert(forall|j: int| 0 <= j < prefix.len() ==> prefix[j] == bs[j]);
    }
}

/// One peer report applied: the first backend with that key is marked unhealthy, and
/// the status line says so, when it was healthy; otherwise nothing changes.
pub open spec fn peer_step(state: (Seq<BackendView>, Seq<char>), key: Seq<char>) -> (Seq<BackendView>, Seq<char>) {
    let (bs, msg) = state;
    match find_by_key(bs, key) {
        Some(i) => if bs[i].is_healthy {
            (bs.update(i, BackendView { is_healthy: false, ..bs[i] }), "Peer reports "@ + bs[i].url + " unhealthy"@)
        } else {
            (bs, msg)
        },
        None => (bs, msg),
    }
}

/// All peer reports applied in order.
pub open spec fn peer_fold(state: (Seq<BackendView>, Seq<char>), reports: Seq<Seq<char>>) -> (Seq<BackendView>, Seq<char>)
    decreases reports.len(),
{
    if reports.len() == 0 {
        state
    } else {
        peer_step(peer_fold(state, reports.drop_last()), reports.last())
    }
}

fn find_key_index(backends: &Vec<BackendInfo>, key: &str) -> (r: Option<usize>)
    ensures
        match r {
            Some(i) => find_by_key(backend_views(backends@), key@) == Some(i as int),
            None => find_by_key(backend_views(backends@), key@) is None,
        },
{
    let ghost bv = backend_views(backends@);
    proof {
        lemma_find_by_key(bv, key@);
    }
    let mut j: usize = 0;
    while j < backends.len()
        invariant
            j <= backends@.len(),
            bv == backend_views(backends@),
            forall|k: int| 0 <= k < j ==> url_key(backends@[k].url@) != key@,
        decreases backends@.len() - j,
    {
        let k = url_to_key(backends[j].url.as_str());
        if str_eq(k.as_str(), key) {
            proof {
                lemma_find_by_key(bv, key@);
                match find_by_key(bv, key@) {
                    Some(f) => {
                        assert(bv[j as int].url == backends@[j as int].url@);
                        if f < j {
                            assert(bv[f].url == backends@[f].url@);
                        }
                    },
                    None => {
                        assert(bv[j as int].url == backends@[j as int].url@);
                    },
                }
            }
            return Some(j);
        }
        j = j + 1;
    }
    proof {
        lemma_find_by_key(bv, key@);
        match find_by_key(bv, key@) {
            Some(f) => {
                assert(bv[f].url == backends@[f].url@);
            },
            None => {},
        }
    }
    None
}

/// Applies the peers' reports to the dashboard (pessimistic merge): a backend that a
/// peer reports unhealthy is marked unhealthy here.
pub fn apply_peer_reports(dash: &mut DashboardState, reports: &Vec<String>)
    ensures
        (backend_views(final(dash).backends@), final(dash).status_msg@) == peer_fold(
            (backend_views(old(dash).backends@), old(dash).status_msg@),
            crate::router::views(reports@),
        ),
        final(dash).recent_request == old(dash).recent_request,
        final(dash).total_request == old(dash).total_request,
        final(dash).pinned_backend == old(dash).pinned_backend,
        final(dash).selected_backend == old(dash).selected_backend,
{
    let mut i: usize = 0;
    while i < reports.len()
        invariant
            i <= reports@.len(),
            (backend_views(dash.backends@), dash.status_msg@) == peer_fold(
                (backend_views(old(dash).backends@), old(dash).status_msg@),
                crate::router::views(reports@).take(i as int),
            ),
            dash.recent_request == old(dash).recent_request,
            dash.total_request == old(dash).total_request,
            dash.pinned_backend == old(dash).pinned_backend,
            dash.selected_backend == old(dash).selected_backend,
        decreases reports@.len() - i,
    {
        proof {
            assert(crate::router::views(reports@).take(i + 1).drop_last() =~= crate::router::views(reports@).take(i as int));
            assert(crate::router::views(reports@).take(i + 1).last() == reports@[i as int]@);
        }
        let key = &reports[i];
        let found = find_key_index(&dash.backends, key.as_str());
        let ghost bv = backend_views(dash.backends@);
        proof {
            lemma_find_by_key(bv, key@);
        }
        if let Some(idx) = found {
            if dash.backends[idx].is_healthy {
                let mut b = dash.backends.remove(idx);
                b.is_healthy = false;
                let mut m = String::from_str("Peer reports ");
                m.append(b.url.as_str());
                m.append(" unhealthy");
                dash.backends.insert(idx, b);
                dash.status_msg = m;
                proof {
                    assert(backend_views(dash.backends@) =~= bv.update(idx as int, BackendView { is_healthy: false, ..bv[idx as int] }));
                }
            }
        }
        i = i + 1;
    }
    proof {
        assert(crate::router::views(reports@).take(reports@.len() as int) =~= crate::router::views(reports@));
    }
}

/// Peer reports only ever mark backends unhealthy: no backend becomes healthy, and
/// nothing but health changes.
pub proof fn law_peer_merge_is_pessimistic(bs: Seq<BackendView>, msg: Seq<char>, reports: Seq<Seq<char>>)
    ensures
        peer_fold((bs, msg), reports).0.len() == bs.len(),
        forall|i: int| 0 <= i < bs.len() ==> {
            let after = #[trigger] peer_fold((bs, msg), reports).0[i];
            &&& after.is_healthy ==> bs[i].is_healthy
            &&& after == BackendView { is_healthy: after.is_healthy, ..bs[i] }
        },
    decreases reports.len(),
{
    if reports.len() > 0 {
        law_peer_merge_is_pessimistic(bs, msg, reports.drop_last());
        let prev = peer_fold((bs, msg), reports.drop_last());
        lemma_find_by_key(prev.0, reports.last());
    }
}

/// What a node publishes reads back at its peers: the health entry of an unhealthy
/// backend is reported as that backend's key, the health entry of a healthy one and
/// every circuit state entry are not reported.
pub proof fn law_published_health_reads_back(b: BackendInfo)
    ensures
        reported_unhealthy(published_health(b).0, published_health(b).1)
            == if b.is_healthy { None } else { Some(url_key(b.url@)) },
        reported_unhealthy(published_circuit(b).0, published_circuit(b).1) is None,
{
    reveal_strlit("backend/");
    reveal_strlit("/is_healthy");
    reveal_strlit("false");
    reveal_strlit("true");
    reveal_strlit("closed");
    reveal_strlit("open");
    reveal_strlit("half_open");
    let k = url_key(b.url@);
    let key = "backend/"@ + k + "/is_healthy"@;
    assert(key.take(8) =~= "backend/"@);
    assert(key.skip(8) =~= k + "/is_healthy"@);
    let rest = key.skip(8);
    assert(rest.skip(rest.len() - 11) =~= "/is_healthy"@);
    assert(rest.take(rest.len() - 11) =~= k);
    if b.is_healthy {
        assert("true"@ != "false"@) by {
            assert("true"@[0] != "false"@[0]);
        }
    }
    let cv = circuit_name(b.circuit_state);
    assert(cv != "false"@) by {
        assert(cv.len() != 5 || cv[0] != 'f');
    }
}

proof fn lemma_find_by_key_same_urls(a: Seq<BackendView>, b: Seq<BackendView>, key: Seq<char>)
    requires
        a.len() == b.len(),
        forall|i: int| 0 <= i < a.len() ==> (#[trigger] a[i]).url == b[i].url,
    ensures
        find_by_key(a, key) == find_by_key(b, key),
    decreases a.len(),
{
    if a.len() > 0 {
        assert(forall|i: int| 0 <= i < a.len() - 1 ==> a.drop_last()[i] == a[i] && b.drop_last()[i] == b[i]);
        lemma_find_by_key_same_urls(a.drop_last(), b.drop_last(), key);
        assert(a.last().url == b.last().url);
    }
}

/// A peer's unhealthy report marks the first backend with the reported key unhealthy,
/// whatever reports come before or after it in the same round.
pub proof fn law_peer_report_marks_unhealthy(
    bs: Seq<BackendView>,
    msg: Seq<char>,
    reports: Seq<Seq<char>>,
    j: int,
    i: int,
)
    requires
        0 <= j < reports.len(),
        find_by_key(bs, reports[j]) == Some(i),
    ensures
        !peer_fold((bs, msg), reports).0[i].is_healthy,
    decreases reports.len(),
{
    let rest = reports.drop_last();
    let prev = peer_fold((bs, msg), rest);
    lemma_find_by_key(bs, reports[j]);
    law_peer_merge_is_pessimistic(bs, msg, rest);
    assert forall|k: int| 0 <= k < prev.0.len() implies (#[trigger] prev.0[k]).url == bs[k].url by {
        assert(prev.0[k] == BackendView { is_healthy: prev.0[k].is_healthy, ..bs[k] });
    }
    lemma_find_by_key_same_urls(prev.0, bs, reports.last());
    lemma_find_by_key(prev.0, reports.last());
    if j < reports.len() - 1 {
        assert(rest[j] == reports[j]);
        law_peer_report_marks_unhealthy(bs, msg, rest, j, i);
    }
}

/// A backend that no report in the round names keeps its entry, health included.
pub proof fn law_unreported_backend_unchanged(bs: Seq<BackendView>, msg: Seq<char>, reports: Seq<Seq<char>>, i: int)
    requires
        0 <= i < bs.len(),
        forall|j: int| 0 <= j < reports.len() ==> find_by_key(bs, #[trigger] reports[j]) != Some(i),
    ensures
        peer_fold((bs, msg), reports).0[i] == bs[i],
    decreases reports.len(),
{
    if reports.len() > 0 {
        let rest = reports.drop_last();
        let prev = peer_fold((bs, msg), rest);
        assert forall|j: int| 0 <= j < rest.len() implies find_by_key(bs, #[trigger] rest[j]) != Some(i) by {
            assert(rest[j] == reports[j]);
        }
        law_unreported_backend_unchanged(bs, msg, rest, i);
        law_peer_merge_is_pessimistic(bs, msg, rest);
        assert forall|k: int| 0 <= k < prev.0.len() implies (#[trigger] prev.0[k]).url == bs[k].url by {
            assert(prev.0[k] == BackendView { is_healthy: prev.0[k].is_healthy, ..bs[k] });
        }
        lemma_find_by_key_same_urls(prev.0, bs, reports.last());
        assert(reports.last() == reports[reports.len() - 1]);
        assert(find_by_key(bs, reports[reports.len() - 1]) != Some(i));
        lemma_find_by_key(prev.0, reports.last());
        assert(peer_fold((bs, msg), reports) == peer_step(prev, reports.last()));
    }
}

} // verus!
