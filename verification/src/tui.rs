use vstd::prelude::*;
use crate::dashboard::{BackendInfo, DashboardState, RequestLog};
use crate::text::{after_last, chars_of, contains_seq, decimal, lowercase, push_char, push_decimal, split_last, str_contains, str_eq, string_from_chars, to_lowercase};

verus! {

/// The colour of an error-rate bar.
#[derive(Clone, Copy, Debug, PartialEq, Eq, Structural)]
pub enum BarColor {
    DarkGray,
    Yellow,
    Red,
}

/// `n` copies of `c`.
pub open spec fn repeated(c: char, n: nat) -> Seq<char> {
    Seq::new(n, |_i: int| c)
}

fn push_repeated(s: &mut String, c: char, n: usize)
    ensures
        final(s)@ == old(s)@ + repeated(c, n as nat),
{
    let mut k: usize = 0;
    while k < n
        invariant
            k <= n,
            s@ == old(s)@ + repeated(c, k as nat),
        decreases n - k,
    {
        push_char(s, c);
        proof {
            assert(old(s)@ + repeated(c, (k + 1) as nat) =~= (old(s)@ + repeated(c, k as nat)).push(c));
        }
        k = k + 1;
    }
}

/// The error percentage of a backend (integer division).
pub open spec fn error_pct(request_count: u64, error_count: u64) -> int {
    (error_count * 100) / (request_count as int)
}

/// The cells of the bar that are filled for a percentage.
pub open spec fn filled_cells(pct: int, bar_width: usize) -> int {
    (((pct as u64) as usize) * bar_width) / 100
}

/// Build an error-rate bar: e.g. "[████░░░░░░] 40%"
/// bar_width is the number of cells available for the filled/empty part.
pub fn error_bar(request_count: u64, error_count: u64, bar_width: usize) -> (r: (String, BarColor))
    requires
        request_count > 0 ==> {
            &&& error_count * 100 <= u64::MAX
            &&& ((error_pct(request_count, error_count) as u64) as usize) * bar_width <= usize::MAX
            &&& filled_cells(error_pct(request_count, error_count), bar_width) <= bar_width
        },
    ensures
        request_count == 0 ==> r.0@ == "["@ + repeated('░', bar_width as nat) + "] n/a"@ && r.1 == BarColor::DarkGray,
        request_count > 0 ==> {
            let pct = error_pct(request_count, error_count);
            let filled = filled_cells(pct, bar_width);
            &&& r.0@ == "["@ + repeated('█', filled as nat) + repeated('░', (bar_width - filled) as nat) + "] "@
                + decimal(pct as nat) + "%"@
            &&& r.1 == if pct == 0 {
                BarColor::DarkGray
            } else if pct <= 10 {
                BarColor::Yellow
            } else {
                BarColor::Red
            }
        },
{
    if request_count == 0 {
        let mut s = String::from_str("[");
        push_repeated(&mut s, '░', bar_width);
        s.append("] n/a");
        return (s, BarColor::DarkGray);
    }
    let pct = (error_count * 100) / request_count;
    let filled = ((pct as usize) * bar_width) / 100;
    let empty = bar_width - filled;
    let mut s = String::from_str("[");
    push_repeated(&mut s, '█', filled);
    push_repeated(&mut s, '░', empty);
    s.append("] ");
    push_decimal(&mut s, pct);
    s.append("%");
    let color = if pct == 0 {
        BarColor::DarkGray
    } else if pct <= 10 {
        BarColor::Yellow
    } else {
        BarColor::Red
    };
    (s, color)
}

/// The key presses the dashboard reacts to.
#[derive(Clone, Copy, Debug, PartialEq, Eq, Structural)]
pub enum Key {
    Char(char),
    Tab,
    Left,
    Right,
    Esc,
    Backspace,
    Other,
}

/// What the event loop does after a key.
#[derive(Clone, Copy, Debug, PartialEq, Eq, Structural)]
pub enum KeyOutcome {
    Continue,
    Quit,
}

/// The port label of a url: the text after its last `:`.
pub fn port_label(url: &str) -> (r: String)
    ensures
        r@ == after_last(url@, ':'),
{
    split_last(url, ':')
}

/// The port label of the backend at `sel`, or `?` when there is none.
pub open spec fn port_of(backends: Seq<BackendInfo>, sel: usize) -> Seq<char> {
    if sel < backends.len() {
        after_last(backends[sel as int].url@, ':')
    } else {
        "?"@
    }
}

/// The backends with the entry at `sel` (when it exists) disabled or enabled by hand.
pub open spec fn toggled(bs: Seq<BackendInfo>, sel: usize, disabled: bool, after: Seq<BackendInfo>) -> bool {
    &&& after.len() == bs.len()
    &&& forall|j: int| 0 <= j < bs.len() && j != sel ==> after[j] == bs[j]
    &&& (sel < bs.len() ==> after[sel as int]@ == crate::dashboard::BackendView { manually_disabled: disabled, ..bs[sel as int]@ })
}

/// The fields no key changes.
pub open spec fn keeps_counters(a: DashboardState, b: DashboardState) -> bool {
    &&& a.recent_request == b.recent_request
    &&& a.total_request == b.total_request
    &&& a.health_check_interval_secs == b.health_check_interval_secs
    &&& a.blocked_requests == b.blocked_requests
}

fn set_backend_disabled(dash: &mut DashboardState, sel: usize, disabled: bool)
    requires
        sel < old(dash).backends@.len(),
    ensures
        toggled(old(dash).backends@, sel, disabled, final(dash).backends@),
        keeps_counters(*old(dash), *final(dash)),
        final(dash).status_msg == old(dash).status_msg,
        final(dash).search_mode == old(dash).search_mode,
        final(dash).search_query == old(dash).search_query,
        final(dash).current_tab == old(dash).current_tab,
        final(dash).selected_backend == old(dash).selected_backend,
        final(dash).pinned_backend == old(dash).pinned_backend,
{
    let mut b = dash.backends.remove(sel);
    b.manually_disabled = disabled;
    dash.backends.insert(sel, b);
}

/// Handles one key press. In search mode Esc leaves search and clears the query,
/// Backspace deletes the last character, any character is appended. Otherwise `q`
/// quits, Tab cycles the three views, `/` opens search on the log view, ← and → move
/// the selection within the backends, `d`/`e` disable/enable the selected backend, `p`
/// pins traffic to it and `u` unpins.
pub fn handle_key(dash: &mut DashboardState, key: Key) -> (r: KeyOutcome)
    requires
        !old(dash).search_mode && key == Key::Tab ==> old(dash).current_tab < usize::MAX,
        !old(dash).search_mode && key == Key::Right && old(dash).backends@.len() > 0 ==> old(dash).selected_backend < usize::MAX,
    ensures
        keeps_counters(*old(dash), *final(dash)),
        r == KeyOutcome::Quit <==> (!old(dash).search_mode && key == Key::Char('q')),
        old(dash).search_mode ==> {
            &&& final(dash).backends == old(dash).backends
            &&& final(dash).status_msg == old(dash).status_msg
            &&& final(dash).current_tab == old(dash).current_tab
            &&& final(dash).selected_backend == old(dash).selected_backend
            &&& final(dash).pinned_backend == old(dash).pinned_backend
            &&& match key {
                Key::Esc => !final(dash).search_mode && final(dash).search_query@.len() == 0,
                Key::Backspace => final(dash).search_mode && final(dash).search_query@ == if old(dash).search_query@.len() > 0 {
                    old(dash).search_query@.drop_last()
                } else {
                    old(dash).search_query@
                },
                Key::Char(c) => final(dash).search_mode && final(dash).search_query@ == old(dash).search_query@.push(c),
                _ => final(dash).search_mode && final(dash).search_query == old(dash).search_query,
            }
        },
        !old(dash).search_mode ==> {
            let sel = old(dash).selected_backend;
            let count = old(dash).backends@.len();
            match key {
                Key::Tab => final(dash).current_tab == (old(dash).current_tab + 1) % 3
                    && final(dash).backends == old(dash).backends && final(dash).status_msg == old(dash).status_msg
                    && final(dash).selected_backend == sel && final(dash).pinned_backend == old(dash).pinned_backend
                    && !final(dash).search_mode,
                Key::Char('/') => final(dash).search_mode && final(dash).search_query@.len() == 0
                    && final(dash).current_tab == 1 && final(dash).backends == old(dash).backends
                    && final(dash).selected_backend == sel && final(dash).pinned_backend == old(dash).pinned_backend,
                Key::Left => final(dash).selected_backend == (if sel > 0 { (sel - 1) as usize } else { 0usize })
                    && final(dash).backends == old(dash).backends && final(dash).current_tab == old(dash).current_tab
                    && final(dash).pinned_backend == old(dash).pinned_backend && !final(dash).search_mode,
                Key::Right => final(dash).selected_backend == (if count == 0 {
                    sel
                } else if sel + 1 <= count - 1 {
                    (sel + 1) as usize
                } else {
                    (count - 1) as usize
                }) && final(dash).backends == old(dash).backends && final(dash).current_tab == old(dash).current_tab
                    && final(dash).pinned_backend == old(dash).pinned_backend && !final(dash).search_mode,
                Key::Char('d') => toggled(old(dash).backends@, sel, true, final(dash).backends@)
                    && (sel < count ==> final(dash).status_msg@ == "⛔ :"@ + port_of(old(dash).backends@, sel) + " disabled"@)
                    && (sel >= count ==> final(dash).status_msg == old(dash).status_msg)
                    && final(dash).selected_backend == sel && final(dash).pinned_backend == old(dash).pinned_backend,
                Key::Char('e') => toggled(old(dash).backends@, sel, false, final(dash).backends@)
                    && (sel < count ==> final(dash).status_msg@ == "✅ :"@ + port_of(old(dash).backends@, sel) + " re-enabled"@)
                    && (sel >= count ==> final(dash).status_msg == old(dash).status_msg)
                    && final(dash).selected_backend == sel && final(dash).pinned_backend == old(dash).pinned_backend,
                Key::Char('p') => final(dash).pinned_backend == Some(sel)
                    && final(dash).status_msg@ == "📌 pinned to :"@ + port_of(old(dash).backends@, sel)
                    && final(dash).backends == old(dash).backends && final(dash).selected_backend == sel,
                Key::Char('u') => final(dash).pinned_backend is None
                    && final(dash).status_msg@ == "unpinned - back to round-robin"@
                    && final(dash).backends == old(dash).backends && final(dash).selected_backend == sel,
                _ => final(dash).backends == old(dash).backends && final(dash).status_msg == old(dash).status_msg
                    && final(dash).selected_backend == sel && final(dash).pinned_backend == old(dash).pinned_backend
                    && final(dash).current_tab == old(dash).current_tab && !final(dash).search_mode,
            }
        },
{
    if dash.search_mode {
        match key {
            Key::Esc => {
                dash.search_mode = false;
                dash.search_query = String::new();
            },
            Key::Backspace => {
                let cs = chars_of(dash.search_query.as_str());
                if cs.len() > 0 {
                    dash.search_query = string_from_chars(&cs, 0, cs.len() - 1);
                    proof {
                        assert(cs@.subrange(0, cs@.len() - 1) =~= old(dash).search_query@.drop_last());
                    }
                }
            },
            Key::Char(c) => {
                push_char(&mut dash.search_query, c);
            },
            _ => {},
        }
        return KeyOutcome::Continue;
    }
    let count = dash.backends.len();
    let sel = dash.selected_backend;
    match key {
        Key::Char('q') => {
            return KeyOutcome::Quit;
        },
        Key::Tab => {
            dash.current_tab = (dash.current_tab + 1) % 3;
        },
        Key::Char('/') => {
            dash.search_mode = true;
            dash.search_query = String::new();
            dash.current_tab = 1;
        },
        Key::Left => {
            dash.selected_backend = if sel > 0 { sel - 1 } else { 0 };
        },
        Key::Right => {
            if count > 0 {
                let next = sel + 1;
                dash.selected_backend = if next <= count - 1 { next } else { count - 1 };
            }
        },
        Key::Char('d') => {
            if sel < count {
                let port = port_label(dash.backends[sel].url.as_str());
                set_backend_disabled(dash, sel, true);
                let mut m = String::from_str("⛔ :");
                m.append(port.as_str());
                m.append(" disabled");
                dash.status_msg = m;
            }
        },
        Key::Char('e') => {
            if sel < count {
                let port = port_label(dash.backends[sel].url.as_str());
                set_backend_disabled(dash, sel, false);
                let mut m = String::from_str("✅ :");
                m.append(port.as_str());
                m.append(" re-enabled");
                dash.status_msg = m;
            }
        },
        Key::Char('p') => {
            dash.pinned_backend = Some(sel);
            let port = if sel < count {
                port_label(dash.backends[sel].url.as_str())
            } else {
                String::from_str("?")
            };
            let mut m = String::from_str("📌 pinned to :");
            m.append(port.as_str());
            dash.status_msg = m;
        },
        Key::Char('u') => {
            dash.pinned_backend = None;
            dash.status_msg = String::from_str("unpinned - back to round-robin");
        },
        _ => {},
    }
    KeyOutcome::Continue
}

/// The category of an HTTP status for colouring.
#[derive(Clone, Copy, Debug, PartialEq, Eq, Structural)]
pub enum StatusClass {
    Success,
    ClientError,
    ServerError,
    Other,
}

/// 2xx, 4xx and 5xx statuses, and the rest.
pub fn status_class(status: u16) -> (r: StatusClass)
    ensures
        r == if 200 <= status <= 299 {
            StatusClass::Success
        } else if 400 <= status <= 499 {
            StatusClass::ClientError
        } else if 500 <= status <= 599 {
            StatusClass::ServerError
        } else {
            StatusClass::Other
        },
{
    if 200 <= status && status <= 299 {
        StatusClass::Success
    } else if 400 <= status && status <= 499 {
        StatusClass::ClientError
    } else if 500 <= status && status <= 599 {
        StatusClass::ServerError
    } else {
        StatusClass::Other
    }
}

/// How a backend shows on the overview.
#[derive(Clone, Copy, Debug, PartialEq, Eq, Structural)]
pub enum BackendStatus {
    Disabled,
    Down,
    Active,
    Idle,
}

/// A backend is active when its last hit is less than 300 ms before `now` (nanoseconds).
pub open spec fn recently_hit(b: BackendInfo, now: u64) -> bool {
    match b.last_hit {
        Some(t) => (if now >= t { now - t } else { 0 }) < 300_000_000,
        None => false,
    }
}

/// The overview status of a backend: disabled by hand, down, active, or idle.
pub fn backend_status(b: &BackendInfo, now: u64) -> (r: BackendStatus)
    ensures
        r == if b.manually_disabled {
            BackendStatus::Disabled
        } else if !b.is_healthy {
            BackendStatus::Down
        } else if recently_hit(*b, now) {
            BackendStatus::Active
        } else {
            BackendStatus::Idle
        },
{
    if b.manually_disabled {
        BackendStatus::Disabled
    } else if !b.is_healthy {
        BackendStatus::Down
    } else {
        let active = match b.last_hit {
            Some(t) => {
                let elapsed: u64 = if now >= t { now - t } else { 0 };
                elapsed < 300_000_000
            },
            None => false,
        };
        if active {
            BackendStatus::Active
        } else {
            BackendStatus::Idle
        }
    }
}

/// Index of the group with label `label`.
pub open spec fn group_index(groups: Seq<(Seq<char>, Seq<usize>)>, label: Seq<char>) -> Option<int>
    decreases groups.len(),
{
    if groups.len() == 0 {
        None
    } else {
        match group_index(groups.drop_last(), label) {
            Some(i) => Some(i),
            None => if groups.last().0 == label {
                Some(groups.len() - 1)
            } else {
                None
            },
        }
    }
}

/// The backends grouped by route label: groups in order of first appearance, each with
/// the indices of its backends in order.
pub open spec fn label_groups(labels: Seq<Seq<char>>) -> Seq<(Seq<char>, Seq<usize>)>
    decreases labels.len(),
{
    if labels.len() == 0 {
        Seq::empty()
    } else {
        let prev = label_groups(labels.drop_last());
        let i = (labels.len() - 1) as usize;
        match group_index(prev, labels.last()) {
            Some(g) => prev.update(g, (prev[g].0, prev[g].1.push(i))),
            None => prev.push((labels.last(), seq![i])),
        }
    }
}

/// The route labels of the backends.
pub open spec fn labels_of(bs: Seq<BackendInfo>) -> Seq<Seq<char>> {
    bs.map_values(|b: BackendInfo| b.route_label@)
}

/// The view of a list of groups.
pub open spec fn groups_view(g: Seq<(String, Vec<usize>)>) -> Seq<(Seq<char>, Seq<usize>)> {
    g.map_values(|p: (String, Vec<usize>)| (p.0@, p.1@))
}

proof fn lemma_group_index(groups: Seq<(Seq<char>, Seq<usize>)>, label: Seq<char>)
    ensures
        match group_index(groups, label) {
            Some(i) => 0 <= i < groups.len() && groups[i].0 == label
                && forall|j: int| 0 <= j < i ==> groups[j].0 != label,
            None => forall|j: int| 0 <= j < groups.len() ==> groups[j].0 != label,
        },
    decreases groups.len(),
{
    if groups.len() > 0 {
        let prefix = groups.drop_last();
        lemma_group_index(prefix, label);
        assert(forall|j: int| 0 <= j < prefix.len() ==> prefix[j] == groups[j]);
    }
}

fn find_group(groups: &Vec<(String, Vec<usize>)>, label: &str) -> (r: Option<usize>)
    ensures
        match r {
            Some(g) => group_index(groups_view(groups@), label@) == Some(g as int),
            None => group_index(groups_view(groups@), label@) is None,
        },
{
    let ghost gv = groups_view(groups@);
    proof {
        lemma_group_index(gv, label@);
    }
    let mut g: usize = 0;
    while g < groups.len()
        invariant
            g <= groups@.len(),
            gv == groups_view(groups@),
            forall|k: int| 0 <= k < g ==> groups@[k].0@ != label@,
        decreases groups@.len() - g,
    {
        if str_eq(groups[g].0.as_str(), label) {
            proof {
                lemma_group_index(gv, label@);
                assert(gv[g as int].0 == label@);
                match group_index(gv, label@) {
                    Some(f) => {
                        if f < g {
                            assert(gv[f].0 == groups@[f].0@);
                        }
                    },
                    None => {},
                }
            }
            return Some(g);
        }
        g = g + 1;
    }
    proof {
        lemma_group_index(gv, label@);
        match group_index(gv, label@) {
            Some(f) => {
                assert(gv[f].0 == groups@[f].0@);
            },
            None => {},
        }
    }
    None
}

/// Groups the backends by route label for the overview.
pub fn group_by_label(backends: &Vec<BackendInfo>) -> (r: Vec<(String, Vec<usize>)>)
    ensures
        groups_view(r@) == label_groups(labels_of(backends@)),
{
    let mut groups: Vec<(String, Vec<usize>)> = Vec::new();
    let mut i: usize = 0;
    while i < backends.len()
        invariant
            i <= backends@.len(),
            groups_view(groups@) == label_groups(labels_of(backends@).take(i as int)),
        decreases backends@.len() - i,
    {
        let ghost prevg = groups_view(groups@);
        proof {
            assert(labels_of(backends@).take(i + 1).drop_last() =~= labels_of(backends@).take(i as int));
            assert(labels_of(backends@).take(i + 1).last() == backends@[i as int].route_label@);
            lemma_group_index(prevg, backends@[i as int].route_label@);
        }
        let label = &backends[i].route_label;
        let fg = find_group(&groups, label.as_str());
        if let Some(g) = fg {
            let (name, mut members) = groups.remove(g);
            members.push(i);
            groups.insert(g, (name, members));
            proof {
                assert(groups_view(groups@) =~= prevg.update(g as int, (prevg[g as int].0, prevg[g as int].1.push(i))));
            }
        } else {
            let mut members: Vec<usize> = Vec::new();
            members.push(i);
            groups.push((label.clone(), members));
            proof {
                assert(groups_view(groups@) =~= prevg.push((label@, seq![i])));
            }
        }
        i = i + 1;
    }
    proof {
        assert(labels_of(backends@).take(backends@.len() as int) =~= labels_of(backends@));
    }
    groups
}

/// Does a log entry show under the (already lower-cased) search query? Every entry
/// shows when the query is empty; otherwise the lower-cased path, backend or method must
/// contain it.
pub open spec fn log_shown(log: RequestLog, query: Seq<char>) -> bool {
    query.len() == 0 || contains_seq(lowercase(log.path@), query) || contains_seq(lowercase(log.backends@), query)
        || contains_seq(lowercase(log.method@), query)
}

/// The positions of the recent requests that the search shows, in log order.
pub open spec fn shown_logs(logs: Seq<RequestLog>, query: Seq<char>) -> Seq<usize>
    decreases logs.len(),
{
    if logs.len() == 0 {
        Seq::empty()
    } else {
        let prev = shown_logs(logs.drop_last(), query);
        if log_shown(logs.last(), query) {
            prev.push((logs.len() - 1) as usize)
        } else {
            prev
        }
    }
}

/// Filters the request log by the search query, case-insensitively, on path, backend
/// and method.
pub fn visible_logs(dash: &DashboardState) -> (r: Vec<usize>)
    ensures
        r@ == shown_logs(dash.recent_request@, lowercase(dash.search_query@)),
{
    let query = to_lowercase(dash.search_query.as_str());
    let qlen = chars_of(query.as_str()).len();
    let mut out: Vec<usize> = Vec::new();
    let mut i: usize = 0;
    while i < dash.recent_request.len()
        invariant
            i <= dash.recent_request@.len(),
            query@ == lowercase(dash.search_query@),
            qlen == query@.len(),
            out@ == shown_logs(dash.recent_request@.take(i as int), query@),
        decreases dash.recent_request@.len() - i,
    {
        proof {
            assert(dash.recent_request@.take(i + 1).drop_last() =~= dash.recent_request@.take(i as int));
            assert(dash.recent_request@.take(i + 1).last() == dash.recent_request@[i as int]);
        }
        let log = &dash.recent_request[i];
        let shown = if qlen == 0 {
            true
        } else {
            let p = to_lowercase(log.path.as_str());
            let b = to_lowercase(log.backends.as_str());
            let m = to_lowercase(log.method.as_str());
            str_contains(p.as_str(), query.as_str()) || str_contains(b.as_str(), query.as_str())
                || str_contains(m.as_str(), query.as_str())
        };
        if shown {
            out.push(i);
        }
        i = i + 1;
    }
    proof {
        assert(dash.recent_request@.take(dash.recent_request@.len() as int) =~= dash.recent_request@);
    }
    out
}

/// The tab bar of the title: the three views, the current one marked with ` ◀`.
pub open spec fn tabs_label(tab: usize) -> Seq<char> {
    " [1] Overview"@ + (if tab == 0 { " ◀"@ } else { ""@ }) + "  [2] Log"@ + (if tab == 1 { " ◀"@ } else { ""@ })
        + "  [3] Config"@ + (if tab == 2 { " ◀"@ } else { ""@ }) + " "@
}

/// The blocked-request count of the title, shown only when some request was blocked.
pub open spec fn blocked_label(blocked: u64) -> Seq<char> {
    if blocked > 0 {
        "  |  Blocked: "@ + decimal(blocked as nat)
    } else {
        ""@
    }
}

/// The title bar: the backend count and request total, or the request total and the
/// status line when there is one, then the blocked count and the tab bar.
pub open spec fn title_of(dash: DashboardState) -> Seq<char> {
    if dash.status_msg@.len() == 0 {
        " 🦀 ClawGate  |  Backends: "@ + decimal(dash.backends@.len()) + "  |  Req: "@ + decimal(dash.total_request as nat)
            + blocked_label(dash.blocked_requests) + "  |"@ + tabs_label(dash.current_tab)
    } else {
        " 🦀 ClawGate  |  Req: "@ + decimal(dash.total_request as nat) + blocked_label(dash.blocked_requests) + "  |  "@
            + dash.status_msg@ + "  |"@ + tabs_label(dash.current_tab)
    }
}

/// The key hints of the current view; on the log view in search mode, the query being
/// typed.
pub open spec fn hint_of(dash: DashboardState) -> Seq<char> {
    if dash.current_tab == 0 {
        " Tab: switch view  |  ← → move  |  d disable  |  e enable  |  p pin  |  u unpin  |  q quit"@
    } else if dash.current_tab == 1 {
        if dash.search_mode {
            " ESC: cancel  |  Backspace: delete  |  Searching: "@ + dash.search_query@ + "_"@
        } else {
            " Tab: switch view  |  /: search  |  q quit"@
        }
    } else if dash.current_tab == 2 {
        " Tab: switch view  |  q quit"@
    } else {
        Seq::empty()
    }
}

fn push_tabs(m: &mut String, tab: usize)
    ensures
        final(m)@ == old(m)@ + tabs_label(tab),
{
    m.append(" [1] Overview");
    if tab == 0 { m.append(" ◀") } else { m.append("") }
    m.append("  [2] Log");
    if tab == 1 { m.append(" ◀") } else { m.append("") }
    m.append("  [3] Config");
    if tab == 2 { m.append(" ◀") } else { m.append("") }
    m.append(" ");
    proof {
        assert(final(m)@ =~= old(m)@ + tabs_label(tab));
    }
}

fn push_blocked(m: &mut String, blocked: u64)
    ensures
        final(m)@ == old(m)@ + blocked_label(blocked),
{
    if blocked > 0 {
        m.append("  |  Blocked: ");
        push_decimal(m, blocked);
        proof {
            assert(final(m)@ =~= old(m)@ + blocked_label(blocked));
        }
    } else {
        m.append("");
    }
}

/// The title bar of the dashboard.
pub fn title_text(dash: &DashboardState) -> (r: String)
    ensures
        r@ == title_of(*dash),
{
    if dash.status_msg.as_str().is_empty() {
        let mut m = String::from_str(" 🦀 ClawGate  |  Backends: ");
        push_decimal(&mut m, dash.backends.len() as u64);
        m.append("  |  Req: ");
        push_decimal(&mut m, dash.total_request);
        push_blocked(&mut m, dash.blocked_requests);
        m.append("  |");
        push_tabs(&mut m, dash.current_tab);
        proof {
            assert(m@ =~= title_of(*dash));
        }
        m
    } else {
        let mut m = String::from_str(" 🦀 ClawGate  |  Req: ");
        push_decimal(&mut m, dash.total_request);
        push_blocked(&mut m, dash.blocked_requests);
        m.append("  |  ");
        m.append(dash.status_msg.as_str());
        m.append("  |");
        push_tabs(&mut m, dash.current_tab);
        proof {
            assert(m@ =~= title_of(*dash));
        }
        m
    }
}

/// The hint bar of the dashboard.
pub fn hint_text(dash: &DashboardState) -> (r: String)
    ensures
        r@ == hint_of(*dash),
{
    if dash.current_tab == 0 {
        String::from_str(" Tab: switch view  |  ← → move  |  d disable  |  e enable  |  p pin  |  u unpin  |  q quit")
    } else if dash.current_tab == 1 {
        if dash.search_mode {
            let mut m = String::from_str(" ESC: cancel  |  Backspace: delete  |  Searching: ");
            m.append(dash.search_query.as_str());
            m.append("_");
            m
        } else {
            String::from_str(" Tab: switch view  |  /: search  |  q quit")
        }
    } else if dash.current_tab == 2 {
        String::from_str(" Tab: switch view  |  q quit")
    } else {
        String::new()
    }
}

/// The header of a group on the overview: its label and how many backends it holds.
pub open spec fn group_header_of(label: Seq<char>, members: nat) -> Seq<char> {
    " 🗂  "@ + label + " ("@ + decimal(members) + " backend"@ + (if members == 1 { ""@ } else { "s"@ }) + ") "@
}

/// The header line of a group of backends.
pub fn group_header(label: &str, members: usize) -> (r: String)
    ensures
        r@ == group_header_of(label@, members as nat),
{
    let mut m = String::from_str(" 🗂  ");
    m.append(label);
    m.append(" (");
    push_decimal(&mut m, members as u64);
    m.append(" backend");
    if members == 1 { m.append("") } else { m.append("s") }
    m.append(") ");
    proof {
        assert(m@ =~= group_header_of(label@, members as nat));
    }
    m
}

/// The request id a log row starts with: its first eight characters (all of it when
/// shorter).
pub open spec fn short_id_of(id: Seq<char>) -> Seq<char> {
    if id.len() <= 8 {
        id
    } else {
        id.take(8)
    }
}

/// The short request id of a log row.
pub fn short_request_id(id: &str) -> (r: String)
    ensures
        r@ == short_id_of(id@),
{
    let cs = chars_of(id);
    let end: usize = if cs.len() <= 8 { cs.len() } else { 8 };
    let r = string_from_chars(&cs, 0, end);
    proof {
        assert(cs@.subrange(0, end as int) =~= short_id_of(id@));
    }
    r
}

/// A colour of the overview.
#[derive(Clone, Copy, Debug, PartialEq, Eq, Structural)]
pub enum Shade {
    DarkGray,
    Red,
    Green,
    White,
    Yellow,
    Magenta,
}

/// The border of a backend's box: magenta when selected and pinned, yellow when selected
/// (both bold), otherwise by its status — dark gray when disabled, red when down, bold
/// green when active, white when idle. The flag says whether it is bold.
pub open spec fn border_of(selected: bool, pinned: bool, status: BackendStatus) -> (Shade, bool) {
    if selected && pinned {
        (Shade::Magenta, true)
    } else if selected {
        (Shade::Yellow, true)
    } else {
        match status {
            BackendStatus::Disabled => (Shade::DarkGray, false),
            BackendStatus::Down => (Shade::Red, false),
            BackendStatus::Active => (Shade::Green, true),
            BackendStatus::Idle => (Shade::White, false),
        }
    }
}

/// The border of a backend's box.
pub fn border_for(selected: bool, pinned: bool, status: BackendStatus) -> (r: (Shade, bool))
    ensures
        r == border_of(selected, pinned, status),
{
    if selected && pinned {
        (Shade::Magenta, true)
    } else if selected {
        (Shade::Yellow, true)
    } else {
        match status {
            BackendStatus::Disabled => (Shade::DarkGray, false),
            BackendStatus::Down => (Shade::Red, false),
            BackendStatus::Active => (Shade::Green, true),
            BackendStatus::Idle => (Shade::White, false),
        }
    }
}

/// The title of a backend's box: a mark (disabled, pinned, or a plain server) and the
/// port.
pub open spec fn box_title_of(url: Seq<char>, disabled: bool, pinned: bool) -> Seq<char> {
    (if disabled { " ⛔ :"@ } else if pinned { " 📌 :"@ } else { " 🖥  :"@ }) + after_last(url, ':') + " "@
}

/// The title of a backend's box.
pub fn box_title(url: &str, disabled: bool, pinned: bool) -> (r: String)
    ensures
        r@ == box_title_of(url@, disabled, pinned),
{
    let mut m = if disabled {
        String::from_str(" ⛔ :")
    } else if pinned {
        String::from_str(" 📌 :")
    } else {
        String::from_str(" 🖥  :")
    };
    let port = port_label(url);
    m.append(port.as_str());
    m.append(" ");
    m
}

/// The status line of a backend's box and its colour.
pub open spec fn status_line_of(status: BackendStatus) -> (Seq<char>, Shade) {
    match status {
        BackendStatus::Disabled => ("⛔ disabled"@, Shade::DarkGray),
        BackendStatus::Down => ("🔴 DOWN"@, Shade::Red),
        BackendStatus::Active => ("🟢 ACTIVE"@, Shade::Green),
        BackendStatus::Idle => ("⬜ idle"@, Shade::DarkGray),
    }
}

/// The status line of a backend's box and its colour.
pub fn status_line(status: BackendStatus) -> (r: (&'static str, Shade))
    ensures
        (r.0@, r.1) == status_line_of(status),
{
    match status {
        BackendStatus::Disabled => ("⛔ disabled", Shade::DarkGray),
        BackendStatus::Down => ("🔴 DOWN", Shade::Red),
        BackendStatus::Active => ("🟢 ACTIVE", Shade::Green),
        BackendStatus::Idle => ("⬜ idle", Shade::DarkGray),
    }
}

/// How long ago a backend was probed, in whole seconds (a probe time after `now` counts
/// as no time).
pub open spec fn checked_line_of(last_checked: Option<u64>, now: u64) -> Seq<char> {
    match last_checked {
        Some(t) => "  checked "@ + decimal((if now >= t { now - t } else { 0 }) as nat / 1_000_000_000) + "s ago"@,
        None => "  not checked"@,
    }
}

/// The probe line of a backend's box.
pub fn checked_line(last_checked: Option<u64>, now: u64) -> (r: String)
    ensures
        r@ == checked_line_of(last_checked, now),
{
    match last_checked {
        Some(t) => {
            let elapsed: u64 = if now >= t { now - t } else { 0 };
            let mut m = String::from_str("  checked ");
            push_decimal(&mut m, elapsed / 1_000_000_000);
            m.append("s ago");
            m
        },
        None => String::from_str("  not checked"),
    }
}

/// Tab cycles through the three views: three presses come back to the same view.
pub proof fn law_tab_cycles(tab: usize)
    requires
        tab < 3,
    ensures
        ((((tab + 1) % 3) + 1) % 3 + 1) % 3 == tab,
{
}

} // verus!
