use clawgate::tui::{border_for, box_title, checked_line, status_line, Shade};
use clawgate::tui::{group_header, short_request_id};
use clawgate::tui::{hint_text, title_text};
use clawgate::dashboard::{BackendInfo, CircuitState, DashboardState, RequestLog};
use clawgate::tui::{
    backend_status, error_bar, group_by_label, handle_key, port_label, status_class, visible_logs, BackendStatus, BarColor,
    Key, KeyOutcome, StatusClass,
};
use std::collections::VecDeque;

fn info(url: &str, label: &str) -> BackendInfo {
    BackendInfo {
        url: url.to_string(),
        weight: 1,
        request_count: 0,
        last_hit: None,
        health_path: "/".to_string(),
        is_healthy: true,
        last_checked: None,
        failed_count: 0,
        circuit_state: CircuitState::Closed,
        manually_disabled: false,
        active_connections: 0,
        route_label: label.to_string(),
        error_count: 0,
        latency_history: VecDeque::new(),
    }
}

fn dash() -> DashboardState {
    DashboardState {
        backends: vec![info("http://127.0.0.1:4000", "api"), info("http://127.0.0.1:4001", "web")],
        recent_request: VecDeque::new(),
        total_request: 0,
        status_msg: String::new(),
        health_check_interval_secs: 5,
        selected_backend: 0,
        pinned_backend: None,
        current_tab: 0,
        search_mode: false,
        search_query: String::new(),
        blocked_requests: 0,
    }
}

fn log(method: &str, path: &str, backend: &str) -> RequestLog {
    RequestLog {
        method: method.to_string(),
        path: path.to_string(),
        backends: backend.to_string(),
        status: 200,
        duration_ms: 1,
        request_id: "r".to_string(),
    }
}

#[test]
fn error_bar_shows_percentage() {
    assert_eq!(error_bar(10, 4, 10), ("[████░░░░░░] 40%".to_string(), BarColor::Red));
    assert_eq!(error_bar(100, 5, 10), ("[░░░░░░░░░░] 5%".to_string(), BarColor::Yellow));
    assert_eq!(error_bar(100, 10, 10), ("[█░░░░░░░░░] 10%".to_string(), BarColor::Yellow));
    assert_eq!(error_bar(7, 0, 4), ("[░░░░] 0%".to_string(), BarColor::DarkGray));
    assert_eq!(error_bar(3, 3, 5), ("[█████] 100%".to_string(), BarColor::Red));
}

#[test]
fn error_bar_without_requests_is_not_applicable() {
    assert_eq!(error_bar(0, 0, 3), ("[░░░] n/a".to_string(), BarColor::DarkGray));
}

#[test]
fn port_label_is_text_after_last_colon() {
    assert_eq!(port_label("http://127.0.0.1:4000"), "4000");
    assert_eq!(port_label("no-port"), "no-port");
}

#[test]
fn quit_only_outside_search() {
    let mut d = dash();
    assert_eq!(handle_key(&mut d, Key::Char('q')), KeyOutcome::Quit);
    d.search_mode = true;
    assert_eq!(handle_key(&mut d, Key::Char('q')), KeyOutcome::Continue);
    assert_eq!(d.search_query, "q");
}

#[test]
fn tab_cycles_three_views() {
    let mut d = dash();
    for expected in [1usize, 2, 0, 1] {
        handle_key(&mut d, Key::Tab);
        assert_eq!(d.current_tab, expected);
    }
}

#[test]
fn selection_stays_within_backends() {
    let mut d = dash();
    handle_key(&mut d, Key::Left);
    assert_eq!(d.selected_backend, 0);
    handle_key(&mut d, Key::Right);
    handle_key(&mut d, Key::Right);
    assert_eq!(d.selected_backend, 1);
}

#[test]
fn disable_enable_pin_unpin_selected_backend() {
    let mut d = dash();
    handle_key(&mut d, Key::Right);
    handle_key(&mut d, Key::Char('d'));
    assert!(d.backends[1].manually_disabled);
    assert_eq!(d.status_msg, "⛔ :4001 disabled");
    handle_key(&mut d, Key::Char('e'));
    assert!(!d.backends[1].manually_disabled);
    assert_eq!(d.status_msg, "✅ :4001 re-enabled");
    handle_key(&mut d, Key::Char('p'));
    assert_eq!(d.pinned_backend, Some(1));
    assert_eq!(d.status_msg, "📌 pinned to :4001");
    handle_key(&mut d, Key::Char('u'));
    assert_eq!(d.pinned_backend, None);
    assert_eq!(d.status_msg, "unpinned - back to round-robin");
}

#[test]
fn search_mode_edits_the_query() {
    let mut d = dash();
    handle_key(&mut d, Key::Char('/'));
    assert!(d.search_mode);
    assert_eq!(d.current_tab, 1);
    handle_key(&mut d, Key::Char('a'));
    handle_key(&mut d, Key::Char('b'));
    handle_key(&mut d, Key::Backspace);
    assert_eq!(d.search_query, "a");
    handle_key(&mut d, Key::Esc);
    assert!(!d.search_mode);
    assert_eq!(d.search_query, "");
}

#[test]
fn status_classes() {
    assert_eq!(status_class(204), StatusClass::Success);
    assert_eq!(status_class(404), StatusClass::ClientError);
    assert_eq!(status_class(503), StatusClass::ServerError);
    assert_eq!(status_class(302), StatusClass::Other);
}

#[test]
fn backend_status_precedence() {
    let mut b = info("http://h:1", "x");
    assert_eq!(backend_status(&b, 1_000_000_000), BackendStatus::Idle);
    b.last_hit = Some(900_000_000);
    assert_eq!(backend_status(&b, 1_000_000_000), BackendStatus::Active);
    assert_eq!(backend_status(&b, 1_200_000_000), BackendStatus::Idle);
    b.is_healthy = false;
    assert_eq!(backend_status(&b, 1_000_000_000), BackendStatus::Down);
    b.manually_disabled = true;
    assert_eq!(backend_status(&b, 1_000_000_000), BackendStatus::Disabled);
}

#[test]
fn groups_follow_first_appearance() {
    let bs = vec![info("a:1", "api"), info("b:2", "web"), info("c:3", "api")];
    let g = group_by_label(&bs);
    assert_eq!(g, vec![("api".to_string(), vec![0, 2]), ("web".to_string(), vec![1])]);
}

#[test]
fn search_filters_logs_case_insensitively() {
    let mut d = dash();
    d.recent_request.push_back(log("GET", "/API/users", "http://127.0.0.1:4000"));
    d.recent_request.push_back(log("POST", "/web", "http://127.0.0.1:4001"));
    d.recent_request.push_back(log("get", "/x", "http://127.0.0.1:4001"));
    assert_eq!(visible_logs(&d), vec![0, 1, 2]);
    d.search_query = "Api".to_string();
    assert_eq!(visible_logs(&d), vec![0]);
    d.search_query = "GET".to_string();
    assert_eq!(visible_logs(&d), vec![0, 2]);
    d.search_query = "4001".to_string();
    assert_eq!(visible_logs(&d), vec![1, 2]);
}

#[test]
fn title_and_hint_texts() {
    let mut d = dash();
    assert_eq!(title_text(&d), " 🦀 ClawGate  |  Backends: 2  |  Req: 0  | [1] Overview ◀  [2] Log  [3] Config ");
    d.status_msg = "hello".to_string();
    d.blocked_requests = 3;
    d.total_request = 12;
    d.current_tab = 1;
    assert_eq!(title_text(&d), " 🦀 ClawGate  |  Req: 12  |  Blocked: 3  |  hello  | [1] Overview  [2] Log ◀  [3] Config ");
    assert_eq!(hint_text(&d), " Tab: switch view  |  /: search  |  q quit");
    d.search_mode = true;
    d.search_query = "api".to_string();
    assert_eq!(hint_text(&d), " ESC: cancel  |  Backspace: delete  |  Searching: api_");
    d.current_tab = 2;
    assert_eq!(hint_text(&d), " Tab: switch view  |  q quit");
}

#[test]
fn group_headers_and_short_ids() {
    assert_eq!(group_header("api", 1), " 🗂  api (1 backend) ");
    assert_eq!(group_header("web", 3), " 🗂  web (3 backends) ");
    assert_eq!(group_header("x", 0), " 🗂  x (0 backends) ");
    assert_eq!(short_request_id("0123456789abcdef"), "01234567");
    assert_eq!(short_request_id("abc"), "abc");
    assert_eq!(short_request_id("ééééééééé"), "éééééééé");
}

#[test]
fn overview_box_texts() {
    assert_eq!(box_title("http://h:4001", true, true), " ⛔ :4001 ");
    assert_eq!(box_title("http://h:4001", false, true), " 📌 :4001 ");
    assert_eq!(box_title("http://h:4001", false, false), " 🖥  :4001 ");
    assert_eq!(status_line(BackendStatus::Down), ("🔴 DOWN", Shade::Red));
    assert_eq!(status_line(BackendStatus::Idle), ("⬜ idle", Shade::DarkGray));
    assert_eq!(border_for(true, true, BackendStatus::Down), (Shade::Magenta, true));
    assert_eq!(border_for(false, true, BackendStatus::Active), (Shade::Green, true));
    assert_eq!(border_for(false, false, BackendStatus::Idle), (Shade::White, false));
    assert_eq!(checked_line(Some(1_000_000_000), 4_500_000_000), "  checked 3s ago");
    assert_eq!(checked_line(Some(9), 3), "  checked 0s ago");
    assert_eq!(checked_line(None, 3), "  not checked");
}
