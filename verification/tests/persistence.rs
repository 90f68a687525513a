use clawgate::dashboard::{BackendInfo, CircuitState};
use clawgate::persistence::persisted_rows;
use std::collections::VecDeque;

fn info(url: &str, circuit: CircuitState) -> BackendInfo {
    BackendInfo {
        url: url.to_string(),
        weight: 1,
        request_count: 12,
        last_hit: None,
        health_path: "/".to_string(),
        is_healthy: true,
        last_checked: None,
        failed_count: 2,
        circuit_state: circuit,
        manually_disabled: false,
        active_connections: 0,
        route_label: "default".to_string(),
        error_count: 3,
        latency_history: VecDeque::new(),
    }
}

#[test]
fn one_row_per_backend_with_circuit_name() {
    let rows = persisted_rows(&vec![
        info("a", CircuitState::Closed),
        info("b", CircuitState::Open { tripped_at: 7 }),
        info("c", CircuitState::HalfOpen),
    ]);
    assert_eq!(rows.len(), 3);
    assert_eq!(rows[0].url, "a");
    assert_eq!((rows[0].request_count, rows[0].error_count, rows[0].failed_count), (12, 3, 2));
    assert_eq!(rows[0].circuit_state, "closed");
    assert_eq!(rows[1].circuit_state, "open");
    assert_eq!(rows[2].circuit_state, "half_open");
}

#[test]
fn counters_beyond_i64_wrap_as_sqlite_integers() {
    let mut b = info("a", CircuitState::Closed);
    b.request_count = u64::MAX;
    assert_eq!(persisted_rows(&vec![b])[0].request_count, -1);
}
