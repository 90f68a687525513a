use vstd::prelude::*;
use crate::dashboard::{circuit_name, BackendInfo};

verus! {

/// One row of the `backend_state` table.
pub struct PersistedBackend {
    pub url: String,
    pub request_count: i64,
    pub error_count: i64,
    pub failed_count: i64,
    pub circuit_state: String,
}

/// Is `row` what is saved of backend `b`? The counters are stored as SQLite integers
/// (`as i64`) and the circuit state by its name.
pub open spec fn row_of(row: PersistedBackend, b: BackendInfo) -> bool {
    &&& row.url@ == b.url@
    &&& row.request_count == b.request_count as i64
    &&& row.error_count == b.error_count as i64
    &&& row.failed_count == b.failed_count as i64
    &&& row.circuit_state@ == circuit_name(b.circuit_state)
}

/// The rows that saving the dashboard writes, one per backend in order.
pub fn persisted_rows(backends: &Vec<BackendInfo>) -> (r: Vec<PersistedBackend>)
    ensures
        r@.len() == backends@.len(),
        forall|i: int| 0 <= i < r@.len() ==> row_of(#[trigger] r@[i], backends@[i]),
{
    let mut out: Vec<PersistedBackend> = Vec::new();
    let mut i: usize = 0;
    while i < backends.len()
        invariant
            i <= backends@.len(),
            out@.len() == i,
            forall|k: int| 0 <= k < i ==> row_of(#[trigger] out@[k], backends@[k]),
        decreases backends@.len() - i,
    {
        let b = &backends[i];
        out.push(PersistedBackend {
            url: b.url.clone(),
            request_count: b.request_count as i64,
            error_count: b.error_count as i64,
            failed_count: b.failed_count as i64,
            circuit_state: String::from_str(b.circuit_state.to_db_string()),
        });
        i = i + 1;
    }
    out
}

} // verus!
