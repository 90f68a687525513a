use vstd::prelude::*;

verus! {

/// When a file was last modified, as an offset from the Unix epoch: whether it lies
/// before the epoch, and how far from it.
#[derive(Clone, Copy, Debug, PartialEq, Eq, Structural)]
pub struct FileStamp {
    pub before_epoch: bool,
    pub secs: u64,
    pub nanos: u32,
}

/// Must the TLS certificate be reloaded? Exactly when the certificate file or the key
/// file was modified since it was last seen.
pub fn cert_reload_needed(last_cert: FileStamp, last_key: FileStamp, cert: FileStamp, key: FileStamp) -> (r: bool)
    ensures
        r == (cert != last_cert || key != last_key),
{
    cert != last_cert || key != last_key
}

/// The modification times the certificate watcher last saw.
#[derive(Clone, Copy, Debug, PartialEq, Eq, Structural)]
pub struct CertWatch {
    pub cert: FileStamp,
    pub key: FileStamp,
}

impl CertWatch {
    /// One poll of the two files: reload exactly when either differs from what was last
    /// seen; what is seen now is remembered.
    pub fn poll(&mut self, cert: FileStamp, key: FileStamp) -> (r: bool)
        ensures
            r == (CertWatch { cert, key } != *old(self)),
            *final(self) == (CertWatch { cert, key }),
    {
        let r = cert_reload_needed(self.cert, self.key, cert, key);
        self.cert = cert;
        self.key = key;
        r
    }
}

/// The reload decisions of a run of polls, in order, starting from `initial`.
pub open spec fn watch_run(initial: CertWatch, polls: Seq<CertWatch>) -> Seq<bool>
    decreases polls.len(),
{
    if polls.len() == 0 {
        Seq::empty()
    } else {
        let before = if polls.len() == 1 { initial } else { polls[polls.len() - 2] };
        watch_run(initial, polls.drop_last()).push(polls.last() != before)
    }
}

/// Across polls, the certificate is reloaded at exactly those polls whose stamps differ
/// from the previous poll's (or, at the first poll, from those seen at the start), and at
/// no other.
pub proof fn law_reload_exactly_on_change(initial: CertWatch, polls: Seq<CertWatch>, k: int)
    requires
        0 <= k < polls.len(),
    ensures
        watch_run(initial, polls).len() == polls.len(),
        watch_run(initial, polls)[k] == (polls[k] != if k == 0 { initial } else { polls[k - 1] }),
    decreases polls.len(),
{
    let prev = polls.drop_last();
    let before = if polls.len() == 1 { initial } else { polls[polls.len() - 2] };
    assert(watch_run(initial, polls) == watch_run(initial, prev).push(polls.last() != before));
    if polls.len() == 1 {
        assert(watch_run(initial, prev) == Seq::<bool>::empty());
    } else {
        law_reload_exactly_on_change(initial, prev, 0);
        if k < polls.len() - 1 {
            law_reload_exactly_on_change(initial, prev, k);
            assert(prev[k] == polls[k]);
            if k > 0 {
                assert(prev[k - 1] == polls[k - 1]);
            }
        }
    }
}

} // verus!
