use vstd::prelude::*;
use std::collections::VecDeque;
use crate::middleware::ip_rules::Ip;

verus! {

/// `std::time::Instant`, carried opaquely as the origin of a bucket's clock.
#[verifier::external_type_specification]
#[verifier::external_body]
pub struct ExInstant(std::time::Instant);

/// `Instant::now()`: the current reading of the monotonic clock. Nothing is stated of it.
#[verifier::external_body]
fn instant_now() -> std::time::Instant {
    std::time::Instant::now()
}

/// `Instant::elapsed()` in nanoseconds: the time since `origin` on the monotonic clock.
/// It depends on the moment of the call, so nothing is stated of it.
#[verifier::external_body]
fn nanos_since(origin: &std::time::Instant) -> u64 {
    origin.elapsed().as_nanos() as u64
}

/// Nanoseconds from `t` to `now`; a reading before `t` counts as zero, as
/// `Instant::duration_since` saturates.
pub open spec fn elapsed_ns(now: u64, t: u64) -> int {
    if now >= t {
        now - t
    } else {
        0
    }
}

/// A timestamp is stale once more than the window has passed since it.
pub open spec fn stale(now: u64, t: u64, window_secs: u64) -> bool {
    elapsed_ns(now, t) > window_secs * 1_000_000_000
}

/// The timestamps left after dropping stale ones from the front.
pub open spec fn evicted(ts: Seq<u64>, now: u64, window_secs: u64) -> Seq<u64>
    decreases ts.len(),
{
    if ts.len() > 0 && stale(now, ts[0], window_secs) {
        evicted(ts.drop_first(), now, window_secs)
    } else {
        ts
    }
}

/// One request at time `now`: drop stale timestamps, then window_step it (recording `now`)
/// when fewer than `limit` remain.
pub open spec fn window_step(ts: Seq<u64>, limit: u64, window_secs: u64, now: u64) -> (bool, Seq<u64>) {
    let e = evicted(ts, now, window_secs);
    if e.len() < (limit as usize) as nat {
        (true, e.push(now))
    } else {
        (false, e)
    }
}

/// Sliding window of request timestamps for a single IP. Timestamps are nanoseconds of
/// the bucket's own monotonic clock, which starts when the bucket is made.
pub struct RateBucket {
    pub timestamps: VecDeque<u64>,
    pub origin: std::time::Instant,
}

fn is_stale(now: u64, t: u64, window_secs: u64) -> (r: bool)
    ensures
        r == stale(now, t, window_secs),
{
    let elapsed: u64 = if now >= t { now - t } else { 0 };
    (elapsed as u128) > (window_secs as u128) * 1_000_000_000u128
}

impl RateBucket {
    /// An empty bucket.
    pub fn new() -> (r: Self)
        ensures
            r.timestamps@ == Seq::<u64>::empty(),
    {
        RateBucket { timestamps: VecDeque::new(), origin: instant_now() }
    }

    /// Drops the stale timestamps as of time `now`.
    pub fn evict_stale_at(&mut self, window_secs: u64, now: u64)
        ensures
            final(self).timestamps@ == evicted(old(self).timestamps@, now, window_secs),
            final(self).origin == old(self).origin,
    {
        while self.timestamps.len() > 0 && is_stale(now, self.timestamps[0], window_secs)
            invariant
                evicted(self.timestamps@, now, window_secs) == evicted(old(self).timestamps@, now, window_secs),
                self.origin == old(self).origin,
            decreases self.timestamps@.len(),
        {
            self.timestamps.pop_front();
        }
    }

    /// Handles one request at time `now`: returns true if under the limit (and records
    /// the request), false otherwise.
    pub fn is_allowed_at(&mut self, limit: u64, window_secs: u64, now: u64) -> (r: bool)
        ensures
            (r, final(self).timestamps@) == window_step(old(self).timestamps@, limit, window_secs, now),
            final(self).origin == old(self).origin,
    {
        self.evict_stale_at(window_secs, now);
        if self.timestamps.len() < limit as usize {
            self.timestamps.push_back(now);
            true
        } else {
            false
        }
    }

    /// Returns true if under the limit (and records the request), false otherwise.
    /// The request is timed by the bucket's clock; whatever it read, the outcome is the
    /// one `window_step` gives at that time.
    pub fn is_allowed(&mut self, limit: u64, window_secs: u64) -> (r: bool)
        ensures
            exists|now: u64| (r, final(self).timestamps@) == window_step(old(self).timestamps@, limit, window_secs, now),
            final(self).origin == old(self).origin,
    {
        let now = nanos_since(&self.origin);
        self.is_allowed_at(limit, window_secs, now)
    }

    /// Drops the stale timestamps, as of the bucket's clock.
    pub fn evict_stale(&mut self, window_secs: u64)
        ensures
            exists|now: u64| final(self).timestamps@ == evicted(old(self).timestamps@, now, window_secs),
            final(self).origin == old(self).origin,
    {
        let now = nanos_since(&self.origin);
        self.evict_stale_at(window_secs, now);
    }
}

/// The key under which an address's bucket is kept: the family tag (4 or 6) and the
/// address number.
pub open spec fn ip_key(ip: Ip) -> (u8, u128) {
    match ip {
        Ip::V4(a) => (4u8, a as u128),
        Ip::V6(a) => (6u8, a),
    }
}

fn key_of(ip: Ip) -> (r: (u8, u128))
    ensures
        r == ip_key(ip),
{
    match ip {
        Ip::V4(a) => (4u8, a as u128),
        Ip::V6(a) => (6u8, a),
    }
}

/// `dashmap::DashMap`, the concurrent map that holds the buckets.
#[verifier::external_type_specification]
#[verifier::external_body]
#[verifier::reject_recursive_types(K)]
#[verifier::reject_recursive_types(V)]
#[verifier::reject_recursive_types(S)]
pub struct ExDashMap<K, V, S>(dashmap::DashMap<K, V, S>);

/// The map from address key to bucket.
pub type BucketMap = dashmap::DashMap<(u8, u128), RateBucket>;

/// The contents of a bucket map: for each key, the timestamps of its bucket.
pub uninterp spec fn bucket_contents(m: BucketMap) -> Map<(u8, u128), Seq<u64>>;

/// `DashMap::new()`: an empty map.
#[verifier::external_body]
fn bucket_map_new() -> (r: BucketMap)
    ensures
        bucket_contents(r).dom().is_empty(),
{
    dashmap::DashMap::new()
}

/// `DashMap::remove`: takes the bucket of `key` out of the map, if there is one.
#[verifier::external_body]
fn bucket_map_take(m: &mut BucketMap, key: (u8, u128)) -> (r: Option<RateBucket>)
    ensures
        bucket_contents(*final(m)) == bucket_contents(*old(m)).remove(key),
        r is Some == bucket_contents(*old(m)).contains_key(key),
        r matches Some(b) ==> b.timestamps@ == bucket_contents(*old(m))[key],
{
    match m.remove(&key) {
        Some((_, b)) => Some(b),
        None => None,
    }
}

/// `DashMap::insert`: puts `bucket` under `key`, replacing any bucket there.
#[verifier::external_body]
fn bucket_map_put(m: &mut BucketMap, key: (u8, u128), bucket: RateBucket)
    ensures
        bucket_contents(*final(m)) == bucket_contents(*old(m)).insert(key, bucket.timestamps@),
{
    m.insert(key, bucket);
}

/// The keys of the map, each once, in the map's (unspecified) iteration order.
#[verifier::external_body]
fn bucket_map_keys(m: &BucketMap) -> (r: Vec<(u8, u128)>)
    ensures
        r@.to_set() == bucket_contents(*m).dom(),
        r@.no_duplicates(),
{
    m.iter().map(|e| *e.key()).collect()
}

/// The timestamps of a key's bucket, empty when the map has no bucket for it.
pub open spec fn bucket_of(contents: Map<(u8, u128), Seq<u64>>, key: (u8, u128)) -> Seq<u64> {
    if contents.contains_key(key) {
        contents[key]
    } else {
        Seq::empty()
    }
}

/// The buckets after an eviction at `now`: each bucket keeps its timestamps that are not
/// stale at `now`, and buckets left empty are dropped.
pub open spec fn evicted_buckets(
    contents: Map<(u8, u128), Seq<u64>>,
    now: u64,
    window_secs: u64,
) -> Map<(u8, u128), Seq<u64>> {
    Map::new(
        |k: (u8, u128)| contents.contains_key(k) && evicted(contents[k], now, window_secs).len() > 0,
        |k: (u8, u128)| evicted(contents[k], now, window_secs),
    )
}

/// Per-IP rate limiter: one sliding-window bucket per client address. All buckets are
/// timed by the limiter's clock: timestamps are nanoseconds since `origin`.
pub struct RateLimiter {
    pub map: BucketMap,
    pub limit: u64,
    pub window_secs: u64,
    pub origin: std::time::Instant,
}

impl RateLimiter {
    /// The buckets, by key (each bucket's timestamps).
    pub open spec fn contents(&self) -> Map<(u8, u128), Seq<u64>> {
        bucket_contents(self.map)
    }

    /// A limiter with no buckets, its clock starting now.
    pub fn new(limit: u64, window_secs: u64) -> (r: Self)
        ensures
            r.contents() == Map::<(u8, u128), Seq<u64>>::empty(),
            r.limit == limit,
            r.window_secs == window_secs,
    {
        RateLimiter { map: bucket_map_new(), limit, window_secs, origin: instant_now() }
    }

    /// Records one request from `ip` at time `now` in its bucket (made empty on first
    /// use) and says whether it was within the limit, as `window_step` gives it. Other
    /// buckets are untouched.
    pub fn check_and_record_at(&mut self, ip: Ip, now: u64) -> (r: bool)
        ensures
            final(self).limit == old(self).limit,
            final(self).window_secs == old(self).window_secs,
            final(self).origin == old(self).origin,
            ({
                let (ok, ts) = window_step(bucket_of(old(self).contents(), ip_key(ip)), old(self).limit, old(self).window_secs, now);
                &&& r == ok
                &&& final(self).contents() == old(self).contents().insert(ip_key(ip), ts)
            }),
    {
        let key = key_of(ip);
        let mut bucket = match bucket_map_take(&mut self.map, key) {
            Some(b) => b,
            None => RateBucket::new(),
        };
        let ghost before = bucket.timestamps@;
        let allowed = bucket.is_allowed_at(self.limit, self.window_secs, now);
        proof {
            assert(before == bucket_of(old(self).contents(), key));
        }
        bucket_map_put(&mut self.map, key, bucket);
        proof {
            assert(bucket_contents(self.map) =~= old(self).contents().insert(key, bucket.timestamps@));
        }
        allowed
    }

    /// Records one request from `ip` at the limiter's clock reading; whatever the clock
    /// read, the outcome is the one `window_step` gives at that time.
    pub fn check_and_record(&mut self, ip: Ip) -> (r: bool)
        ensures
            final(self).limit == old(self).limit,
            final(self).window_secs == old(self).window_secs,
            final(self).origin == old(self).origin,
            exists|now: u64| #![trigger window_step(bucket_of(old(self).contents(), ip_key(ip)), old(self).limit, old(self).window_secs, now)] {
                let (ok, ts) = window_step(bucket_of(old(self).contents(), ip_key(ip)), old(self).limit, old(self).window_secs, now);
                &&& r == ok
                &&& final(self).contents() == old(self).contents().insert(ip_key(ip), ts)
            },
    {
        let now = nanos_since(&self.origin);
        self.check_and_record_at(ip, now)
    }

    /// Drops, as of time `now`, the stale timestamps of every bucket, and the buckets
    /// left empty.
    pub fn evict_stale_at(&mut self, now: u64)
        ensures
            final(self).limit == old(self).limit,
            final(self).window_secs == old(self).window_secs,
            final(self).origin == old(self).origin,
            final(self).contents() == evicted_buckets(old(self).contents(), now, old(self).window_secs),
    {
        let keys = bucket_map_keys(&self.map);
        let ghost old_contents = old(self).contents();
        let ghost w = self.window_secs;
        let mut i: usize = 0;
        while i < keys.len()
            invariant
                i <= keys@.len(),
                keys@.to_set() == old_contents.dom(),
                keys@.no_duplicates(),
                self.limit == old(self).limit,
                self.window_secs == w,
                w == old(self).window_secs,
                self.origin == old(self).origin,
                self.contents().dom().subset_of(old_contents.dom()),
                forall|j: int| i <= j < keys@.len() ==> {
                    &&& self.contents().contains_key(#[trigger] keys@[j])
                    &&& self.contents()[keys@[j]] == old_contents[keys@[j]]
                },
                forall|j: int| 0 <= j < i ==> {
                    let k = #[trigger] keys@[j];
                    &&& self.contents().contains_key(k) == (evicted(old_contents[k], now, w).len() > 0)
                    &&& self.contents().contains_key(k) ==> self.contents()[k] == evicted(old_contents[k], now, w)
                },
            decreases keys@.len() - i,
        {
            let key = keys[i];
            proof {
                assert(keys@[i as int] == key);
            }
            let ghost before_contents = self.contents();
            match bucket_map_take(&mut self.map, key) {
                Some(mut b) => {
                    b.evict_stale_at(self.window_secs, now);
                    if b.timestamps.len() > 0 {
                        bucket_map_put(&mut self.map, key, b);
                    }
                },
                None => {},
            }
            proof {
                assert forall|j: int| i < j < keys@.len() implies {
                    &&& self.contents().contains_key(#[trigger] keys@[j])
                    &&& self.contents()[keys@[j]] == old_contents[keys@[j]]
                } by {
                    assert(keys@[j] != key);
                }
                assert forall|j: int| 0 <= j < i implies {
                    let k = #[trigger] keys@[j];
                    &&& self.contents().contains_key(k) == (evicted(old_contents[k], now, w).len() > 0)
                    &&& self.contents().contains_key(k) ==> self.contents()[k] == evicted(old_contents[k], now, w)
                } by {
                    assert(keys@[j] != key);
                    assert(before_contents.contains_key(keys@[j]) == self.contents().contains_key(keys@[j]));
                }
            }
            i = i + 1;
        }
        proof {
            assert forall|k: (u8, u128)| #[trigger] old_contents.contains_key(k) implies {
                &&& self.contents().contains_key(k) == (evicted(old_contents[k], now, w).len() > 0)
                &&& self.contents().contains_key(k) ==> self.contents()[k] == evicted(old_contents[k], now, w)
            } by {
                assert(keys@.to_set().contains(k));
                let j = keys@.index_of(k);
                assert(keys@[j] == k);
            }
            assert(self.contents() =~= evicted_buckets(old_contents, now, w));
        }
    }

    /// Drops the stale timestamps of every bucket, and the buckets left empty, as of one
    /// reading of the limiter's clock; whatever it read, the buckets are those
    /// `evicted_buckets` gives at that time.
    pub fn evict_stale(&mut self)
        ensures
            final(self).limit == old(self).limit,
            final(self).window_secs == old(self).window_secs,
            final(self).origin == old(self).origin,
            exists|now: u64| #[trigger] evicted_buckets(old(self).contents(), now, old(self).window_secs) == final(self).contents(),
    {
        let now = nanos_since(&self.origin);
        self.evict_stale_at(now);
    }
}

/// Eviction only removes timestamps.
pub proof fn lemma_evicted_len(ts: Seq<u64>, now: u64, window_secs: u64)
    ensures
        evicted(ts, now, window_secs).len() <= ts.len(),
    decreases ts.len(),
{
    if ts.len() > 0 && stale(now, ts[0], window_secs) {
        lemma_evicted_len(ts.drop_first(), now, window_secs);
    }
}

/// A bucket never holds more than `limit` timestamps: admitting a request keeps the
/// count at or below the limit.
pub proof fn law_bucket_never_exceeds_limit(ts: Seq<u64>, limit: u64, window_secs: u64, now: u64)
    requires
        ts.len() <= (limit as usize) as nat,
    ensures
        window_step(ts, limit, window_secs, now).1.len() <= (limit as usize) as nat,
{
    lemma_evicted_len(ts, now, window_secs);
}

/// While no recorded request has left the window, nothing is evicted, so a request is
/// admitted exactly when fewer than `limit` are recorded — and then it is recorded.
pub proof fn law_admits_while_under_limit(ts: Seq<u64>, limit: u64, window_secs: u64, now: u64)
    requires
        forall|i: int| 0 <= i < ts.len() ==> !stale(now, #[trigger] ts[i], window_secs),
    ensures
        window_step(ts, limit, window_secs, now).0 == (ts.len() < (limit as usize) as nat),
        window_step(ts, limit, window_secs, now).0 ==> window_step(ts, limit, window_secs, now).1 == ts.push(now),
{
    if ts.len() > 0 {
        assert(!stale(now, ts[0], window_secs));
    }
}

/// Is a sequence of clock readings in non-decreasing order?
pub open spec fn ascending(ts: Seq<u64>) -> bool {
    forall|a: int, b: int| 0 <= a <= b < ts.len() ==> ts[a] <= ts[b]
}

/// The timestamps of `ts` that are not stale at `now`, in order.
pub open spec fn within_window(ts: Seq<u64>, now: u64, window_secs: u64) -> Seq<u64>
    decreases ts.len(),
{
    if ts.len() == 0 {
        ts
    } else if stale(now, ts[0], window_secs) {
        within_window(ts.drop_first(), now, window_secs)
    } else {
        seq![ts[0]] + within_window(ts.drop_first(), now, window_secs)
    }
}

/// The decisions, in order, and the final timestamps of a bucket that starts empty and
/// is used at each clock reading of `nows`: for a request (`requests[k]`) the request is
/// judged and possibly recorded; otherwise stale timestamps are evicted and the decision
/// is `false` (nothing admitted).
pub open spec fn run_bucket(nows: Seq<u64>, requests: Seq<bool>, limit: u64, window_secs: u64) -> (Seq<bool>, Seq<u64>)
    decreases nows.len(),
{
    if nows.len() == 0 {
        (Seq::empty(), Seq::empty())
    } else {
        let prev = run_bucket(nows.drop_last(), requests, limit, window_secs);
        if requests[nows.len() - 1] {
            let step = window_step(prev.1, limit, window_secs, nows.last());
            (prev.0.push(step.0), step.1)
        } else {
            (prev.0.push(false), evicted(prev.1, nows.last(), window_secs))
        }
    }
}

/// The readings, among the first `k`, at which a request was admitted (`ds[j]`).
pub open spec fn admitted_upto(nows: Seq<u64>, ds: Seq<bool>, k: int) -> Seq<u64>
    decreases k,
{
    if k <= 0 {
        Seq::empty()
    } else {
        let p = admitted_upto(nows, ds, k - 1);
        if ds[k - 1] {
            p.push(nows[k - 1])
        } else {
            p
        }
    }
}

proof fn lemma_evicted_suffix(ts: Seq<u64>, now: u64, window_secs: u64)
    ensures
        exists|m: int| 0 <= m <= ts.len() && #[trigger] ts.skip(m) == evicted(ts, now, window_secs),
    decreases ts.len(),
{
    if ts.len() > 0 && stale(now, ts[0], window_secs) {
        lemma_evicted_suffix(ts.drop_first(), now, window_secs);
        let m = choose|m: int| 0 <= m <= ts.drop_first().len() && #[trigger] ts.drop_first().skip(m) == evicted(ts.drop_first(), now, window_secs);
        assert(ts.skip(m + 1) =~= ts.drop_first().skip(m));
    } else {
        assert(ts.skip(0) =~= ts);
    }
}

proof fn lemma_within_window_all_fresh(ts: Seq<u64>, now: u64, window_secs: u64)
    requires
        forall|k: int| 0 <= k < ts.len() ==> !stale(now, #[trigger] ts[k], window_secs),
    ensures
        within_window(ts, now, window_secs) == ts,
    decreases ts.len(),
{
    if ts.len() > 0 {
        assert(forall|k: int| 0 <= k < ts.drop_first().len() ==> ts.drop_first()[k] == ts[k + 1]);
        lemma_within_window_all_fresh(ts.drop_first(), now, window_secs);
        assert(seq![ts[0]] + ts.drop_first() =~= ts);
    }
}

proof fn lemma_evicted_is_window(ts: Seq<u64>, now: u64, window_secs: u64)
    requires
        ascending(ts),
    ensures
        evicted(ts, now, window_secs) == within_window(ts, now, window_secs),
    decreases ts.len(),
{
    if ts.len() > 0 {
        let rest = ts.drop_first();
        assert(ascending(rest)) by {
            assert forall|a: int, b: int| 0 <= a <= b < rest.len() implies rest[a] <= rest[b] by {
                assert(rest[a] == ts[a + 1] && rest[b] == ts[b + 1]);
            }
        }
        if stale(now, ts[0], window_secs) {
            lemma_evicted_is_window(rest, now, window_secs);
        } else {
            assert forall|k: int| 0 <= k < rest.len() implies !stale(now, #[trigger] rest[k], window_secs) by {
                assert(rest[k] == ts[k + 1]);
                assert(ts[0] <= ts[k + 1]);
            }
            lemma_within_window_all_fresh(rest, now, window_secs);
            assert(seq![ts[0]] + rest =~= ts);
        }
    }
}

proof fn lemma_window_narrows(ts: Seq<u64>, t1: u64, t2: u64, window_secs: u64)
    requires
        t1 <= t2,
    ensures
        within_window(within_window(ts, t1, window_secs), t2, window_secs) == within_window(ts, t2, window_secs),
    decreases ts.len(),
{
    if ts.len() > 0 {
        let rest = ts.drop_first();
        lemma_window_narrows(rest, t1, t2, window_secs);
        if !stale(t1, ts[0], window_secs) {
            let x = within_window(rest, t1, window_secs);
            assert((seq![ts[0]] + x).drop_first() =~= x);
            assert((seq![ts[0]] + x)[0] == ts[0]);
        }
    }
}

proof fn lemma_window_push(ts: Seq<u64>, x: u64, now: u64, window_secs: u64)
    ensures
        within_window(ts.push(x), now, window_secs) == if stale(now, x, window_secs) {
            within_window(ts, now, window_secs)
        } else {
            within_window(ts, now, window_secs).push(x)
        },
    decreases ts.len(),
{
    if ts.len() == 0 {
        assert(ts.push(x).drop_first() =~= Seq::<u64>::empty());
        assert(ts.push(x)[0] == x);
        assert(within_window(Seq::<u64>::empty(), now, window_secs) == Seq::<u64>::empty());
        assert(seq![x] + Seq::<u64>::empty() =~= Seq::<u64>::empty().push(x));
        assert(ts =~= Seq::<u64>::empty());
    } else {
        assert(ts.push(x).drop_first() =~= ts.drop_first().push(x));
        assert(ts.push(x)[0] == ts[0]);
        lemma_window_push(ts.drop_first(), x, now, window_secs);
        if !stale(now, ts[0], window_secs) && !stale(now, x, window_secs) {
            assert(seq![ts[0]] + within_window(ts.drop_first(), now, window_secs).push(x)
                =~= (seq![ts[0]] + within_window(ts.drop_first(), now, window_secs)).push(x));
        }
    }
}

proof fn lemma_admitted_same(a: Seq<u64>, da: Seq<bool>, b: Seq<u64>, db: Seq<bool>, k: int)
    requires
        0 <= k,
        forall|j: int| 0 <= j < k ==> a[j] == b[j] && da[j] == db[j],
    ensures
        admitted_upto(a, da, k) == admitted_upto(b, db, k),
    decreases k,
{
    if k > 0 {
        lemma_admitted_same(a, da, b, db, k - 1);
    }
}

proof fn lemma_run_bucket(nows: Seq<u64>, requests: Seq<bool>, limit: u64, window_secs: u64)
    requires
        ascending(nows),
        nows.len() > 0,
        requests.len() >= nows.len(),
    ensures
        ({
            let (ds, ts) = run_bucket(nows, requests, limit, window_secs);
            &&& ds.len() == nows.len()
            &&& ts == within_window(admitted_upto(nows, ds, nows.len() as int), nows.last(), window_secs)
            &&& ts.len() <= (limit as usize) as nat
            &&& ascending(ts)
            &&& forall|k: int| 0 <= k < ts.len() ==> ts[k] <= nows.last()
        }),
    decreases nows.len(),
{
    let n = nows.len() as int;
    let nd = nows.drop_last();
    let t = nows.last();
    let prev = run_bucket(nd, requests, limit, window_secs);
    let (ds, ts) = prev;
    let step = window_step(ts, limit, window_secs, t);
    let ok = if requests[n - 1] { step.0 } else { false };
    let ts2 = if requests[n - 1] { step.1 } else { evicted(ts, t, window_secs) };
    let ds2 = ds.push(ok);
    assert(run_bucket(nows, requests, limit, window_secs) == (ds2, ts2));
    assert(!stale(t, t, window_secs));
    if n == 1 {
        assert(ds.len() == 0 && ts.len() == 0);
        assert(evicted(ts, t, window_secs) == ts);
        assert(admitted_upto(nows, ds2, 0) == Seq::<u64>::empty());
        lemma_window_push(Seq::<u64>::empty(), t, t, window_secs);
        assert(within_window(Seq::<u64>::empty(), t, window_secs) == Seq::<u64>::empty());
    } else {
        assert(ascending(nd));
        lemma_run_bucket(nd, requests, limit, window_secs);
        let tp = nd.last();
        assert(tp <= t);
        let a = admitted_upto(nd, ds, n - 1);
        lemma_admitted_same(nows, ds2, nd, ds, n - 1);
        lemma_evicted_is_window(ts, t, window_secs);
        lemma_window_narrows(a, tp, t, window_secs);
        lemma_window_push(a, t, t, window_secs);
        lemma_evicted_len(ts, t, window_secs);
        lemma_evicted_suffix(ts, t, window_secs);
        let m = choose|m: int| 0 <= m <= ts.len() && #[trigger] ts.skip(m) == evicted(ts, t, window_secs);
        let e = evicted(ts, t, window_secs);
        assert(forall|k: int| 0 <= k < e.len() ==> e[k] == ts[k + m]);
        assert(ascending(ts2)) by {
            assert forall|x: int, y: int| 0 <= x <= y < ts2.len() implies ts2[x] <= ts2[y] by {
                if y < e.len() {
                    assert(e[x] == ts[x + m] && e[y] == ts[y + m]);
                } else {
                    if x < e.len() {
                        assert(e[x] == ts[x + m]);
                    }
                }
            }
        }
        assert forall|k: int| 0 <= k < ts2.len() implies ts2[k] <= t by {
            if k < e.len() {
                assert(e[k] == ts[k + m]);
            }
        }
    }
}

proof fn lemma_run_bucket_prefix(nows: Seq<u64>, requests: Seq<bool>, limit: u64, window_secs: u64, k: int)
    requires
        0 <= k <= nows.len(),
    ensures
        run_bucket(nows, requests, limit, window_secs).0.len() == nows.len(),
        run_bucket(nows.take(k), requests, limit, window_secs).0 == run_bucket(nows, requests, limit, window_secs).0.take(k),
    decreases nows.len(),
{
    if nows.len() == 0 {
        assert(nows.take(k) =~= nows);
        assert(run_bucket(nows, requests, limit, window_secs).0.take(k) =~= Seq::<bool>::empty());
    } else if k == nows.len() {
        lemma_run_bucket_prefix(nows.drop_last(), requests, limit, window_secs, 0);
        assert(nows.take(k) =~= nows);
        assert(run_bucket(nows, requests, limit, window_secs).0.take(k) =~= run_bucket(nows, requests, limit, window_secs).0);
    } else {
        lemma_run_bucket_prefix(nows.drop_last(), requests, limit, window_secs, k);
        assert(nows.drop_last().take(k) =~= nows.take(k));
        assert(run_bucket(nows, requests, limit, window_secs).0.take(k)
            =~= run_bucket(nows.drop_last(), requests, limit, window_secs).0.take(k));
    }
}

/// The sliding window: whatever the clock readings (non-decreasing, as a monotonic clock
/// gives them) and however requests and evictions interleave, a bucket that starts
/// empty has, at each use, admitted at most `limit` requests within the window before it.
pub proof fn law_sliding_window(nows: Seq<u64>, requests: Seq<bool>, limit: u64, window_secs: u64, i: int)
    requires
        ascending(nows),
        requests.len() == nows.len(),
        0 <= i < nows.len(),
    ensures
        within_window(admitted_upto(nows, run_bucket(nows, requests, limit, window_secs).0, i + 1), nows[i], window_secs).len()
            <= (limit as usize) as nat,
{
    let p = nows.take(i + 1);
    assert(ascending(p));
    lemma_run_bucket(p, requests, limit, window_secs);
    lemma_run_bucket_prefix(nows, requests, limit, window_secs, i + 1);
    let d = run_bucket(nows, requests, limit, window_secs).0;
    lemma_admitted_same(p, run_bucket(p, requests, limit, window_secs).0, nows, d, i + 1);
}

/// One step keeps a bucket within its limit, and with a limit of zero admits nothing and
/// records nothing; when no timestamp lies after the reading (as with a monotonic
/// clock), it also keeps the timestamps in order.
pub proof fn law_window_step_keeps_order(ts: Seq<u64>, limit: u64, window_secs: u64, now: u64)
    requires
        ts.len() <= (limit as usize) as nat,
    ensures
        window_step(ts, limit, window_secs, now).1.len() <= (limit as usize) as nat,
        limit == 0 ==> !window_step(ts, limit, window_secs, now).0
            && window_step(ts, limit, window_secs, now).1 == evicted(ts, now, window_secs),
        ascending(ts) && (forall|k: int| 0 <= k < ts.len() ==> ts[k] <= now) ==> ascending(
            window_step(ts, limit, window_secs, now).1,
        ),
{
    lemma_evicted_len(ts, now, window_secs);
    lemma_evicted_suffix(ts, now, window_secs);
    let m = choose|m: int| 0 <= m <= ts.len() && #[trigger] ts.skip(m) == evicted(ts, now, window_secs);
    let e = evicted(ts, now, window_secs);
    let r = window_step(ts, limit, window_secs, now).1;
    assert(forall|k: int| 0 <= k < e.len() ==> e[k] == ts[k + m]);
    if ascending(ts) && (forall|k: int| 0 <= k < ts.len() ==> ts[k] <= now) {
        assert forall|x: int, y: int| 0 <= x <= y < r.len() implies r[x] <= r[y] by {
            if y < e.len() {
                assert(e[x] == ts[x + m] && e[y] == ts[y + m]);
            } else if x < e.len() {
                assert(e[x] == ts[x + m]);
            }
        }
    }
}

} // verus!
