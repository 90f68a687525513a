use clawgate::middleware::ip_rules::parse_ip;
use clawgate::rate_limiter::{RateBucket, RateLimiter};
use std::time::{Duration, Instant};

fn wait(ms: u64) {
    let start = Instant::now();
    while start.elapsed() < Duration::from_millis(ms) {}
}

#[test]
fn bucket_allows_under_limit() {
    let mut bucket = RateBucket::new();
    assert!(bucket.is_allowed(3, 60));
    assert!(bucket.is_allowed(3, 60));
    assert!(bucket.is_allowed(3, 60));
}

#[test]
fn bucket_rejects_over_limit() {
    let mut bucket = RateBucket::new();
    assert!(bucket.is_allowed(2, 60));
    assert!(bucket.is_allowed(2, 60));
    assert!(!bucket.is_allowed(2, 60));
}

#[test]
fn limiter_tracks_per_ip() {
    let mut limiter = RateLimiter::new(1, 60);
    let ip1 = parse_ip("10.0.0.1").unwrap();
    let ip2 = parse_ip("10.0.0.2").unwrap();

    assert!(limiter.check_and_record(ip1));
    assert!(!limiter.check_and_record(ip1)); // ip1 exhausted
    assert!(limiter.check_and_record(ip2)); // ip2 still has quota
}

#[test]
fn evict_removes_stale_entries() {
    let mut limiter = RateLimiter::new(100, 0); // 0-second window = everything is stale
    let ip = parse_ip("10.0.0.1").unwrap();
    limiter.check_and_record(ip);
    wait(10);
    limiter.evict_stale();
    assert_eq!(limiter.map.len(), 0);
}

#[test]
fn bucket_at_fixed_times_slides_window() {
    let mut bucket = RateBucket::new();
    let second: u64 = 1_000_000_000;
    assert!(bucket.is_allowed_at(2, 1, 0));
    assert!(bucket.is_allowed_at(2, 1, second / 2));
    assert!(!bucket.is_allowed_at(2, 1, second));
    // exactly one second after the first request it is not yet stale (strictly more is needed)
    assert_eq!(bucket.timestamps.len(), 2);
    // just after one second the first request leaves the window
    assert!(bucket.is_allowed_at(2, 1, second + 1));
    assert_eq!(bucket.timestamps.iter().copied().collect::<Vec<u64>>(), vec![second / 2, second + 1]);
}

#[test]
fn bucket_never_holds_more_than_limit() {
    let mut bucket = RateBucket::new();
    for t in 0..10u64 {
        bucket.is_allowed_at(3, 60, t);
        assert!(bucket.timestamps.len() <= 3);
    }
}

#[test]
fn bucket_zero_limit_rejects_everything() {
    let mut bucket = RateBucket::new();
    assert!(!bucket.is_allowed_at(0, 60, 5));
    assert_eq!(bucket.timestamps.len(), 0);
}

#[test]
fn evict_stale_at_keeps_recent() {
    let mut bucket = RateBucket::new();
    bucket.is_allowed_at(10, 1, 0);
    bucket.is_allowed_at(10, 1, 1_500_000_000);
    bucket.evict_stale_at(1, 2_000_000_000);
    assert_eq!(bucket.timestamps.iter().copied().collect::<Vec<u64>>(), vec![1_500_000_000]);
}

#[test]
fn limiter_keeps_buckets_with_recent_requests() {
    let mut limiter = RateLimiter::new(5, 60);
    let ip = parse_ip("::1").unwrap();
    assert!(limiter.check_and_record(ip));
    limiter.evict_stale();
    assert_eq!(limiter.map.len(), 1);
}

#[test]
fn at_most_limit_admitted_in_any_window() {
    let second: u64 = 1_000_000_000;
    let mut bucket = RateBucket::new();
    let times: Vec<u64> = (0..40u64).map(|k| k * second / 4).collect();
    let mut admitted: Vec<u64> = Vec::new();
    for &t in &times {
        if bucket.is_allowed_at(3, 2, t) {
            admitted.push(t);
        }
        let in_window = admitted.iter().filter(|&&a| t - a <= 2 * second).count();
        assert!(in_window <= 3);
        assert!(bucket.timestamps.iter().zip(bucket.timestamps.iter().skip(1)).all(|(a, b)| a <= b));
    }
    assert!(!RateBucket::new().is_allowed_at(0, 2, 5));
}

#[test]
fn limiter_eviction_at_a_reading_is_exact() {
    let second: u64 = 1_000_000_000;
    let mut limiter = RateLimiter::new(5, 10);
    let a = parse_ip("10.0.0.1").unwrap();
    let b = parse_ip("10.0.0.2").unwrap();
    assert!(limiter.check_and_record_at(a, 0));
    assert!(limiter.check_and_record_at(a, 8 * second));
    assert!(limiter.check_and_record_at(b, second));
    limiter.evict_stale_at(12 * second);
    assert_eq!(limiter.map.len(), 1);
    limiter.evict_stale_at(19 * second);
    assert_eq!(limiter.map.len(), 0);
}
