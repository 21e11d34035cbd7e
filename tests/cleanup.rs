use proxy_server::pool::UnitPool;
use proxy_server::hls::HlsManager;
use proxy_server::probe::{FetchOutcome, Liveness, ProbeStep, SizeChecker};
use proxy_server::range::{IntervalSet, SENTINEL_OPEN};
use proxy_server::selector::SourcePlan;

fn pool_with(records: &[(&str, u64, u64, u64)]) -> UnitPool {
    let mut pool = UnitPool::new();
    for &(key, s, e, at) in records {
        pool.update_cache(key, format!("{}.data", key), format!("{}.json", key), s, e, at);
    }
    pool
}

#[test]
fn lru_eviction_takes_the_oldest_until_under_the_cap() {
    let mut pool = pool_with(&[("a", 0, 999, 30), ("b", 0, 999, 10), ("c", 0, 999, 20)]);
    assert_eq!(pool.total_cached(), 3000);
    let gone = pool.evict_lru(1500);
    let keys: Vec<String> = gone.iter().map(|u| u.key.clone()).collect();
    assert_eq!(keys, vec!["b".to_string(), "c".to_string()]);
    assert!(gone[0].last_accessed <= gone[1].last_accessed);
    assert_eq!(pool.total_cached(), 1000);
    assert!(pool.get_data_unit("a").is_some());
}

#[test]
fn lru_eviction_does_nothing_under_the_cap() {
    let mut pool = pool_with(&[("a", 0, 999, 30)]);
    assert!(pool.evict_lru(1000).is_empty());
    assert_eq!(pool.len(), 1);
}

#[test]
fn oversized_records_are_listed() {
    let pool = pool_with(&[("a", 0, 99, 1), ("b", 0, 9, 1)]);
    assert_eq!(pool.oversized_keys(50), vec!["a".to_string()]);
    assert!(pool.oversized_keys(100).is_empty());
}

#[test]
fn touch_updates_the_access_time_only() {
    let mut pool = pool_with(&[("a", 0, 99, 1)]);
    assert!(pool.touch("a", 77));
    let u = pool.get_data_unit("a").unwrap();
    assert_eq!(u.last_accessed, 77);
    assert_eq!(u.ranges.to_vec(), vec![(0, 99)]);
    assert!(!pool.touch("zz", 1));
}

#[test]
fn cached_size_sums_the_intervals() {
    let s = IntervalSet::from_ranges(&[(0, 9), (20, 29)]);
    assert_eq!(s.cached_size(), 20);
    assert_eq!(IntervalSet::from_ranges(&[(0, u64::MAX)]).cached_size(), u64::MAX);
}

#[test]
fn playlist_lines_are_sent_through_the_proxy() {
    let text = "#EXTM3U\r\n#EXTINF:10,\nseg1.ts\n\n/abs/seg2.ts\nhttp://cdn/x.ts\n/proxy/http://cdn/y.ts\n/proxy/z.ts";
    let out = HlsManager::rewrite_m3u8(text, "http://h/v/", "/proxy/");
    assert_eq!(
        out,
        "#EXTM3U\n#EXTINF:10,\n/proxy/http%3A%2F%2Fh%2Fv%2Fseg1.ts\n/proxy/http%3A%2F%2Fh%2Fv%2Fabs%2Fseg2.ts\n/proxy/http%3A%2F%2Fcdn%2Fx.ts\n/proxy/http%3A%2F%2Fcdn%2Fy.ts\n/proxy/http%3A%2F%2Fh%2Fv%2Fz.ts\n"
    );
}

#[test]
fn retries_follow_the_outcome() {
    assert_eq!(SizeChecker::outcome(206), FetchOutcome::Success);
    assert_eq!(SizeChecker::outcome(503), FetchOutcome::Transient);
    assert_eq!(SizeChecker::outcome(404), FetchOutcome::Fatal);
    assert!(SizeChecker::should_retry(1, FetchOutcome::Transient));
    assert!(SizeChecker::should_retry(3, FetchOutcome::Transient));
    assert!(!SizeChecker::should_retry(4, FetchOutcome::Transient));
    assert!(!SizeChecker::should_retry(1, FetchOutcome::Fatal));
}

#[test]
fn size_probe_order_and_answers() {
    assert_eq!(SizeChecker::next_step(ProbeStep::Index), Some(ProbeStep::Head));
    assert_eq!(SizeChecker::next_step(ProbeStep::Head), Some(ProbeStep::RangeZero));
    assert_eq!(SizeChecker::next_step(ProbeStep::RangeZero), Some(ProbeStep::Get));
    assert_eq!(SizeChecker::next_step(ProbeStep::Get), None);
    assert_eq!(SizeChecker::probe_size(ProbeStep::Head, None, Some("1048576")), Some(1048576));
    assert_eq!(SizeChecker::probe_size(ProbeStep::RangeZero, Some("bytes 0-0/500"), Some("1")), Some(500));
    assert_eq!(SizeChecker::probe_size(ProbeStep::Get, None, Some("x")), None);
}

#[test]
fn liveness_is_trusted_for_its_ttl() {
    let mut l = Liveness::new(10);
    assert_eq!(l.known(100), None);
    l.record(100, false);
    assert_eq!(l.known(105), Some(false));
    assert_eq!(l.known(110), None);
}

#[test]
fn size_probe_only_for_open_ranges_of_unknown_size() {
    assert!(SizeChecker::should_probe(None, SENTINEL_OPEN, true));
    assert!(!SizeChecker::should_probe(Some(10), SENTINEL_OPEN, true));
    assert!(!SizeChecker::should_probe(None, 99, true));
    assert!(!SizeChecker::should_probe(None, SENTINEL_OPEN, false));
}

#[test]
fn plan_last_byte() {
    assert_eq!(SourcePlan::FileOnly { start: 0, end: 9 }.last_byte(), Some(9));
    assert_eq!(SourcePlan::OriginOnly { start: 0, end: None }.last_byte(), None);
    assert_eq!(SourcePlan::Mixed { start: 0, cached_end: Some(3), end: Some(7) }.last_byte(), Some(7));
}
