use proxy_server::error::ProxyError;
use proxy_server::fusion::{Fusion, FusionPlan, Phase};
use proxy_server::network::NetworkHandler;
use proxy_server::pool::UnitPool;
use proxy_server::range::SENTINEL_OPEN;
use proxy_server::request::DataRequest;
use proxy_server::response::ResponseBuilder;
use proxy_server::selector::{select_source, SourcePlan};
use proxy_server::state::CacheState;
use proxy_server::unit::DataUnit;
use proxy_server::url::UrlUtils;
use proxy_server::config::Config;

const HOUR: u64 = 3600;

fn commit_origin(f: &mut Fusion, chunks: &[u64]) -> u64 {
    let mut delivered = 0;
    for &c in chunks {
        if f.phase != Phase::Origin {
            break;
        }
        let take = f.on_origin_chunk(c);
        delivered += take;
        if f.write_offset().is_some() {
            f.on_written(take);
        }
    }
    delivered
}

fn record(pool: &mut UnitPool, url: &str, s: u64, e: u64, now: u64) {
    let cfg = Config::new("cache".to_string());
    let key = UrlUtils::cache_key(url);
    pool.update_cache(&key, cfg.get_cache_file(url), cfg.get_cache_state(url), s, e, now);
}

#[test]
fn cold_miss_fetches_and_records_the_range() {
    let mut pool = UnitPool::new();
    let req = DataRequest::new(None, "/proxy/http://ex/a.bin", None, Some("bytes=0-1023")).unwrap();
    let (s, e) = req.byte_range().unwrap();
    let key = UrlUtils::cache_key(req.get_url());
    let plan = select_source(pool.get_data_unit(&key), 0, true, s, e).unwrap();
    assert_eq!(plan, SourcePlan::OriginOnly { start: 0, end: Some(1023) });
    let cfg = Config::new("cache".to_string());
    pool.open_unit(&key, cfg.get_cache_file(req.get_url()), cfg.get_cache_state(req.get_url()), 50);
    let plan2 = select_source(pool.get_data_unit(&key), 0, true, s, e).unwrap();
    assert_eq!(plan2, plan);
    let fp = FusionPlan::from_source(plan);
    assert_eq!(fp.origin_range(), "bytes=0-1023");
    let total = NetworkHandler::total_size(Some("bytes 0-1023/10000"), Some("1024"), true);
    assert_eq!(total, Some(10000));
    assert!(pool.set_total_size(&key, 10000));
    let mut f = Fusion::new(fp);
    assert_eq!(commit_origin(&mut f, &[700, 700]), 1024);
    let committed = f.finish_origin().unwrap();
    assert_eq!(committed, (0, 1023));
    record(&mut pool, req.get_url(), committed.0, committed.1, 100);
    let head = ResponseBuilder::new().build_head(true, 0, Some(1023), total);
    assert_eq!(head.status, 206);
    assert_eq!(head.content_range.unwrap(), "bytes 0-1023/10000");
    assert_eq!(head.content_length, Some(1024));
    let state = CacheState::from_unit(pool.get_data_unit(&key).unwrap());
    assert_eq!(state.ranges, vec![(0, 1023)]);
    assert_eq!(state.total_size, Some(10000));
}

fn warm_pool() -> (UnitPool, String) {
    let mut pool = UnitPool::new();
    record(&mut pool, "http://ex/a.bin", 0, 1023, 100);
    let key = UrlUtils::cache_key("http://ex/a.bin");
    pool.set_total_size(&key, 10000);
    (pool, key)
}

#[test]
fn warm_hit_is_served_from_the_file_alone() {
    let (pool, key) = warm_pool();
    let plan = select_source(pool.get_data_unit(&key), 1024, true, 0, 1023).unwrap();
    assert_eq!(plan, SourcePlan::FileOnly { start: 0, end: 1023 });
    let fp = FusionPlan::from_source(plan);
    assert!(!fp.needs_origin());
    let mut f = Fusion::new(fp);
    assert_eq!(f.on_cache_chunk(8192), 1024);
    assert_eq!(f.phase, Phase::Done);
    let head = ResponseBuilder::new().build_head(true, 0, Some(1023), Some(10000));
    assert_eq!(head.content_range.unwrap(), "bytes 0-1023/10000");
}

#[test]
fn mixed_request_splices_cache_then_origin() {
    let (mut pool, key) = warm_pool();
    let plan = select_source(pool.get_data_unit(&key), 1024, true, 512, 2047).unwrap();
    assert_eq!(plan, SourcePlan::Mixed { start: 512, cached_end: Some(1023), end: Some(2047) });
    let fp = FusionPlan::from_source(plan);
    assert_eq!(fp.cache_len, 512);
    assert_eq!(fp.origin_range(), "bytes=1024-2047");
    let mut f = Fusion::new(fp);
    assert_eq!(f.on_cache_chunk(300), 300);
    assert_eq!(f.on_cache_chunk(300), 212);
    assert_eq!(f.phase, Phase::Origin);
    assert_eq!(f.write_offset(), Some(1024));
    assert_eq!(commit_origin(&mut f, &[1000, 1000]), 1024);
    assert_eq!(f.cache_sent + f.origin_sent, 1536);
    let c = f.finish_origin().unwrap();
    record(&mut pool, "http://ex/a.bin", c.0, c.1, 200);
    assert_eq!(pool.get_data_unit(&key).unwrap().ranges.to_vec(), vec![(0, 2047)]);
    let head = ResponseBuilder::new().build_head(true, 512, Some(2047), Some(10000));
    assert_eq!(head.content_range.unwrap(), "bytes 512-2047/10000");
    assert_eq!(head.content_length, Some(1536));
}

#[test]
fn truncated_origin_commits_only_what_was_written() {
    let (mut pool, key) = warm_pool();
    let plan = select_source(pool.get_data_unit(&key), 1024, true, 512, 2047).unwrap();
    let mut f = Fusion::new(FusionPlan::from_source(plan));
    f.on_cache_chunk(512);
    assert_eq!(commit_origin(&mut f, &[500]), 500);
    assert_eq!(f.phase, Phase::Origin);
    let c = f.finish_origin().unwrap();
    assert_eq!(c, (1024, 1523));
    assert_eq!(f.cache_sent + f.origin_sent, 1012);
    record(&mut pool, "http://ex/a.bin", c.0, c.1, 200);
    assert_eq!(pool.get_data_unit(&key).unwrap().ranges.to_vec(), vec![(0, 1523)]);
}

#[test]
fn failed_write_back_commits_nothing() {
    let plan = SourcePlan::OriginOnly { start: 0, end: Some(999) };
    let mut f = Fusion::new(FusionPlan::from_source(plan));
    let t = f.on_origin_chunk(400);
    f.on_written(t);
    f.on_write_failed();
    assert_eq!(f.write_offset(), None);
    assert_eq!(f.on_origin_chunk(600), 600);
    assert_eq!(f.finish_origin(), None);
}

#[test]
fn abandoned_request_commits_nothing() {
    let plan = SourcePlan::OriginOnly { start: 0, end: Some(999) };
    let mut f = Fusion::new(FusionPlan::from_source(plan));
    let t = f.on_origin_chunk(400);
    f.on_written(t);
    f.abandon();
    assert_eq!(f.finish_origin(), None);
    assert_eq!(f.phase, Phase::Failed);
}

#[test]
fn short_cache_read_fails_the_response() {
    let plan = SourcePlan::FileOnly { start: 0, end: 99 };
    let mut f = Fusion::new(FusionPlan::from_source(plan));
    f.on_cache_chunk(40);
    f.on_cache_short();
    assert_eq!(f.phase, Phase::Failed);
}

#[test]
fn eviction_by_age_makes_the_next_request_a_cold_miss() {
    let mut pool = UnitPool::new();
    let now = 30 * 24 * HOUR;
    record(&mut pool, "http://ex/a.bin", 0, 1023, now - 25 * HOUR);
    record(&mut pool, "http://ex/b.bin", 0, 1023, now - HOUR);
    let key = UrlUtils::cache_key("http://ex/a.bin");
    let expired = pool.expired_keys(now, 24 * HOUR);
    assert_eq!(expired, vec![key.clone()]);
    let gone = pool.remove(&key).unwrap();
    assert!(gone.cache_file.ends_with(".data"));
    assert!(gone.state_file.ends_with(".json"));
    assert!(pool.get_data_unit(&key).is_none());
    assert_eq!(pool.len(), 1);
    let plan = select_source(pool.get_data_unit(&key), 0, true, 0, 1023).unwrap();
    assert_eq!(plan, SourcePlan::OriginOnly { start: 0, end: Some(1023) });
}

#[test]
fn concurrent_duplicates_leave_one_interval() {
    let mut pool = UnitPool::new();
    let key = UrlUtils::cache_key("http://ex/c.bin");
    let first = select_source(pool.get_data_unit(&key), 0, true, 0, 999).unwrap();
    let second = select_source(pool.get_data_unit(&key), 0, true, 0, 999).unwrap();
    assert_eq!(first, SourcePlan::OriginOnly { start: 0, end: Some(999) });
    assert_eq!(second, first);
    record(&mut pool, "http://ex/c.bin", 0, 999, 10);
    record(&mut pool, "http://ex/c.bin", 0, 999, 11);
    assert_eq!(pool.get_data_unit(&key).unwrap().ranges.to_vec(), vec![(0, 999)]);
}

#[test]
fn single_byte_range_has_length_one() {
    let n = 4096;
    let head = ResponseBuilder::new().build_head(true, 0, Some(0), Some(n));
    assert_eq!(head.status, 206);
    assert_eq!(head.content_length, Some(1));
    assert_eq!(head.content_range.unwrap(), "bytes 0-0/4096");
}

#[test]
fn open_range_with_unknown_size_streams_with_status_200() {
    let plan = select_source(None, 0, true, 0, SENTINEL_OPEN).unwrap();
    assert_eq!(plan, SourcePlan::OriginOnly { start: 0, end: None });
    let fp = FusionPlan::from_source(plan);
    assert_eq!(fp.origin_range(), "bytes=0-");
    let head = ResponseBuilder::new().build_head(true, 0, None, None);
    assert_eq!(head.status, 200);
    assert!(head.content_length.is_none());
    assert!(head.content_range.is_none());
    let mut f = Fusion::new(fp);
    assert_eq!(commit_origin(&mut f, &[5000, 7000, 3]), 12003);
    assert_eq!(f.finish_origin(), Some((0, 12002)));
}

#[test]
fn unranged_known_size_is_200_with_length() {
    let head = ResponseBuilder::new().build_head(false, 0, Some(9999), Some(10000));
    assert_eq!(head.status, 200);
    assert_eq!(head.content_length, Some(10000));
    assert!(head.content_range.is_none());
}

#[test]
fn offline_origin_serves_covered_ranges_only() {
    let (pool, key) = warm_pool();
    let ok = select_source(pool.get_data_unit(&key), 1024, false, 0, 100).unwrap();
    assert_eq!(ok, SourcePlan::FileOnly { start: 0, end: 100 });
    let r = select_source(pool.get_data_unit(&key), 1024, false, 0, 5000);
    assert!(matches!(r, Err(ProxyError::Unavailable(_))));
    assert_eq!(r.err().unwrap().status_code(), 504);
}

#[test]
fn range_past_the_object_is_refused() {
    let (pool, key) = warm_pool();
    let r = select_source(pool.get_data_unit(&key), 1024, true, 10000, 10005);
    assert!(matches!(r, Err(ProxyError::InvalidRange(_))));
    assert_eq!(r.err().unwrap().status_code(), 416);
}

#[test]
fn open_end_is_read_as_the_last_byte() {
    let (pool, key) = warm_pool();
    let plan = select_source(pool.get_data_unit(&key), 1024, true, 100, SENTINEL_OPEN).unwrap();
    assert_eq!(plan, SourcePlan::Mixed { start: 100, cached_end: Some(1023), end: Some(9999) });
    let plan = select_source(pool.get_data_unit(&key), 0, true, 100, 200).unwrap();
    assert_eq!(plan, SourcePlan::OriginOnly { start: 100, end: Some(200) });
}

#[test]
fn state_round_trip_keeps_the_record() {
    let (pool, key) = warm_pool();
    let u = pool.get_data_unit(&key).unwrap();
    let s = CacheState::from_unit(u);
    let back = s.to_unit(key.clone(), u.state_file.clone(), 5).unwrap();
    assert_eq!(back.ranges.to_vec(), u.ranges.to_vec());
    assert_eq!(back.total_size, u.total_size);
    assert_eq!(back.cache_file, u.cache_file);
}

#[test]
fn recovery_cuts_intervals_to_the_file_and_drops_missing_files() {
    let s = CacheState { cache_file: Some("d.data".to_string()), ranges: vec![(4096, 8191), (0, 1023)], total_size: None };
    let u = s.recover("k".to_string(), "d.json".to_string(), Some(5000), 1).unwrap();
    assert_eq!(u.ranges.to_vec(), vec![(0, 1023), (4096, 4999)]);
    assert!(s.recover("k".to_string(), "d.json".to_string(), None, 1).is_none());
}

#[test]
fn data_unit_clips_to_the_total_size() {
    let mut u = DataUnit::new("k".to_string(), "d".to_string(), "s".to_string(), 0);
    u.set_total_size(100);
    u.add_range(50, 500, 3);
    assert_eq!(u.ranges.to_vec(), vec![(50, 99)]);
    assert_eq!(u.last_accessed, 3);
    assert!(u.partially_contains_range(90, 200));
    assert!(!u.partially_contains_range(0, 49));
    assert_eq!(u.get_missing_ranges(0, 99), vec![(0, 49)]);
    u.add_range(0, 49, 4);
    assert!(u.is_fully_cached());
}

#[test]
fn content_range_total_is_read_after_the_slash() {
    assert_eq!(NetworkHandler::content_range_total("bytes 0-0/777"), Some(777));
    assert_eq!(NetworkHandler::content_range_total("bytes 0-0/*"), None);
    assert_eq!(NetworkHandler::content_range_total("bytes */500"), Some(500));
    assert_eq!(NetworkHandler::content_range_total("foo/12"), None);
    assert_eq!(NetworkHandler::content_range_total("12"), None);
    assert_eq!(NetworkHandler::content_range_total("bytes 1-2-3/5"), None);
    assert_eq!(NetworkHandler::content_range_total("bytes a-2/5"), None);
    assert_eq!(NetworkHandler::total_size(None, Some("42"), false), Some(42));
    assert_eq!(NetworkHandler::total_size(None, Some("42"), true), None);
}

#[test]
fn open_unit_creates_the_record_once() {
    let mut pool = UnitPool::new();
    pool.open_unit("k", "k.data".to_string(), "k.json".to_string(), 5);
    assert!(pool.get_data_unit("k").unwrap().ranges.to_vec().is_empty());
    pool.update_cache("k", "x".to_string(), "y".to_string(), 0, 9, 6);
    pool.open_unit("k", "z.data".to_string(), "z.json".to_string(), 7);
    let u = pool.get_data_unit("k").unwrap();
    assert_eq!(u.cache_file, "k.data");
    assert_eq!(u.last_accessed, 7);
    assert_eq!(u.ranges.to_vec(), vec![(0, 9)]);
}

#[test]
fn cache_state_put_into_the_index_reads_back() {
    let mut pool = UnitPool::new();
    let st = CacheState { cache_file: Some("d.data".to_string()), ranges: vec![(0, 1023), (4096, 8191)], total_size: Some(10000) };
    assert!(pool.update_cache_state("k", &st, "d.json".to_string(), 3));
    let back = pool.get_cache_state("k").unwrap();
    assert_eq!(back.cache_file, st.cache_file);
    assert_eq!(back.ranges, st.ranges);
    assert_eq!(back.total_size, st.total_size);
    let none = CacheState { cache_file: None, ranges: vec![], total_size: None };
    assert!(!pool.update_cache_state("j", &none, "j.json".to_string(), 3));
    assert!(pool.get_cache_state("j").is_none());
}
