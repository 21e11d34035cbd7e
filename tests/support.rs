use proxy_server::logger::{LogLevel, Logger};
use proxy_server::storage::{DiskStorage, StorageConfig, StorageManagerConfig, FileSource};
use proxy_server::error::ProxyError;

#[test]
fn format_time_gives_hours_minutes_seconds() {
    assert_eq!(Logger::format_time(3 * 3600 + 7 * 60 + 9), "03:07:09");
    assert_eq!(Logger::format_time(25 * 3600 + 59), "01:00:59");
}

#[test]
fn log_lines_carry_level_and_module() {
    assert_eq!(Logger::log(LogLevel::WARN, "Cache", "full", 61), "[00:01:01 WARN Cache] full");
    assert_eq!(Logger::info("Req", "ok", 0), "[00:00:00 INFO Req] ok");
}

#[test]
fn storage_path_uses_md5_of_the_key() {
    let d = DiskStorage::new(StorageConfig { root_path: "root".to_string(), chunk_size: 8192 });
    // md5("abc")
    assert_eq!(d.get_file_path("abc"), "root/90/01/900150983cd24fb0d6963f7d28e17f72");
}

#[test]
fn read_span_fails_when_the_file_is_short() {
    let d = DiskStorage::new(StorageConfig::default());
    assert_eq!(d.read_span(10, u64::MAX, 100).unwrap(), (10, 99));
    assert_eq!(d.read_span(10, 20, 100).unwrap(), (10, 20));
    assert!(matches!(d.read_span(100, 200, 100), Err(ProxyError::Cache(_))));
    assert!(matches!(d.read_span(0, 9, 5), Err(ProxyError::Cache(_))));
    assert_eq!(d.read_span(0, 4, 5).unwrap(), (0, 4));
    assert_eq!(d.chunk_len(100), 100);
    assert_eq!(d.chunk_len(100000), 8192);
}

#[test]
fn storage_defaults() {
    let c = StorageManagerConfig::default();
    assert_eq!(c.max_file_size, 1024 * 1024 * 1024);
    assert_eq!(c.expiration_secs, 24 * 3600);
    assert_eq!(StorageConfig::default().root_path, "./cache");
}

#[test]
fn file_source_from_path() {
    let f = FileSource::from_path_buf(Ok("a/b".to_string()), "bytes=0-").unwrap();
    assert_eq!(f.path, "a/b");
    let r = FileSource::from_path_buf(Err(ProxyError::Io("x".to_string())), "bytes=0-");
    assert!(matches!(r, Err(ProxyError::Io(m)) if m == "x"));
}

#[test]
fn error_statuses() {
    assert_eq!(ProxyError::InvalidRange(String::new()).status_code(), 416);
    assert_eq!(ProxyError::Upstream(String::new()).status_code(), 502);
    assert_eq!(ProxyError::NotFound(String::new()).status_code(), 504);
    assert_eq!(ProxyError::Internal(String::new()).status_code(), 500);
    assert_eq!(ProxyError::Internal("boom".to_string()).message(), "boom");
}
