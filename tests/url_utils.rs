use proxy_server::url::{RequestType, UrlUtils};
use proxy_server::config::Config;
use proxy_server::request::{query_proxy_param, DataRequest};
use proxy_server::error::ProxyError;

#[test]
fn test_clean_proxy_url() {
    let cases = vec![
        ("/proxy/http://example.com", "http://example.com"),
        ("/proxy/proxy/http://example.com", "http://example.com"),
        ("http://example.com", "http://example.com"),
        ("/proxy/https://example.com/video.mp4", "https://example.com/video.mp4"),
        ("/proxy/proxy/proxy/http://test.com", "http://test.com"),
    ];

    for (input, expected) in cases {
        assert_eq!(UrlUtils::clean_proxy_url(input).unwrap(), expected);
    }
}

#[test]
fn test_get_base_url() {
    let cases = vec![
        ("http://example.com/video/file.m3u8", "http://example.com/video/"),
        ("http://example.com/file.m3u8", "http://example.com/"),
        ("http://example.com/", "http://example.com/"),
        ("https://test.com/a/b/c.m3u8", "https://test.com/a/b/"),
        ("http://example.com", "http://example.com/"),
    ];

    for (input, expected) in cases {
        assert_eq!(UrlUtils::get_base_url(input).unwrap(), expected);
    }
}

#[test]
fn test_is_absolute_url() {
    assert!(UrlUtils::is_absolute_url("http://example.com"));
    assert!(UrlUtils::is_absolute_url("https://example.com"));
    assert!(!UrlUtils::is_absolute_url("/path/to/file"));
    assert!(!UrlUtils::is_absolute_url("relative/path"));
}

#[test]
fn clean_proxy_url_decodes_percent_escapes() {
    assert_eq!(
        UrlUtils::clean_proxy_url("/proxy/http%3A%2F%2Fex%2Fa.bin").unwrap(),
        "http://ex/a.bin"
    );
}

#[test]
fn clean_proxy_url_rejects_bytes_that_are_not_utf8() {
    let r = UrlUtils::clean_proxy_url("/proxy/%FF%FE");
    assert!(matches!(r, Err(ProxyError::Request(_))));
}

#[test]
fn get_base_url_rejects_text_that_is_not_a_url() {
    assert!(matches!(UrlUtils::get_base_url("not a url"), Err(ProxyError::Parse(_))));
}

#[test]
fn base_url_from_parts_cuts_after_last_slash() {
    assert_eq!(
        UrlUtils::base_url_from_parts("http://h", "/a/b/c.ts", "?q=1").unwrap(),
        "http://h/a/b/?q=1"
    );
    assert!(UrlUtils::base_url_from_parts("mailto:", "x@y", "").is_none());
}

#[test]
fn cache_key_is_md5_of_host_and_path() {
    // md5("ex/a.bin")
    assert_eq!(UrlUtils::cache_key("http://ex/a.bin"), "ba738788987d08dc2b31f33b045c61f8");
    assert_eq!(UrlUtils::cache_key("https://ex/a.bin?token=1#t"), "ba738788987d08dc2b31f33b045c61f8");
    assert_eq!(UrlUtils::key_source("https://ex/a.bin?token=1"), "ex/a.bin");
}

#[test]
fn cache_paths_use_two_hex_buckets() {
    let c = Config::new("cache".to_string());
    assert_eq!(
        c.get_cache_file("http://ex/a.bin"),
        "cache/ba/73/ba738788987d08dc2b31f33b045c61f8.data"
    );
    assert_eq!(
        c.get_cache_state("http://ex/a.bin"),
        "cache/ba/73/ba738788987d08dc2b31f33b045c61f8.json"
    );
}

#[test]
fn request_types_follow_the_suffix() {
    assert_eq!(UrlUtils::request_type("http://h/p.m3u8"), RequestType::M3u8);
    assert_eq!(UrlUtils::request_type("http://h/s1.ts"), RequestType::Segment);
    assert_eq!(UrlUtils::request_type("http://h/a.bin"), RequestType::Normal);
}

#[test]
fn query_parameter_names_the_upstream() {
    assert_eq!(query_proxy_param("a=1&proxy=http%3A%2F%2Fh%2Fx&b=2").unwrap(), "http%3A%2F%2Fh%2Fx");
    assert!(query_proxy_param("a=1&b=2").is_none());
}

#[test]
fn data_request_takes_header_then_path_then_query() {
    let d = DataRequest::new(Some("http://o/v.mp4"), "/proxy/http://p/w.mp4", None, None).unwrap();
    assert_eq!(d.get_url(), "http://o/v.mp4");
    assert_eq!(d.get_range(), "bytes=0-");
    let d = DataRequest::new(None, "/proxy/proxy/http://p/w.m3u8", None, Some("bytes=5-9")).unwrap();
    assert_eq!(d.get_url(), "http://p/w.m3u8");
    assert_eq!(d.get_type(), RequestType::M3u8);
    assert_eq!(d.byte_range().unwrap(), (5, 9));
    let d = DataRequest::new(None, "/", Some("proxy=http%3A%2F%2Fq%2Fs.ts"), None).unwrap();
    assert_eq!(d.get_url(), "http://q/s.ts");
    assert_eq!(d.get_type(), RequestType::Segment);
    assert!(matches!(DataRequest::new(None, "/", None, None), Err(ProxyError::Request(_))));
}
