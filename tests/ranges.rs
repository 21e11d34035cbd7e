use proxy_server::range::{parse_range, IntervalSet, SENTINEL_OPEN};
use proxy_server::error::ProxyError;

fn set_of(list: &[(u64, u64)]) -> IntervalSet {
    IntervalSet::from_ranges(list)
}

#[test]
fn parse_range_closed_and_open() {
    assert_eq!(parse_range("bytes=0-1023").unwrap(), (0, 1023));
    assert_eq!(parse_range("bytes=512-").unwrap(), (512, SENTINEL_OPEN));
    assert_eq!(parse_range("bytes=0-0").unwrap(), (0, 0));
}

#[test]
fn parse_range_rejects_malformed_input() {
    for bad in ["0-10", "bytes=a-10", "bytes=10-5", "bytes=-5", "bytes=1-2-3", "bytes=1", "bytes=99999999999999999999-"] {
        assert!(matches!(parse_range(bad), Err(ProxyError::InvalidRange(_))), "{}", bad);
    }
}

#[test]
fn adjacent_intervals_merge() {
    let mut s = IntervalSet::new();
    s.add(0, 99);
    s.add(100, 199);
    assert_eq!(s.to_vec(), vec![(0, 199)]);
}

#[test]
fn separated_intervals_stay_apart() {
    let mut s = IntervalSet::new();
    s.add(0, 99);
    s.add(101, 199);
    assert_eq!(s.to_vec(), vec![(0, 99), (101, 199)]);
}

#[test]
fn add_merges_overlaps_in_any_order() {
    let s = set_of(&[(50, 60), (0, 10), (8, 20), (40, 49), (100, 100)]);
    assert_eq!(s.to_vec(), vec![(0, 20), (40, 60), (100, 100)]);
    let mut t = set_of(&[(0, 10), (20, 30), (40, 50)]);
    t.add(5, 45);
    assert_eq!(t.to_vec(), vec![(0, 50)]);
}

#[test]
fn contains_after_adds_is_subset_of_union() {
    let s = set_of(&[(0, 99), (100, 150), (300, 400)]);
    assert!(s.contains(10, 140));
    assert!(!s.contains(140, 310));
    assert!(s.contains(300, 400));
    assert!(!s.contains(151, 151));
}

#[test]
fn adding_the_same_interval_twice_changes_nothing() {
    let mut s = set_of(&[(0, 9), (20, 29)]);
    s.add(5, 22);
    let once = s.to_vec();
    s.add(5, 22);
    assert_eq!(s.to_vec(), once);
    assert_eq!(once, vec![(0, 29)]);
}

#[test]
fn missing_lists_the_gaps_in_order() {
    let s = set_of(&[(10, 19), (30, 39)]);
    assert_eq!(s.missing(0, 50), vec![(0, 9), (20, 29), (40, 50)]);
    assert_eq!(s.missing(12, 35), vec![(20, 29)]);
    assert_eq!(s.missing(10, 19), vec![]);
    assert_eq!(IntervalSet::new().missing(5, 7), vec![(5, 7)]);
}

#[test]
fn covered_run_end_stops_at_the_first_gap() {
    let s = set_of(&[(0, 1023)]);
    assert_eq!(s.covered_run_end(512, 2047), Some(1023));
    assert_eq!(s.covered_run_end(0, 100), Some(100));
    assert_eq!(s.covered_run_end(1024, 2047), None);
}

#[test]
fn whole_object_is_fully_cached() {
    let n: u64 = 10000;
    let s = set_of(&[(0, n - 1)]);
    assert!(s.is_fully_cached(Some(n)));
    assert!(!s.is_fully_cached(Some(n + 1)));
    assert!(!s.is_fully_cached(None));
    assert!(!IntervalSet::new().is_fully_cached(Some(0)));
}

#[test]
fn truncate_to_cuts_at_the_file_length() {
    let mut s = set_of(&[(0, 99), (200, 299), (400, 499)]);
    s.truncate_to(250);
    assert_eq!(s.to_vec(), vec![(0, 99), (200, 249)]);
}

#[test]
fn missing_gaps_are_maximal_and_clipped() {
    let s = set_of(&[(100, 199)]);
    assert_eq!(s.missing(0, 49), vec![(0, 49)]);
    let t = set_of(&[(0, 1023)]);
    assert_eq!(t.missing(512, 2047), vec![(1024, 2047)]);
}
