use std::collections::HashMap;
use syslog_collector::stats::{classify, count_after, CounterKey, Stats};

#[test]
fn new_stats_are_empty() {
    let s = Stats::new();
    let snap = s.snapshot();
    assert_eq!(snap.total_messages, 0);
    assert!(snap.messages_per_facility.is_empty());
    assert!(snap.messages_per_severity.is_empty());
    assert!(snap.recent_sources.is_empty());
}

#[test]
fn record_counts_each_of_the_three_keys() {
    let mut s = Stats::new();
    s.record(4, 2, "10.0.0.1");
    s.record(4, 6, "10.0.0.2");
    s.record(23, 6, "10.0.0.1");
    let snap = s.snapshot();
    assert_eq!(snap.total_messages, 3);
    assert_eq!(snap.messages_per_facility, HashMap::from([(4u8, 2u64), (23, 1)]));
    assert_eq!(snap.messages_per_severity, HashMap::from([(2u8, 1u64), (6, 2)]));
    assert_eq!(snap.recent_sources, vec!["10.0.0.1".to_string(), "10.0.0.2".to_string()]);
}

#[test]
fn facilities_beyond_the_standard_range_are_counted_too() {
    let mut s = Stats::new();
    s.record(31, 7, "a");
    s.record(0, 0, "a");
    s.record(255, 255, "a");
    let snap = s.snapshot();
    assert_eq!(snap.messages_per_facility, HashMap::from([(31u8, 1u64), (0, 1), (255, 1)]));
    assert_eq!(snap.messages_per_severity, HashMap::from([(7u8, 1u64), (0, 1), (255, 1)]));
    assert_eq!(snap.total_messages, 3);
}

#[test]
fn snapshot_names_the_first_ten_sources_in_order() {
    let mut s = Stats::new();
    for i in (0..25).rev() {
        s.record(1, 1, &format!("192.168.1.{}", i));
    }
    let snap = s.snapshot();
    // texts compare character by character: "192.168.1.1" < "192.168.1.10" < "192.168.1.2"
    let mut all: Vec<String> = (0..25).map(|i| format!("192.168.1.{}", i)).collect();
    all.sort();
    all.truncate(10);
    assert_eq!(snap.recent_sources, all);
    assert_eq!(snap.recent_sources[0], "192.168.1.0");
    assert_eq!(snap.recent_sources[1], "192.168.1.1");
    assert_eq!(snap.recent_sources[2], "192.168.1.10");
    assert_eq!(snap.recent_sources[9], "192.168.1.17");
    assert_eq!(snap.total_messages, 25);
}

#[test]
fn sources_sort_by_code_point_with_prefixes_first() {
    let mut s = Stats::new();
    for a in ["b", "", "ab", "a", "é", "z", "B", "a\u{10000}", "a\u{ffff}"] {
        s.record(0, 0, a);
    }
    let snap = s.snapshot();
    assert_eq!(
        snap.recent_sources,
        vec!["", "B", "a", "ab", "a\u{ffff}", "a\u{10000}", "b", "z", "é"]
            .into_iter()
            .map(String::from)
            .collect::<Vec<_>>()
    );
}

#[test]
fn clearing_then_snapshot_is_empty() {
    let mut s = Stats::new();
    for i in 0..50u8 {
        s.record(i % 24, i % 8, "host");
    }
    assert_eq!(s.snapshot().total_messages, 50);
    s.clear();
    let snap = s.snapshot();
    assert_eq!(snap.total_messages, 0);
    assert!(snap.messages_per_facility.is_empty());
    assert!(snap.messages_per_severity.is_empty());
    assert!(snap.recent_sources.is_empty());
    s.record(3, 3, "again");
    let snap = s.snapshot();
    assert_eq!(snap.total_messages, 1);
    assert_eq!(snap.messages_per_facility, HashMap::from([(3u8, 1u64)]));
    assert_eq!(snap.recent_sources, vec!["again".to_string()]);
}

#[test]
fn a_source_that_looks_like_another_key_stays_a_source() {
    let mut s = Stats::new();
    s.record(1, 2, "facility_9");
    s.record(1, 2, "_7");
    let snap = s.snapshot();
    assert_eq!(snap.messages_per_facility, HashMap::from([(1u8, 2u64)]));
    assert_eq!(snap.messages_per_severity, HashMap::from([(2u8, 2u64)]));
    assert_eq!(snap.recent_sources, vec!["_7".to_string(), "facility_9".to_string()]);
}

#[test]
fn counters_stop_at_the_top() {
    assert_eq!(count_after(0), 1);
    assert_eq!(count_after(41), 42);
    assert_eq!(count_after(u64::MAX - 1), u64::MAX);
    assert_eq!(count_after(u64::MAX), u64::MAX);
}

#[test]
fn keys_are_classified() {
    assert!(matches!(classify("facility_0"), CounterKey::Facility(0)));
    assert!(matches!(classify("facility_23"), CounterKey::Facility(23)));
    assert!(matches!(classify("facility_255"), CounterKey::Facility(255)));
    assert!(matches!(classify("severity_7"), CounterKey::Severity(7)));
    assert!(matches!(classify("facility_256"), CounterKey::Other));
    assert!(matches!(classify("facility_07"), CounterKey::Other));
    assert!(matches!(classify("facility_+7"), CounterKey::Other));
    assert!(matches!(classify("facility_"), CounterKey::Other));
    assert!(matches!(classify("severity_x"), CounterKey::Other));
    assert!(matches!(classify("facility"), CounterKey::Other));
    assert!(matches!(classify(""), CounterKey::Other));
    assert!(matches!(classify("sources_1"), CounterKey::Other));
    match classify("source_10.1.2.3") {
        CounterKey::Source(a) => assert_eq!(a, "10.1.2.3"),
        other => panic!("{:?}", other),
    }
    match classify("source_") {
        CounterKey::Source(a) => assert_eq!(a, ""),
        other => panic!("{:?}", other),
    }
}
