use syslog_collector::message::{SyslogMessage, Timestamp};
use syslog_collector::parser::parse_with;
use syslog_collector::store::BoundedStore;

fn record(id: &str, text: &str) -> SyslogMessage {
    parse_with(text, "10.0.0.1", id.to_string(), Timestamp { secs: 0, nanos: 0 })
}

#[test]
fn insert_is_idempotent_on_a_duplicate_id() {
    let mut s = BoundedStore::new();
    assert!(s.insert(record("a", "first")));
    assert!(s.insert(record("b", "second")));
    assert!(!s.insert(record("a", "third")));
    assert_eq!(s.count(), 2);
    assert_eq!(s.get("a").map(|m| m.message), Some("first".to_string()));
    assert_eq!(s.get("b").map(|m| m.message), Some("second".to_string()));
    assert!(s.get("c").is_none());
    assert!(s.contains("a"));
    assert!(!s.contains("c"));
    assert!(!s.contains(""));
}

#[test]
fn delete_oldest_goes_by_insertion() {
    let mut s = BoundedStore::new();
    for id in ["z", "y", "x", "w"] {
        assert!(s.insert(record(id, id)));
    }
    assert_eq!(s.delete_oldest(0), 0);
    assert_eq!(s.count(), 4);
    assert_eq!(s.delete_oldest(2), 2);
    assert_eq!(s.count(), 2);
    assert!(!s.contains("z"));
    assert!(!s.contains("y"));
    assert!(s.contains("x"));
    assert!(s.contains("w"));
    assert_eq!(s.delete_oldest(5), 2);
    assert_eq!(s.count(), 0);
    assert_eq!(s.delete_oldest(u64::MAX), 0);
    // an id that left may come again
    assert!(s.insert(record("z", "again")));
}

#[test]
fn clear_empties_the_store() {
    let mut s = BoundedStore::new();
    s.insert(record("a", "1"));
    s.insert(record("b", "2"));
    s.clear();
    assert_eq!(s.count(), 0);
    assert!(!s.contains("a"));
    assert!(s.insert(record("a", "3")));
    assert_eq!(s.count(), 1);
}
