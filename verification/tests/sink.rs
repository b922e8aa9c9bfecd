use syslog_collector::broadcast::Delivery;
use syslog_collector::message::{SyslogMessage, Timestamp};
use syslog_collector::parser::parse_with;
use syslog_collector::sink::{eviction_count, next_step, Pipeline, SinkStep, StoreReply};
use syslog_collector::store::BoundedStore;

fn record(n: u32) -> SyslogMessage {
    parse_with(&format!("<{}>message {}", n % 192, n), "10.0.0.1", format!("id-{}", n), Timestamp { secs: n as i64, nanos: 0 })
}

#[test]
fn eviction_drops_to_half_the_ceiling() {
    assert_eq!(eviction_count(101, 100), 51);
    assert_eq!(eviction_count(100, 100), 0);
    assert_eq!(eviction_count(0, 100), 0);
    assert_eq!(eviction_count(250, 100), 200);
    assert_eq!(eviction_count(102, 101), 52);
    assert_eq!(eviction_count(1, 0), 1);
    assert_eq!(eviction_count(2, 1), 2);
    assert_eq!(eviction_count(u64::MAX, u64::MAX), 0);
    assert_eq!(eviction_count(u64::MAX, 0), u64::MAX);
    assert_eq!(eviction_count(10001, 10000), 5001);
}

#[test]
fn store_of_100_holds_50_after_the_101st_insert() {
    let mut p = Pipeline::new(100, 1000);
    let mut store = BoundedStore::new();
    for n in 0..100 {
        p.sink(&mut store, record(n));
        assert_eq!(store.count(), n as usize + 1);
    }
    p.sink(&mut store, record(100));
    assert_eq!(store.count(), 50);
    // the oldest went, the newest stayed
    assert!(!store.contains("id-0"));
    assert!(!store.contains("id-50"));
    assert!(store.contains("id-51"));
    assert!(store.contains("id-100"));
    for n in 101..400 {
        p.sink(&mut store, record(n));
        assert!(store.count() <= 100);
        assert!(store.count() >= 50);
        assert!(store.contains(&format!("id-{}", n)));
    }
    assert_eq!(p.stats.snapshot().total_messages, 400);
}

#[test]
fn odd_ceiling_settles_at_its_half_rounded_down() {
    let mut p = Pipeline::new(101, 10);
    let mut store = BoundedStore::new();
    for n in 0..102 {
        p.sink(&mut store, record(n));
    }
    assert_eq!(store.count(), 50);
}

#[test]
fn steps_follow_the_store() {
    assert_eq!(next_step(SinkStep::Insert, StoreReply::Done, 100), SinkStep::Count);
    assert_eq!(next_step(SinkStep::Insert, StoreReply::Failed, 100), SinkStep::Count);
    assert_eq!(next_step(SinkStep::Count, StoreReply::Holds(100), 100), SinkStep::Publish);
    assert_eq!(next_step(SinkStep::Count, StoreReply::Holds(101), 100), SinkStep::Evict(51));
    assert_eq!(next_step(SinkStep::Count, StoreReply::Failed, 100), SinkStep::Publish);
    assert_eq!(next_step(SinkStep::Count, StoreReply::Done, 100), SinkStep::Publish);
    assert_eq!(next_step(SinkStep::Evict(51), StoreReply::Done, 100), SinkStep::Publish);
    assert_eq!(next_step(SinkStep::Evict(51), StoreReply::Failed, 100), SinkStep::Publish);
    assert_eq!(next_step(SinkStep::Publish, StoreReply::Done, 100), SinkStep::Publish);
}

#[test]
fn a_failing_store_does_not_stop_counting_or_publishing() {
    let mut p = Pipeline::new(100, 10);
    let id = p.broadcaster.subscribe();
    let msg = record(7);
    let mut step = p.begin(&msg);
    let mut asked = Vec::new();
    while step != SinkStep::Publish {
        asked.push(step);
        step = p.advance(step, StoreReply::Failed);
    }
    p.finish(msg);
    assert_eq!(asked, vec![SinkStep::Insert, SinkStep::Count]);
    assert_eq!(p.stats.snapshot().total_messages, 1);
    match p.broadcaster.poll(id) {
        Delivery::Message(m) => assert_eq!(m.id, "id-7"),
        other => panic!("{:?}", other),
    }
}

#[test]
fn steps_drive_an_outside_store() {
    // a table kept by the caller, as a database would be
    let mut table: Vec<String> = Vec::new();
    let mut p = Pipeline::new(100, 10);
    for n in 0..101 {
        let msg = record(n);
        let mut step = p.begin(&msg);
        loop {
            let reply = match step {
                SinkStep::Insert => {
                    table.push(msg.id.clone());
                    StoreReply::Done
                }
                SinkStep::Count => StoreReply::Holds(table.len() as u64),
                SinkStep::Evict(k) => {
                    table.drain(..k as usize);
                    StoreReply::Done
                }
                SinkStep::Publish => break,
            };
            step = p.advance(step, reply);
        }
        p.finish(msg);
        assert!(table.len() <= 100);
    }
    assert_eq!(table.len(), 50);
    assert_eq!(table[0], "id-51");
}

#[test]
fn sink_counts_and_publishes() {
    let mut p = Pipeline::new(10, 10);
    let mut store = BoundedStore::new();
    let id = p.broadcaster.subscribe();
    p.sink(&mut store, parse_with("<34>Oct 11 22:14:15 myhost su[1234]: failure", "192.0.2.1", "a".to_string(), Timestamp { secs: 0, nanos: 0 }));
    p.sink(&mut store, parse_with("plain", "192.0.2.2", "b".to_string(), Timestamp { secs: 0, nanos: 0 }));
    let snap = p.stats.snapshot();
    assert_eq!(snap.total_messages, 2);
    assert_eq!(snap.messages_per_facility.get(&4), Some(&1));
    assert_eq!(snap.messages_per_facility.get(&16), Some(&1));
    assert_eq!(snap.messages_per_severity.get(&2), Some(&1));
    assert_eq!(snap.messages_per_severity.get(&6), Some(&1));
    assert_eq!(snap.recent_sources, vec!["192.0.2.1".to_string(), "192.0.2.2".to_string()]);
    assert!(matches!(p.broadcaster.poll(id), Delivery::Message(m) if m.id == "a"));
    assert!(matches!(p.broadcaster.poll(id), Delivery::Message(m) if m.id == "b"));
    assert!(matches!(p.broadcaster.poll(id), Delivery::Empty));
    assert_eq!(store.count(), 2);
}

#[test]
fn clearing_follows_the_store() {
    let mut p = Pipeline::new(10, 10);
    let mut store = BoundedStore::new();
    p.sink(&mut store, record(1));
    assert!(!p.cleared(false));
    assert_eq!(p.stats.snapshot().total_messages, 1);
    store.clear();
    assert!(p.cleared(true));
    let snap = p.stats.snapshot();
    assert_eq!(snap.total_messages, 0);
    assert!(snap.messages_per_facility.is_empty());
    assert!(snap.messages_per_severity.is_empty());
    assert!(snap.recent_sources.is_empty());
    assert_eq!(store.count(), 0);
}
