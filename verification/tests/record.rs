use syslog_collector::message::{SyslogMessage, Timestamp};
use syslog_collector::parser::parse_with;
use syslog_collector::record::{level_of, record_with, row_with, StoredRecord};

fn sample() -> SyslogMessage {
    parse_with(
        "<34>Oct 11 22:14:15 myhost su[1234]: failure",
        "192.0.2.1",
        "abc".to_string(),
        Timestamp { secs: 1_704_067_200, nanos: 0 },
    )
}

#[test]
fn row_carries_every_column() {
    let row = StoredRecord::from_message(&sample()).unwrap();
    assert_eq!(row.id, "abc");
    assert_eq!(row.timestamp, "2024-01-01T00:00:00+00:00");
    assert_eq!(row.facility, 4);
    assert_eq!(row.severity, 2);
    assert_eq!(row.hostname.as_deref(), Some("myhost"));
    assert_eq!(row.app_name.as_deref(), Some("su"));
    assert_eq!(row.proc_id.as_deref(), Some("1234"));
    assert_eq!(row.msg_id, None);
    assert_eq!(row.message, "failure");
    assert_eq!(row.raw_message, "<34>Oct 11 22:14:15 myhost su[1234]: failure");
    assert_eq!(row.source_ip, "192.0.2.1");
}

#[test]
fn time_is_written_with_its_fraction() {
    let mut m = sample();
    m.timestamp = Timestamp { secs: 1_704_067_200, nanos: 123_000_000 };
    assert_eq!(StoredRecord::from_message(&m).unwrap().timestamp, "2024-01-01T00:00:00.123+00:00");
    m.timestamp = Timestamp { secs: 0, nanos: 1 };
    assert_eq!(StoredRecord::from_message(&m).unwrap().timestamp, "1970-01-01T00:00:00.000000001+00:00");
    m.timestamp = Timestamp { secs: -1, nanos: 0 };
    assert_eq!(StoredRecord::from_message(&m).unwrap().timestamp, "1969-12-31T23:59:59+00:00");
}

#[test]
fn a_time_beyond_the_calendar_has_no_row() {
    let mut m = sample();
    m.timestamp = Timestamp { secs: i64::MAX, nanos: 0 };
    assert!(StoredRecord::from_message(&m).is_none());
    m.timestamp = Timestamp { secs: i64::MIN, nanos: 0 };
    assert!(StoredRecord::from_message(&m).is_none());
    m.timestamp = Timestamp { secs: 0, nanos: 2_000_000_000 };
    assert!(StoredRecord::from_message(&m).is_none());
}

#[test]
fn record_comes_back_from_its_row() {
    let m = sample();
    let back = StoredRecord::from_message(&m).unwrap().into_message();
    assert_eq!(back.id, m.id);
    assert_eq!(back.timestamp, m.timestamp);
    assert_eq!((back.facility, back.severity), (m.facility, m.severity));
    assert_eq!(back.hostname, m.hostname);
    assert_eq!(back.app_name, m.app_name);
    assert_eq!(back.proc_id, m.proc_id);
    assert_eq!(back.msg_id, m.msg_id);
    assert_eq!(back.message, m.message);
    assert_eq!(back.raw_message, m.raw_message);
    assert_eq!(back.source_ip, m.source_ip);
}

#[test]
fn stored_time_is_read_in_any_offset() {
    let mut row = row_with(&sample(), "2024-01-01T01:00:00.5+01:00".to_string());
    assert_eq!(row.timestamp, "2024-01-01T01:00:00.5+01:00");
    row.facility = 23;
    let m = row.into_message();
    assert_eq!(m.timestamp, Timestamp { secs: 1_704_067_200, nanos: 500_000_000 });
    assert_eq!(m.facility, 23);
    let m = row_with(&sample(), "2024-01-01T00:00:00Z".to_string()).into_message();
    assert_eq!(m.timestamp, Timestamp { secs: 1_704_067_200, nanos: 0 });
}

#[test]
fn unreadable_time_becomes_the_current_time() {
    let m = row_with(&sample(), "yesterday".to_string()).into_message();
    assert!(m.timestamp.secs > 1_704_067_200);
    assert!(m.timestamp.nanos < 1_000_000_000);
    assert_eq!(m.id, "abc");
    let m = row_with(&sample(), String::new()).into_message();
    assert!(m.timestamp.secs > 1_704_067_200);
}

#[test]
fn stored_numbers_are_cut_to_eight_bits() {
    assert_eq!(level_of(0), 0);
    assert_eq!(level_of(23), 23);
    assert_eq!(level_of(255), 255);
    assert_eq!(level_of(256), 0);
    assert_eq!(level_of(257), 1);
    assert_eq!(level_of(-1), 255);
    assert_eq!(level_of(-256), 0);
    assert_eq!(level_of(-257), 255);
    assert_eq!(level_of(i32::MAX), 255);
    assert_eq!(level_of(i32::MIN), 0);
    for v in [-1000, -129, -128, -1, 0, 1, 127, 128, 511, 70000, i32::MIN + 1] {
        assert_eq!(level_of(v), v as u8, "{}", v);
    }
    let mut row = StoredRecord::from_message(&sample()).unwrap();
    row.facility = 260;
    row.severity = -1;
    let m = record_with(row, Timestamp { secs: 5, nanos: 6 });
    assert_eq!((m.facility, m.severity), (4, 255));
    assert_eq!(m.timestamp, Timestamp { secs: 5, nanos: 6 });
}
