use syslog_collector::message::Timestamp;
use syslog_collector::parser::parse_with;
use syslog_collector::sender::{priority, rfc3164_line, rfc5424_line, SyslogSender};

#[test]
fn sender_keeps_its_target() {
    let s = SyslogSender::new("localhost".to_string(), 514, 1514);
    assert_eq!(s.host, "localhost");
    assert_eq!(s.udp_port, 514);
    assert_eq!(s.tcp_port, 1514);
    assert_eq!(s.udp_target(), "localhost:514");
    assert_eq!(s.tcp_target(), "localhost:1514");
    let s = SyslogSender::new("::1".to_string(), 0, 65535);
    assert_eq!(s.udp_target(), "::1:0");
    assert_eq!(s.tcp_target(), "::1:65535");
}

#[test]
fn priority_is_facility_times_eight_plus_severity() {
    assert_eq!(priority(16, 6), Some(134));
    assert_eq!(priority(0, 3), Some(3));
    assert_eq!(priority(23, 4), Some(188));
    assert_eq!(priority(31, 7), Some(255));
    assert_eq!(priority(0, 255), Some(255));
    assert_eq!(priority(31, 8), None);
    assert_eq!(priority(32, 0), None);
    assert_eq!(priority(255, 255), None);
}

#[test]
fn rfc3164_line_is_composed() {
    assert_eq!(
        rfc3164_line(134, "Oct 11 22:14:15", "testhost1", "myapp", "This is a test info message #1"),
        "<134>Oct 11 22:14:15 testhost1 myapp: This is a test info message #1"
    );
    assert_eq!(rfc3164_line(0, "", "", "", ""), "<0>  : ");
}

#[test]
fn rfc5424_line_is_composed() {
    assert_eq!(
        rfc5424_line(3, "2024-01-01T00:00:00+00:00", "testhost2", "kernel", "0", "ERR001", "boom"),
        "<3>1 2024-01-01T00:00:00+00:00 testhost2 kernel 0 ERR001 - boom"
    );
}

#[test]
fn composed_lines_parse_back() {
    let line = rfc5424_line(188, "2024-01-01T00:00:00+00:00", "testhost3", "webapp", "5678", "WARN001", "warn #3");
    let m = parse_with(&line, "127.0.0.1", "x".to_string(), Timestamp { secs: 1, nanos: 2 });
    assert_eq!((m.facility, m.severity), (23, 4));
    assert_eq!(m.hostname.as_deref(), Some("testhost3"));
    assert_eq!(m.app_name.as_deref(), Some("webapp"));
    assert_eq!(m.proc_id.as_deref(), Some("5678"));
    assert_eq!(m.msg_id.as_deref(), Some("WARN001"));
    assert_eq!(m.message, "- warn #3");
    let line = rfc3164_line(10, "Jan  1 00:00:00", "testhost4", "daemon", "crit #4");
    let m = parse_with(&line, "127.0.0.1", "x".to_string(), Timestamp { secs: 1, nanos: 2 });
    assert_eq!((m.facility, m.severity), (1, 2));
    assert_eq!(m.hostname.as_deref(), Some("testhost4"));
    assert_eq!(m.app_name.as_deref(), Some("daemon"));
    assert_eq!(m.proc_id, None);
    assert_eq!(m.message, "crit #4");
}
