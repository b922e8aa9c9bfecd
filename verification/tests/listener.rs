use syslog_collector::listener::{accept_datagram, accept_line, on_read, trim, ConnectionStep, ReadEvent, READ_TIMEOUT_SECS};
use syslog_collector::parser::SyslogParser;

#[test]
fn trim_removes_unicode_white_space() {
    assert_eq!(trim("  hello \t\r\n"), "hello");
    assert_eq!(trim("hello"), "hello");
    assert_eq!(trim(""), "");
    assert_eq!(trim(" \n\t "), "");
    assert_eq!(trim("\u{a0}\u{3000}a b\u{2028}\u{85}"), "a b");
    assert_eq!(trim("\u{200b}x"), "\u{200b}x");
    for s in ["  a  b  ", "\u{1680}x\u{205f}", "\u{feff}x", "\u{1c}x\u{1f}", "é ", "\u{180e}x"] {
        assert_eq!(trim(s), s.trim(), "{:?}", s);
    }
}

#[test]
fn every_white_space_character_is_trimmed_and_no_other() {
    for u in 0..=0x3100u32 {
        if let Some(c) = char::from_u32(u) {
            let s = format!("{}x{}", c, c);
            assert_eq!(trim(&s), s.trim(), "U+{:04X}", u);
        }
    }
}

#[test]
fn blank_lines_are_not_accepted() {
    assert_eq!(accept_line(""), None);
    assert_eq!(accept_line("   \r\n"), None);
    assert_eq!(accept_line(" <13>x \n"), Some("<13>x".to_string()));
}

#[test]
fn datagrams_must_be_text() {
    assert_eq!(accept_datagram(b"<13>hello\n"), Some("<13>hello".to_string()));
    assert_eq!(accept_datagram(b""), None);
    assert_eq!(accept_datagram(b" \n"), None);
    assert_eq!(accept_datagram(&[0xff, 0xfe, 0x41]), None);
    assert_eq!(accept_datagram(&[0xc3]), None);
    assert_eq!(accept_datagram(&[0xed, 0xa0, 0x80]), None);
    assert_eq!(accept_datagram("  h\u{f4}te ".as_bytes()), Some("h\u{f4}te".to_string()));
}

#[test]
fn reads_decide_the_connection() {
    assert!(matches!(on_read(ReadEvent::Line(" <13>x ".to_string())), ConnectionStep::Deliver(t) if t == "<13>x"));
    assert!(matches!(on_read(ReadEvent::Line("  ".to_string())), ConnectionStep::Skip));
    assert!(matches!(on_read(ReadEvent::Line(String::new())), ConnectionStep::Skip));
    assert!(matches!(on_read(ReadEvent::End), ConnectionStep::Close));
    assert!(matches!(on_read(ReadEvent::Failed), ConnectionStep::Close));
    assert!(matches!(on_read(ReadEvent::TimedOut), ConnectionStep::Close));
    assert_eq!(READ_TIMEOUT_SECS, 30);
}

#[test]
fn received_lines_are_parsed_trimmed() {
    let p = SyslogParser::new();
    let m = p.receive_line("  <34>Oct 11 22:14:15 myhost su[1234]: failure \r\n", "192.0.2.7").unwrap();
    assert_eq!(m.raw_message, "<34>Oct 11 22:14:15 myhost su[1234]: failure");
    assert_eq!(m.message, "failure");
    assert_eq!(m.source_ip, "192.0.2.7");
    assert!(p.receive_line(" \t ", "192.0.2.7").is_none());
    let m = p.receive_datagram(b"<190>1 2024-01-01T00:00:00Z host app 123 MSG001 hello\n", "::1").unwrap();
    assert_eq!((m.facility, m.severity), (23, 6));
    assert_eq!(m.msg_id.as_deref(), Some("MSG001"));
    assert_eq!(m.source_ip, "::1");
    assert!(p.receive_datagram(&[0x80], "::1").is_none());
    assert!(p.receive_datagram(b"\n", "::1").is_none());
}
