use regex::Regex;
use syslog_collector::message::{SyslogMessage, Timestamp};
use syslog_collector::parser::parse_with;

fn parse(line: &str) -> SyslogMessage {
    parse_with(line, "10.0.0.1", String::from("id"), Timestamp { secs: 0, nanos: 0 })
}

fn newer() -> Regex {
    Regex::new(r"^<(\d{1,3})>(\d)\s+(\S+)\s+(\S+)\s+(\S+)\s+(\S+)\s+(\S+)\s+(.*)$").unwrap()
}

fn older() -> Regex {
    Regex::new(r"^<(\d{1,3})>(\w{3}\s+\d{1,2}\s+\d{2}:\d{2}:\d{2})\s+(\S+)\s+(\S+)(?:\[(\d+)\])?:\s*(.*)$").unwrap()
}

fn corpus() -> Vec<String> {
    let mut lines: Vec<String> = Vec::new();
    let heads = ["<13>", "<0>", "<255>", "<256>", "<007>", "<1234>", "<>", "<1", "13>", "<a>", "< 13>", ""];
    let newer_bodies = [
        "1 2024-01-01T00:00:00Z host app 123 MSG001 hello",
        "1 2024-01-01T00:00:00Z host app 123 MSG001 hello world  again ",
        "1  ts\thost \t app  pid   mid    text",
        "1 ts host app pid mid ",
        "1 ts host app pid mid",
        "1 ts host app pid ",
        "1ts host app pid mid text",
        "12 ts host app pid mid text",
        "x ts host app pid mid text",
        "1 ts host app pid mid text\nmore",
        "1 ts host app pid mid \n",
        "1 ts host app pid mid\n text",
        "9 - - - - - -",
        "1 ts host app pid mid  leading and trailing  ",
    ];
    let older_bodies = [
        "Oct 11 22:14:15 myhost su[1234]: failure",
        "Oct 11 22:14:15 myhost su: failure",
        "Oct  1 22:14:15 myhost su[1234]:failure",
        "Oct 11 22:14:15 myhost su:failure:more and more",
        "Oct 11 22:14:15 myhost a:b:c: text",
        "Oct 11 22:14:15 myhost a:b:c text: more",
        "Oct 11 22:14:15 myhost su[12]x: text",
        "Oct 11 22:14:15 myhost su[]: text",
        "Oct 11 22:14:15 myhost su[1a]: text",
        "Oct 11 22:14:15 myhost [12]: text",
        "Oct 11 22:14:15 myhost su[1][2]: text",
        "Oct 11 22:14:15 myhost : text",
        "Oct 11 22:14:15 myhost :: text",
        "Oct 11 22:14:15 myhost su text",
        "Oct 11 22:14:15 myhost su",
        "Oct 11 22:14:15 myhost",
        "Oct 11 22:14:15  myhost   su:",
        "Oct 11 22:14:15 myhost su:   ",
        "Oct 11 22:14:15 myhost su: a\nb",
        "Oct 11 22:14:15 myhost su:\na",
        "Oct 11 22:14:15 myhost su: \n",
        "Oct 111 22:14:15 myhost su: text",
        "Oct 1 2:14:15 myhost su: text",
        "Oct 1 22:14:15x myhost su: text",
        "Oct 1 22-14-15 myhost su: text",
        "Octo 1 22:14:15 myhost su: text",
        "Oc 1 22:14:15 myhost su: text",
        "O_9 1 22:14:15 myhost su: text",
        "Oct1 22:14:15 myhost su: text",
        "Oct 1 22:14:15myhost su: text",
        "1ct 1 22:14:15 myhost su: text",
        "1 t 1 22:14:15 myhost su: text",
        "Oct\t1\t22:14:15\tmyhost\tsu[7]:\ttext",
    ];
    for h in heads {
        for b in newer_bodies.iter().chain(older_bodies.iter()) {
            lines.push(format!("{}{}", h, b));
        }
        lines.push(h.to_string());
    }
    lines
}

#[test]
fn newer_format_agrees_with_its_pattern() {
    let re = newer();
    let mut matched = 0;
    for line in corpus() {
        let m = parse(&line);
        let caps = re.captures(&line).filter(|c| c[1].parse::<u8>().is_ok());
        match caps {
            Some(c) => {
                matched += 1;
                let p: u8 = c[1].parse().unwrap();
                assert_eq!(m.facility, p >> 3, "{:?}", line);
                assert_eq!(m.severity, p & 7, "{:?}", line);
                assert_eq!(m.hostname.as_deref(), Some(&c[4]), "{:?}", line);
                assert_eq!(m.app_name.as_deref(), Some(&c[5]), "{:?}", line);
                assert_eq!(m.proc_id.as_deref(), Some(&c[6]), "{:?}", line);
                assert_eq!(m.msg_id.as_deref(), Some(&c[7]), "{:?}", line);
                assert_eq!(m.message, &c[8], "{:?}", line);
            }
            None => assert_eq!(m.msg_id, None, "{:?}", line),
        }
    }
    assert!(matched > 20);
}

#[test]
fn older_format_agrees_with_its_pattern_but_for_the_process_id() {
    let first = newer();
    let re = older();
    let mut matched = 0;
    let mut with_pid = 0;
    for line in corpus() {
        if first.captures(&line).filter(|c| c[1].parse::<u8>().is_ok()).is_some() {
            continue;
        }
        let m = parse(&line);
        let caps = re.captures(&line).filter(|c| c[1].parse::<u8>().is_ok());
        match caps {
            Some(c) => {
                matched += 1;
                let p: u8 = c[1].parse().unwrap();
                assert_eq!(m.facility, p >> 3, "{:?}", line);
                assert_eq!(m.severity, p & 7, "{:?}", line);
                assert_eq!(m.hostname.as_deref(), Some(&c[3]), "{:?}", line);
                assert_eq!(m.msg_id, None, "{:?}", line);
                assert_eq!(m.message, &c[6], "{:?}", line);
                // the pattern takes the bracket into the tag; the parser tells them apart
                let name = match &m.proc_id {
                    Some(pid) => {
                        with_pid += 1;
                        assert!(!pid.is_empty() && pid.chars().all(|d| d.is_ascii_digit()));
                        format!("{}[{}]", m.app_name.clone().unwrap(), pid)
                    }
                    None => m.app_name.clone().unwrap(),
                };
                assert_eq!(name, &c[4], "{:?}", line);
                assert!(!m.app_name.clone().unwrap().is_empty());
            }
            None => assert_eq!(m.hostname, None, "{:?}", line),
        }
    }
    assert!(matched > 40);
    assert!(with_pid > 5);
}

#[test]
fn letters_and_digits_of_other_scripts_are_not_taken() {
    // the patterns take any letter for the month and any digit for day, time
    // and version; the parser takes ASCII only and keeps such lines by their
    // brackets
    let older = older();
    for line in [
        "<34>f\u{e9}v 11 22:14:15 myhost su: failure",
        "<34>\u{43c}\u{430}\u{439} 11 22:14:15 myhost su: failure",
        "<34>Oct \u{661}\u{661} 22:14:15 myhost su: failure",
        "<34>Oct 11 22:14:1\u{665} myhost su: failure",
    ] {
        assert!(older.is_match(line), "{:?}", line);
        let m = parse(line);
        assert_eq!((m.facility, m.severity), (4, 2), "{:?}", line);
        assert_eq!(m.hostname, None, "{:?}", line);
        assert_eq!(m.app_name, None, "{:?}", line);
        assert_eq!(m.proc_id, None, "{:?}", line);
        assert_eq!(m.message, &line[4..], "{:?}", line);
    }
    let newer = newer();
    let line = "<34>\u{661} 2024-01-01T00:00:00Z host app 123 MSG001 hello";
    assert!(newer.is_match(line));
    let m = parse(line);
    assert_eq!((m.facility, m.severity), (4, 2));
    assert_eq!(m.hostname, None);
    assert_eq!(m.msg_id, None);
    assert_eq!(m.message, &line[4..]);
    // a process id in other digits stays in the tag
    let m = parse("<34>Oct 11 22:14:15 myhost su[\u{661}\u{662}]: failure");
    assert_eq!(m.hostname.as_deref(), Some("myhost"));
    assert_eq!(m.app_name.as_deref(), Some("su[\u{661}\u{662}]"));
    assert_eq!(m.proc_id, None);
    // white space is taken in every script, as the patterns take it
    let m = parse("<34>Oct\u{a0}11\u{2003}22:14:15\u{3000}myhost\u{2009}su:\u{a0}failure");
    assert_eq!(m.hostname.as_deref(), Some("myhost"));
    assert_eq!(m.app_name.as_deref(), Some("su"));
    assert_eq!(m.message, "failure");
    let m = parse("<34>1 t h\u{f4}te \u{43f}\u{440} 12 \u{438}\u{434} \u{2713} ok");
    let c = newer.captures("<34>1 t h\u{f4}te \u{43f}\u{440} 12 \u{438}\u{434} \u{2713} ok").unwrap();
    assert_eq!(m.hostname.as_deref(), Some(&c[4]));
    assert_eq!(m.app_name.as_deref(), Some(&c[5]));
    assert_eq!(m.msg_id.as_deref(), Some(&c[7]));
    assert_eq!(m.message, &c[8]);
}
