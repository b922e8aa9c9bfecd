use syslog_collector::grammar::Class;
use syslog_collector::scan::{
    find_char, find_last_char, find_pid_bracket, is_single_line, locate, read_decimal, read_header,
    read_small_number, scan_back, scan_field, scan_run, scan_stamp,
};

fn chars(s: &str) -> Vec<char> {
    s.chars().collect()
}

#[test]
fn runs_are_scanned() {
    let cs = chars("  ab12  ");
    assert_eq!(scan_run(&cs, 0, Class::Space), 2);
    assert_eq!(scan_run(&cs, 2, Class::Space), 2);
    assert_eq!(scan_run(&cs, 2, Class::Token), 6);
    assert_eq!(scan_run(&cs, 4, Class::Digit), 6);
    assert_eq!(scan_run(&cs, 6, Class::Space), 8);
    assert_eq!(scan_run(&cs, 8, Class::Space), 8);
    assert_eq!(scan_back(&cs, 8, Class::Space), 6);
    assert_eq!(scan_back(&cs, 6, Class::Digit), 4);
    assert_eq!(scan_back(&cs, 6, Class::Token), 2);
    assert_eq!(scan_back(&cs, 0, Class::Token), 0);
}

#[test]
fn characters_are_found() {
    let cs = chars("a:b:c\nd");
    assert_eq!(find_char(&cs, ':', 0), 1);
    assert_eq!(find_char(&cs, ':', 2), 3);
    assert_eq!(find_char(&cs, ':', 4), 7);
    assert_eq!(find_last_char(&cs, ':', 0, 7), Some(3));
    assert_eq!(find_last_char(&cs, ':', 0, 3), Some(1));
    assert_eq!(find_last_char(&cs, ':', 2, 3), None);
    assert_eq!(find_last_char(&cs, ':', 5, 2), None);
    assert!(!is_single_line(&cs, 0));
    assert!(!is_single_line(&cs, 5));
    assert!(is_single_line(&cs, 6));
    assert!(is_single_line(&cs, 7));
}

#[test]
fn numbers_are_read() {
    let cs = chars("x255y0256z+7");
    assert_eq!(read_decimal(&cs, 1, 4), Some(255));
    assert_eq!(read_decimal(&cs, 5, 9), None);
    assert_eq!(read_decimal(&cs, 5, 8), Some(25));
    assert_eq!(read_decimal(&cs, 3, 3), Some(0));
    assert_eq!(read_small_number(&cs, 10, 12), Some(7));
    assert_eq!(read_small_number(&cs, 10, 11), None);
    assert_eq!(read_small_number(&cs, 0, 4), None);
    assert_eq!(read_small_number(&cs, 5, 9), None);
    assert_eq!(read_small_number(&cs, 5, 6), Some(0));
    assert_eq!(read_small_number(&cs, 4, 4), None);
    assert_eq!(read_small_number(&chars("00000000000000000000000255"), 0, 26), Some(255));
    assert_eq!(read_small_number(&chars("99999999999999999999999999"), 0, 26), None);
}

#[test]
fn headers_and_fields_are_read() {
    assert_eq!(read_header(&chars("<34>x")), Some((34, 4)));
    assert_eq!(read_header(&chars("<034>")), Some((34, 5)));
    assert_eq!(read_header(&chars("<0>")), Some((0, 3)));
    assert_eq!(read_header(&chars("<256>")), None);
    assert_eq!(read_header(&chars("<0034>")), None);
    assert_eq!(read_header(&chars("<>")), None);
    assert_eq!(read_header(&chars("<12")), None);
    assert_eq!(read_header(&chars("")), None);
    let cs = chars("a  bc d");
    let f = scan_field(&cs, 1).unwrap();
    assert_eq!((f.start, f.end), (3, 5));
    assert!(scan_field(&cs, 0).is_none());
    assert!(scan_field(&cs, 3).is_none());
    assert!(scan_field(&chars("a  "), 1).is_none());
    assert_eq!(scan_stamp(&chars("Oct 11 22:14:15 x"), 0), Some(15));
    assert_eq!(scan_stamp(&chars("Oct  1 22:14:15"), 0), Some(15));
    assert_eq!(scan_stamp(&chars("Oct 11 22:14:1"), 0), None);
    assert_eq!(scan_stamp(&chars("Oc"), 0), None);
    assert_eq!(find_pid_bracket(&chars("su[1234]")), Some(2));
    assert_eq!(find_pid_bracket(&chars("[1234]")), None);
    assert_eq!(find_pid_bracket(&chars("su[]")), None);
    assert_eq!(find_pid_bracket(&chars("su1234]")), None);
    assert_eq!(find_pid_bracket(&chars("")), None);
}

#[test]
fn layouts_are_located() {
    let m = locate(&chars("<34>Oct 11 22:14:15 myhost su[1234]: failure"));
    assert_eq!(m.priority, 34);
    let h = m.hostname.unwrap();
    assert_eq!((h.start, h.end), (20, 26));
    let a = m.app_name.unwrap();
    assert_eq!((a.start, a.end), (27, 29));
    let p = m.proc_id.unwrap();
    assert_eq!((p.start, p.end), (30, 34));
    assert!(m.msg_id.is_none());
    assert_eq!(m.message, 37);
    let m = locate(&chars("hello"));
    assert_eq!(m.priority, 134);
    assert_eq!(m.message, 0);
    let m = locate(&chars("<x>hello"));
    assert_eq!(m.priority, 16);
    assert_eq!(m.message, 3);
}
