use syslog_collector::query::{LogQuery, DEFAULT_PAGE, LARGEST_PAGE};

const SELECT: &str = "SELECT id, timestamp, facility, severity, hostname, app_name, proc_id, msg_id, message, raw_message, source_ip FROM syslog_messages WHERE 1=1";

fn query() -> LogQuery {
    LogQuery { limit: None, offset: None, facility: None, severity: None, search: None }
}

#[test]
fn bare_request_gets_the_first_page() {
    let p = query().plan();
    assert_eq!(p.sql, format!("{} ORDER BY timestamp DESC LIMIT ? OFFSET ?", SELECT));
    assert_eq!(p.binds, vec!["100", "0"]);
}

#[test]
fn every_condition_adds_its_clause_and_values() {
    let q = LogQuery { limit: Some(20), offset: Some(40), facility: Some(4), severity: Some(2), search: Some("fail".to_string()) };
    let p = q.plan();
    assert_eq!(
        p.sql,
        format!(
            "{} AND facility = ? AND severity = ? AND (message LIKE ? OR hostname LIKE ? OR app_name LIKE ?) ORDER BY timestamp DESC LIMIT ? OFFSET ?",
            SELECT
        )
    );
    assert_eq!(p.binds, vec!["4", "2", "%fail%", "%fail%", "%fail%", "20", "40"]);
    assert_eq!(p.sql.matches('?').count(), p.binds.len());
}

#[test]
fn conditions_stand_alone() {
    let mut q = query();
    q.severity = Some(7);
    let p = q.plan();
    assert_eq!(p.sql, format!("{} AND severity = ? ORDER BY timestamp DESC LIMIT ? OFFSET ?", SELECT));
    assert_eq!(p.binds, vec!["7", "100", "0"]);
    let mut q = query();
    q.facility = Some(255);
    assert_eq!(q.plan().binds, vec!["255", "100", "0"]);
    let mut q = query();
    q.search = Some(String::new());
    assert_eq!(q.plan().binds, vec!["%%", "%%", "%%", "100", "0"]);
    let mut q = query();
    q.search = Some("50% o'clock".to_string());
    assert_eq!(q.plan().binds[0], "%50% o'clock%");
}

#[test]
fn page_is_capped() {
    let mut q = query();
    assert_eq!(q.page(), 100);
    assert_eq!(DEFAULT_PAGE, 100);
    assert_eq!(LARGEST_PAGE, 1000);
    q.limit = Some(0);
    assert_eq!(q.page(), 0);
    q.limit = Some(1000);
    assert_eq!(q.page(), 1000);
    q.limit = Some(1001);
    assert_eq!(q.page(), 1000);
    q.limit = Some(usize::MAX);
    q.offset = Some(usize::MAX);
    assert_eq!(q.page(), 1000);
    let p = q.plan();
    assert_eq!(p.binds, vec!["1000".to_string(), usize::MAX.to_string()]);
}
