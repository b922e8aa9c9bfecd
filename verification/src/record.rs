//! The stored form of a record: what a durable table holds of it, column by
//! column, and the way from a record to its row and back.

use vstd::prelude::*;
use vstd::string::*;
use crate::ambient::{now, read_instant, rfc3339_instant, rfc3339_text, write_instant};
use crate::message::{copy_text, text_view, MessageView, SyslogMessage, Timestamp};

verus! {

/// A row of the table of records.
#[derive(Debug)]
pub struct StoredRecord {
    /// The key of the table.
    pub id: String,
    /// The record's time, as RFC 3339 text.
    pub timestamp: String,
    pub facility: i32,
    pub severity: i32,
    pub hostname: Option<String>,
    pub app_name: Option<String>,
    pub proc_id: Option<String>,
    pub msg_id: Option<String>,
    pub message: String,
    pub raw_message: String,
    pub source_ip: String,
}

/// A row as mathematics.
pub struct StoredView {
    pub id: Seq<char>,
    pub timestamp: Seq<char>,
    pub facility: i32,
    pub severity: i32,
    pub hostname: Option<Seq<char>>,
    pub app_name: Option<Seq<char>>,
    pub proc_id: Option<Seq<char>>,
    pub msg_id: Option<Seq<char>>,
    pub message: Seq<char>,
    pub raw_message: Seq<char>,
    pub source_ip: Seq<char>,
}

impl View for StoredRecord {
    type V = StoredView;

    open spec fn view(&self) -> StoredView {
        StoredView {
            id: self.id@,
            timestamp: self.timestamp@,
            facility: self.facility,
            severity: self.severity,
            hostname: text_view(self.hostname),
            app_name: text_view(self.app_name),
            proc_id: text_view(self.proc_id),
            msg_id: text_view(self.msg_id),
            message: self.message@,
            raw_message: self.raw_message@,
            source_ip: self.source_ip@,
        }
    }
}

/// The lowest eight bits of a stored number.
pub open spec fn low_byte(stored: i32) -> u8 {
    (stored as int % 256) as u8
}

/// The row of a record whose time is written `timestamp`.
pub open spec fn row_of(m: MessageView, timestamp: Seq<char>) -> StoredView {
    StoredView {
        id: m.id,
        timestamp,
        facility: m.facility as i32,
        severity: m.severity as i32,
        hostname: m.hostname,
        app_name: m.app_name,
        proc_id: m.proc_id,
        msg_id: m.msg_id,
        message: m.message,
        raw_message: m.raw_message,
        source_ip: m.source_ip,
    }
}

/// The record of a row whose time is `timestamp`. Facility and severity are
/// the lowest eight bits of what is stored.
pub open spec fn record_of(r: StoredView, timestamp: Timestamp) -> MessageView {
    MessageView {
        id: r.id,
        timestamp,
        facility: low_byte(r.facility),
        severity: low_byte(r.severity),
        hostname: r.hostname,
        app_name: r.app_name,
        proc_id: r.proc_id,
        msg_id: r.msg_id,
        message: r.message,
        raw_message: r.raw_message,
        source_ip: r.source_ip,
    }
}

/// The lowest eight bits of a stored number.
pub fn level_of(stored: i32) -> (b: u8)
    ensures
        b == low_byte(stored),
{
    if stored >= 0 {
        (stored % 256) as u8
    } else {
        let below: i32 = -(stored + 1);
        (255 - below % 256) as u8
    }
}

/// The row of a record, given its time as text.
pub fn row_with(msg: &SyslogMessage, timestamp: String) -> (row: StoredRecord)
    ensures
        row@ == row_of(msg@, timestamp@),
{
    StoredRecord {
        id: msg.id.clone(),
        timestamp,
        facility: msg.facility as i32,
        severity: msg.severity as i32,
        hostname: copy_text(&msg.hostname),
        app_name: copy_text(&msg.app_name),
        proc_id: copy_text(&msg.proc_id),
        msg_id: copy_text(&msg.msg_id),
        message: msg.message.clone(),
        raw_message: msg.raw_message.clone(),
        source_ip: msg.source_ip.clone(),
    }
}

/// The record of a row, given its time.
pub fn record_with(row: StoredRecord, timestamp: Timestamp) -> (msg: SyslogMessage)
    ensures
        msg@ == record_of(row@, timestamp),
{
    SyslogMessage {
        id: row.id,
        timestamp,
        facility: level_of(row.facility),
        severity: level_of(row.severity),
        hostname: row.hostname,
        app_name: row.app_name,
        proc_id: row.proc_id,
        msg_id: row.msg_id,
        message: row.message,
        raw_message: row.raw_message,
        source_ip: row.source_ip,
    }
}

impl StoredRecord {
    /// The row of a record. Its time is written as RFC 3339 text; a record
    /// whose time cannot be written so has no row.
    pub fn from_message(msg: &SyslogMessage) -> (r: Option<StoredRecord>)
        ensures
            match r {
                Some(row) => rfc3339_text(msg.timestamp.secs, msg.timestamp.nanos) == Some(
                    row.timestamp@,
                ) && row@ == row_of(msg@, row.timestamp@),
                None => rfc3339_text(msg.timestamp.secs, msg.timestamp.nanos) is None,
            },
    {
        match write_instant(msg.timestamp) {
            Some(text) => Some(row_with(msg, text)),
            None => None,
        }
    }

    /// The record of a row. Where the stored time cannot be read, the record
    /// gets the current time.
    pub fn into_message(self) -> (msg: SyslogMessage)
        ensures
            msg@ == record_of(self@, msg.timestamp),
            rfc3339_instant(self.timestamp@) matches Some(t) ==> msg.timestamp == (Timestamp {
                secs: t.0,
                nanos: t.1,
            }),
    {
        let timestamp = match read_instant(self.timestamp.as_str()) {
            Some(t) => t,
            None => now(),
        };
        record_with(self, timestamp)
    }
}

/// A record that went into its row comes out of it as it was, if the time that
/// was written is read back as the same time.
pub proof fn lemma_row_keeps_record(m: MessageView, text: Seq<char>)
    ensures
        record_of(row_of(m, text), m.timestamp) == m,
{
    let r = row_of(m, text);
    assert(low_byte(m.facility as i32) == m.facility);
    assert(low_byte(m.severity as i32) == m.severity);
}

} // verus!
