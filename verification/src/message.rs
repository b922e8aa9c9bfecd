//! The normalized record that every accepted line becomes.

use vstd::prelude::*;

verus! {

/// An instant: seconds and nanoseconds since the Unix epoch, in UTC.
#[derive(Clone, Copy, Debug, PartialEq, Eq, Structural)]
pub struct Timestamp {
    pub secs: i64,
    pub nanos: u32,
}

/// The facility that a priority carries: its upper five bits.
pub open spec fn facility_of(priority: u8) -> u8 {
    priority >> 3
}

/// The severity that a priority carries: its lower three bits.
pub open spec fn severity_of(priority: u8) -> u8 {
    priority & 7
}

/// A normalized syslog record.
#[derive(Debug)]
pub struct SyslogMessage {
    /// Unique identifier, assigned when the line was parsed.
    pub id: String,
    /// When the line was parsed; not a time found in its text.
    pub timestamp: Timestamp,
    pub facility: u8,
    pub severity: u8,
    pub hostname: Option<String>,
    pub app_name: Option<String>,
    pub proc_id: Option<String>,
    pub msg_id: Option<String>,
    /// What follows the header.
    pub message: String,
    /// The line as it was received.
    pub raw_message: String,
    /// The sender's address, as text.
    pub source_ip: String,
}

/// A record as mathematics: its texts are sequences of characters.
pub struct MessageView {
    pub id: Seq<char>,
    pub timestamp: Timestamp,
    pub facility: u8,
    pub severity: u8,
    pub hostname: Option<Seq<char>>,
    pub app_name: Option<Seq<char>>,
    pub proc_id: Option<Seq<char>>,
    pub msg_id: Option<Seq<char>>,
    pub message: Seq<char>,
    pub raw_message: Seq<char>,
    pub source_ip: Seq<char>,
}

/// An optional text, as mathematics.
pub open spec fn text_view(t: Option<String>) -> Option<Seq<char>> {
    match t {
        Some(s) => Some(s@),
        None => None,
    }
}

impl View for SyslogMessage {
    type V = MessageView;

    open spec fn view(&self) -> MessageView {
        MessageView {
            id: self.id@,
            timestamp: self.timestamp,
            facility: self.facility,
            severity: self.severity,
            hostname: text_view(self.hostname),
            app_name: text_view(self.app_name),
            proc_id: text_view(self.proc_id),
            msg_id: text_view(self.msg_id),
            message: self.message@,
            raw_message: self.raw_message@,
            source_ip: self.source_ip@,
        }
    }
}

/// A copy of an optional text.
pub fn copy_text(t: &Option<String>) -> (r: Option<String>)
    ensures
        text_view(r) == text_view(*t),
{
    match t {
        Some(s) => Some(s.clone()),
        None => None,
    }
}

impl Clone for SyslogMessage {
    fn clone(&self) -> (r: Self)
        ensures
            r@ == self@,
    {
        SyslogMessage {
            id: self.id.clone(),
            timestamp: self.timestamp,
            facility: self.facility,
            severity: self.severity,
            hostname: copy_text(&self.hostname),
            app_name: copy_text(&self.app_name),
            proc_id: copy_text(&self.proc_id),
            msg_id: copy_text(&self.msg_id),
            message: self.message.clone(),
            raw_message: self.raw_message.clone(),
            source_ip: self.source_ip.clone(),
        }
    }
}

} // verus!
