//! The tolerant parser: any line becomes a record.

use vstd::prelude::*;
use vstd::string::*;
use crate::ambient::{fresh_id, is_uuid_text, now, rfc3339_text};
use crate::grammar::{line_layout, Span};
use crate::message::{facility_of, severity_of, MessageView, SyslogMessage, Timestamp};
use crate::scan::{locate, Mark};
use crate::text::{chars_of, cut};

verus! {

/// The text that a span covers, if there is a span.
pub open spec fn span_text(s: Seq<char>, sp: Option<Span>) -> Option<Seq<char>> {
    match sp {
        Some(x) => Some(s.subrange(x.start, x.end)),
        None => None,
    }
}

/// The record that the line `raw`, received from `source`, becomes when it is
/// given the identifier `id` and the time `timestamp`.
pub open spec fn message_of(
    raw: Seq<char>,
    source: Seq<char>,
    id: Seq<char>,
    timestamp: Timestamp,
) -> MessageView {
    let l = line_layout(raw);
    MessageView {
        id,
        timestamp,
        facility: facility_of(l.priority),
        severity: severity_of(l.priority),
        hostname: span_text(raw, l.hostname),
        app_name: span_text(raw, l.app_name),
        proc_id: span_text(raw, l.proc_id),
        msg_id: span_text(raw, l.msg_id),
        message: raw.subrange(l.message, raw.len() as int),
        raw_message: raw,
        source_ip: source,
    }
}

/// Whatever the priority, the severity is one of the eight levels.
pub proof fn lemma_severity_range(priority: u8)
    ensures
        severity_of(priority) <= 7,
        facility_of(priority) <= 31,
        priority == facility_of(priority) * 8 + severity_of(priority),
{
    assert(priority & 7 <= 7) by (bit_vector);
    assert(priority >> 3 <= 31) by (bit_vector);
    assert(priority == (priority >> 3) * 8 + (priority & 7)) by (bit_vector);
}

/// Whatever the line, its record has one of the eight severities, and its
/// facility and severity are those of one priority.
pub proof fn lemma_any_line(raw: Seq<char>, source: Seq<char>, id: Seq<char>, at: Timestamp)
    ensures
        message_of(raw, source, id, at).severity <= 7,
        message_of(raw, source, id, at).facility <= 31,
        message_of(raw, source, id, at).raw_message == raw,
{
    lemma_severity_range(line_layout(raw).priority);
}

fn cut_mark(raw: &str, m: Option<Mark>) -> (r: Option<String>)
    requires
        m matches Some(x) ==> x.start <= x.end <= raw@.len(),
    ensures
        crate::message::text_view(r) == span_text(raw@, crate::scan::mark_view(m)),
{
    match m {
        Some(x) => Some(cut(raw, x.start, x.end)),
        None => None,
    }
}

/// Parses `raw_message` into a record that carries the given identifier and
/// time. Never fails: a line of no known shape is kept whole.
pub fn parse_with(raw_message: &str, source_ip: &str, id: String, timestamp: Timestamp) -> (msg:
    SyslogMessage)
    ensures
        msg@ == message_of(raw_message@, source_ip@, id@, timestamp),
        msg.severity <= 7,
{
    let cs = chars_of(raw_message);
    let m = locate(cs.as_slice());
    proof {
        lemma_severity_range(m.priority);
    }
    SyslogMessage {
        id,
        timestamp,
        facility: m.priority >> 3,
        severity: m.priority & 7,
        hostname: cut_mark(raw_message, m.hostname),
        app_name: cut_mark(raw_message, m.app_name),
        proc_id: cut_mark(raw_message, m.proc_id),
        msg_id: cut_mark(raw_message, m.msg_id),
        message: cut(raw_message, m.message, cs.len()),
        raw_message: raw_message.to_owned(),
        source_ip: source_ip.to_owned(),
    }
}

/// The parser of syslog lines.
#[derive(Clone, Copy, Debug)]
pub struct SyslogParser {}

impl SyslogParser {
    /// A parser. It holds no state.
    pub fn new() -> (p: Self) {
        SyslogParser {  }
    }

    /// Parses a line received from `source_ip`. The record gets a fresh
    /// identifier and the current time; everything else in it is determined by
    /// the line.
    pub fn parse(&self, raw_message: &str, source_ip: &str) -> (msg: SyslogMessage)
        ensures
            msg@ == message_of(raw_message@, source_ip@, msg.id@, msg.timestamp),
            msg.severity <= 7,
            is_uuid_text(msg.id@),
            msg.timestamp.nanos < 1_000_000_000,
            rfc3339_text(msg.timestamp.secs, msg.timestamp.nanos) is Some,
    {
        let id = fresh_id();
        let timestamp = now();
        parse_with(raw_message, source_ip, id, timestamp)
    }
}

} // verus!
