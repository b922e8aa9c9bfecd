//! What the listeners decide: which of the data that arrives is a line worth
//! parsing, and when a connection is given up.

use vstd::prelude::*;
use vstd::string::*;
use vstd::utf8::{decode_utf8, encode_utf8_decode_utf8, valid_utf8};
use crate::ambient::{is_uuid_text, rfc3339_text};
use crate::grammar::{run_end, run_start, Class};
use crate::message::SyslogMessage;
use crate::parser::{message_of, SyslogParser};
use crate::scan::{scan_back, scan_run};
use crate::text::{chars_of, cut};

verus! {

/// How long a connection may stay silent before it is closed, in seconds.
pub const READ_TIMEOUT_SECS: u64 = 30;

/// A text without the white space around it.
pub open spec fn trimmed(s: Seq<char>) -> Seq<char> {
    let start = run_end(s, 0, Class::Space);
    let end = run_start(s, s.len() as int, Class::Space);
    if start < end {
        s.subrange(start, end)
    } else {
        Seq::empty()
    }
}

/// The text of a datagram: what its bytes encode, trimmed. A datagram that is
/// not UTF-8, or that holds white space only, has none.
pub open spec fn datagram_text(data: Seq<u8>) -> Option<Seq<char>> {
    if valid_utf8(data) && trimmed(decode_utf8(data)).len() > 0 {
        Some(trimmed(decode_utf8(data)))
    } else {
        None
    }
}

/// The text of a line read from a connection: the line, trimmed. A line of
/// white space only has none.
pub open spec fn line_text(line: Seq<char>) -> Option<Seq<char>> {
    if trimmed(line).len() > 0 {
        Some(trimmed(line))
    } else {
        None
    }
}

/// `std::str::from_utf8`: the bytes as text, where they are valid UTF-8, and
/// nothing where they are not.
#[verifier::external_body]
fn text_of_bytes(data: &[u8]) -> (r: Option<&str>)
    ensures
        match r {
            Some(s) => valid_utf8(data@) && s.spec_bytes() == data@,
            None => !valid_utf8(data@),
        },
{
    std::str::from_utf8(data).ok()
}

/// `raw` without the white space around it.
pub fn trim(raw: &str) -> (t: String)
    ensures
        t@ == trimmed(raw@),
{
    let cs = chars_of(raw);
    let start = scan_run(cs.as_slice(), 0, Class::Space);
    let end = scan_back(cs.as_slice(), cs.len(), Class::Space);
    if start < end {
        cut(raw, start, end)
    } else {
        String::new()
    }
}

/// The line that a line read from a connection holds, if any.
pub fn accept_line(line: &str) -> (r: Option<String>)
    ensures
        crate::message::text_view(r) == line_text(line@),
{
    let t = trim(line);
    if t.as_str().is_empty() {
        None
    } else {
        Some(t)
    }
}

/// The line that a datagram holds, if any.
pub fn accept_datagram(data: &[u8]) -> (r: Option<String>)
    ensures
        crate::message::text_view(r) == datagram_text(data@),
{
    match text_of_bytes(data) {
        Some(s) => {
            proof {
                encode_utf8_decode_utf8(s@);
            }
            accept_line(s)
        },
        None => None,
    }
}

/// What reading from a connection came to.
#[derive(Debug)]
pub enum ReadEvent {
    /// A line arrived.
    Line(String),
    /// The peer closed the connection.
    End,
    /// Reading failed.
    Failed,
    /// Nothing arrived within the time allowed.
    TimedOut,
}

/// What to do with a connection after a read.
#[derive(Debug)]
pub enum ConnectionStep {
    /// Parse and sink this line, then read on.
    Deliver(String),
    /// Read on.
    Skip,
    /// Give the connection up.
    Close,
}

/// What a read calls for.
pub open spec fn step_for(event: ReadEvent) -> ConnectionStepView {
    match event {
        ReadEvent::Line(line) => match line_text(line@) {
            Some(t) => ConnectionStepView::Deliver(t),
            None => ConnectionStepView::Skip,
        },
        _ => ConnectionStepView::Close,
    }
}

/// A step, its line as mathematics.
pub enum ConnectionStepView {
    Deliver(Seq<char>),
    Skip,
    Close,
}

impl View for ConnectionStep {
    type V = ConnectionStepView;

    open spec fn view(&self) -> ConnectionStepView {
        match self {
            ConnectionStep::Deliver(t) => ConnectionStepView::Deliver(t@),
            ConnectionStep::Skip => ConnectionStepView::Skip,
            ConnectionStep::Close => ConnectionStepView::Close,
        }
    }
}

/// Decides what to do with a connection after a read: a line that is not
/// blank is delivered, a blank one skipped; the end of the stream, a failure
/// or a silence that lasted too long closes the connection.
pub fn on_read(event: ReadEvent) -> (step: ConnectionStep)
    ensures
        step@ == step_for(event),
{
    match event {
        ReadEvent::Line(line) => match accept_line(line.as_str()) {
            Some(t) => ConnectionStep::Deliver(t),
            None => ConnectionStep::Skip,
        },
        _ => ConnectionStep::Close,
    }
}

impl SyslogParser {
    /// The record for a line read from a connection, if the line is not blank.
    pub fn receive_line(&self, line: &str, source_ip: &str) -> (r: Option<SyslogMessage>)
        ensures
            match r {
                Some(m) => line_text(line@) matches Some(t) && m@ == message_of(
                    t,
                    source_ip@,
                    m.id@,
                    m.timestamp,
                ) && m.severity <= 7 && is_uuid_text(m.id@) && rfc3339_text(
                    m.timestamp.secs,
                    m.timestamp.nanos,
                ) is Some,
                None => line_text(line@) is None,
            },
    {
        match accept_line(line) {
            Some(t) => Some(self.parse(t.as_str(), source_ip)),
            None => None,
        }
    }

    /// The record for a datagram, if the datagram is text and not blank.
    pub fn receive_datagram(&self, data: &[u8], source_ip: &str) -> (r: Option<SyslogMessage>)
        ensures
            match r {
                Some(m) => datagram_text(data@) matches Some(t) && m@ == message_of(
                    t,
                    source_ip@,
                    m.id@,
                    m.timestamp,
                ) && m.severity <= 7 && is_uuid_text(m.id@) && rfc3339_text(
                    m.timestamp.secs,
                    m.timestamp.nanos,
                ) is Some,
                None => datagram_text(data@) is None,
            },
    {
        match accept_datagram(data) {
            Some(t) => Some(self.parse(t.as_str(), source_ip)),
            None => None,
        }
    }
}

} // verus!
