//! Composing syslog lines to send to a collector.

use vstd::prelude::*;
use vstd::string::*;
use crate::formats::{
    is_token, lemma_rfc3164_parsed, lemma_rfc5424_parsed, Rfc3164Line, Rfc5424Line,
};
use crate::message::{facility_of, severity_of, MessageView, Timestamp};
use crate::parser::message_of;
use crate::text::{decimal_text, lemma_decimal_text, push_decimal};

verus! {

/// Where lines are sent: a host, and its UDP and TCP ports.
#[derive(Debug)]
pub struct SyslogSender {
    pub host: String,
    pub udp_port: u16,
    pub tcp_port: u16,
}

/// The priority that carries `facility` and `severity`.
pub open spec fn priority_value(facility: u8, severity: u8) -> int {
    facility * 8 + severity
}

/// `host:port`.
pub open spec fn target_text(host: Seq<char>, port: u16) -> Seq<char> {
    host + seq![':'] + decimal_text(port as nat)
}

/// `<PRI>TIMESTAMP HOST TAG: MESSAGE`.
pub open spec fn rfc3164_text(
    priority: u8,
    timestamp: Seq<char>,
    hostname: Seq<char>,
    tag: Seq<char>,
    message: Seq<char>,
) -> Seq<char> {
    seq!['<'] + decimal_text(priority as nat) + seq!['>'] + timestamp + seq![' '] + hostname
        + seq![' '] + tag + seq![':', ' '] + message
}

/// `<PRI>1 TIMESTAMP HOST APP PROCID MSGID - MESSAGE`: version 1, no
/// structured data.
pub open spec fn rfc5424_text(
    priority: u8,
    timestamp: Seq<char>,
    hostname: Seq<char>,
    app_name: Seq<char>,
    proc_id: Seq<char>,
    msg_id: Seq<char>,
    message: Seq<char>,
) -> Seq<char> {
    seq!['<'] + decimal_text(priority as nat) + seq!['>', '1', ' '] + timestamp + seq![' ']
        + hostname + seq![' '] + app_name + seq![' '] + proc_id + seq![' '] + msg_id + seq![
        ' ',
        '-',
        ' ',
    ] + message
}

fn target(host: &String, port: u16) -> (t: String)
    ensures
        t@ == target_text(host@, port),
{
    let mut t = host.clone();
    proof {
        reveal_strlit(":");
    }
    t.append(":");
    assert(t@ =~= host@ + seq![':']);
    push_decimal(&mut t, port as u64);
    t
}

impl Clone for SyslogSender {
    fn clone(&self) -> (s: Self)
        ensures
            s == *self,
    {
        SyslogSender { host: self.host.clone(), udp_port: self.udp_port, tcp_port: self.tcp_port }
    }
}

impl SyslogSender {
    /// A sender to the given host and ports.
    pub fn new(host: String, udp_port: u16, tcp_port: u16) -> (s: Self)
        ensures
            s.host == host,
            s.udp_port == udp_port,
            s.tcp_port == tcp_port,
    {
        SyslogSender { host, udp_port, tcp_port }
    }

    /// The address that datagrams go to.
    pub fn udp_target(&self) -> (t: String)
        ensures
            t@ == target_text(self.host@, self.udp_port),
    {
        target(&self.host, self.udp_port)
    }

    /// The address that connections go to.
    pub fn tcp_target(&self) -> (t: String)
        ensures
            t@ == target_text(self.host@, self.tcp_port),
    {
        target(&self.host, self.tcp_port)
    }
}

/// The priority that carries `facility` and `severity`, where it fits in eight
/// bits.
pub fn priority(facility: u8, severity: u8) -> (p: Option<u8>)
    ensures
        p == if priority_value(facility, severity) <= 255 {
            Some(priority_value(facility, severity) as u8)
        } else {
            None
        },
{
    if facility <= 31 {
        let p: u16 = facility as u16 * 8 + severity as u16;
        if p <= 255 {
            return Some(p as u8);
        }
    }
    None
}

/// A line in the older format.
pub fn rfc3164_line(priority: u8, timestamp: &str, hostname: &str, tag: &str, message: &str) -> (line:
    String)
    ensures
        line@ == rfc3164_text(priority, timestamp@, hostname@, tag@, message@),
{
    proof {
        reveal_strlit("<");
        reveal_strlit(">");
        reveal_strlit(" ");
        reveal_strlit(": ");
    }
    let mut line = String::new();
    line.append("<");
    push_decimal(&mut line, priority as u64);
    line.append(">");
    line.append(timestamp);
    line.append(" ");
    line.append(hostname);
    line.append(" ");
    line.append(tag);
    line.append(": ");
    line.append(message);
    assert(line@ =~= rfc3164_text(priority, timestamp@, hostname@, tag@, message@));
    line
}

/// A line in the newer format.
pub fn rfc5424_line(
    priority: u8,
    timestamp: &str,
    hostname: &str,
    app_name: &str,
    proc_id: &str,
    msg_id: &str,
    message: &str,
) -> (line: String)
    ensures
        line@ == rfc5424_text(
            priority,
            timestamp@,
            hostname@,
            app_name@,
            proc_id@,
            msg_id@,
            message@,
        ),
{
    proof {
        reveal_strlit("<");
        reveal_strlit(">1 ");
        reveal_strlit(" ");
        reveal_strlit(" - ");
    }
    let mut line = String::new();
    line.append("<");
    push_decimal(&mut line, priority as u64);
    line.append(">1 ");
    line.append(timestamp);
    line.append(" ");
    line.append(hostname);
    line.append(" ");
    line.append(app_name);
    line.append(" ");
    line.append(proc_id);
    line.append(" ");
    line.append(msg_id);
    line.append(" - ");
    line.append(message);
    assert(line@ =~= rfc5424_text(
        priority,
        timestamp@,
        hostname@,
        app_name@,
        proc_id@,
        msg_id@,
        message@,
    ));
    line
}

/// What the sender composes in the newer format, the parser takes apart again:
/// if host, application, process id and message id are tokens and the message
/// holds no line feed, the record has the priority's facility and severity and
/// those four texts. Its message opens with the `- ` that stands for the
/// structured data.
pub proof fn lemma_rfc5424_round_trip(
    priority: u8,
    timestamp: Seq<char>,
    hostname: Seq<char>,
    app_name: Seq<char>,
    proc_id: Seq<char>,
    msg_id: Seq<char>,
    message: Seq<char>,
    source: Seq<char>,
    id: Seq<char>,
    at: Timestamp,
)
    requires
        is_token(timestamp),
        is_token(hostname),
        is_token(app_name),
        is_token(proc_id),
        is_token(msg_id),
        forall|i: int| 0 <= i < message.len() ==> message[i] != '\n',
    ensures
        message_of(
            rfc5424_text(priority, timestamp, hostname, app_name, proc_id, msg_id, message),
            source,
            id,
            at,
        ) == (MessageView {
            id,
            timestamp: at,
            facility: facility_of(priority),
            severity: severity_of(priority),
            hostname: Some(hostname),
            app_name: Some(app_name),
            proc_id: Some(proc_id),
            msg_id: Some(msg_id),
            message: seq!['-', ' '] + message,
            raw_message: rfc5424_text(
                priority,
                timestamp,
                hostname,
                app_name,
                proc_id,
                msg_id,
                message,
            ),
            source_ip: source,
        }),
{
    let gap = seq![' '];
    let l = Rfc5424Line {
        priority: decimal_text(priority as nat),
        version: '1',
        timestamp,
        hostname,
        app_name,
        proc_id,
        msg_id,
        message: seq!['-', ' '] + message,
        gaps: seq![gap, gap, gap, gap, gap, gap],
    };
    lemma_decimal_text(priority as nat);
    assert(l.message[0] == '-');
    assert forall|i: int| 0 <= i < l.message.len() implies #[trigger] l.message[i] != '\n' by {
        if i >= 2 {
            assert(l.message[i] == message[i - 2]);
        }
    }
    assert(l.well_formed());
    assert(l.text() =~= rfc5424_text(
        priority,
        timestamp,
        hostname,
        app_name,
        proc_id,
        msg_id,
        message,
    ));
    lemma_rfc5424_parsed(l, source, id, at);
}

/// What the sender composes in the older format, the parser takes apart again.
/// The line is described by its parts, `l`; the sender is given the stamp, the
/// host, the tag with its bracket, if any, and the message.
pub proof fn lemma_rfc3164_round_trip(
    priority: u8,
    l: Rfc3164Line,
    source: Seq<char>,
    id: Seq<char>,
    at: Timestamp,
)
    requires
        l.well_formed(),
        l.priority == decimal_text(priority as nat),
        l.gaps[2] == seq![' '],
        l.gaps[3] == seq![' '],
        l.pad == seq![' '],
    ensures
        rfc3164_text(
            priority,
            l.month + l.gaps[0] + l.day + l.gaps[1] + l.clock,
            l.hostname,
            l.name(),
            l.message,
        ) == l.text(),
        message_of(l.text(), source, id, at) == (MessageView {
            id,
            timestamp: at,
            facility: facility_of(priority),
            severity: severity_of(priority),
            hostname: Some(l.hostname),
            app_name: Some(l.tag),
            proc_id: l.pid,
            msg_id: None,
            message: l.message,
            raw_message: l.text(),
            source_ip: source,
        }),
{
    lemma_decimal_text(priority as nat);
    assert(rfc3164_text(
        priority,
        l.month + l.gaps[0] + l.day + l.gaps[1] + l.clock,
        l.hostname,
        l.name(),
        l.message,
    ) =~= l.text());
    lemma_rfc3164_parsed(l, source, id, at);
}

} // verus!
