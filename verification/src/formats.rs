//! Well-formed lines of the two formats, and what the parser makes of them.
//!
//! A well-formed line is described by its parts. The two laws at the end say
//! that parsing the line gives those parts back.

use vstd::prelude::*;
use crate::grammar::{
    clock_at, field_after, find_last, has_class, header_priority, lemma_find_last_is, lemma_run_end,
    lemma_run_end_is, lemma_run_start_is, pid_bracket, rfc3164_layout, rfc5424_layout, run_end,
    single_line, stamp_end, Class, Span,
};
use crate::message::{facility_of, severity_of, MessageView, Timestamp};
use crate::parser::message_of;
use crate::text::{all_digits, decimal_value, is_digit, is_space, is_word};

verus! {

/// A header token: at least one character, none of them white space.
pub open spec fn is_token(t: Seq<char>) -> bool {
    t.len() > 0 && forall|i: int| 0 <= i < t.len() ==> !is_space(#[trigger] t[i])
}

/// White space only, possibly none.
pub open spec fn is_blank(w: Seq<char>) -> bool {
    forall|i: int| 0 <= i < w.len() ==> is_space(#[trigger] w[i])
}

/// What separates two header fields: white space, at least one character.
pub open spec fn is_gap(w: Seq<char>) -> bool {
    w.len() > 0 && is_blank(w)
}

/// A priority as it is written: one to three digits, at most 255.
pub open spec fn is_priority_text(p: Seq<char>) -> bool {
    1 <= p.len() <= 3 && all_digits(p) && decimal_value(p) <= 255
}

/// A message as the parser gives it back: on one line, not opening with white
/// space.
pub open spec fn is_message_text(m: Seq<char>) -> bool {
    &&& m.len() > 0 ==> !is_space(m[0])
    &&& forall|i: int| 0 <= i < m.len() ==> #[trigger] m[i] != '\n'
}

/// The parts of a line in the newer format.
pub struct Rfc5424Line {
    pub priority: Seq<char>,
    pub version: char,
    pub timestamp: Seq<char>,
    pub hostname: Seq<char>,
    pub app_name: Seq<char>,
    pub proc_id: Seq<char>,
    pub msg_id: Seq<char>,
    pub message: Seq<char>,
    /// The white space before each of the six parts after the version.
    pub gaps: Seq<Seq<char>>,
}

impl Rfc5424Line {
    /// Whether the parts are such as the format asks for.
    pub open spec fn well_formed(self) -> bool {
        &&& is_priority_text(self.priority)
        &&& is_digit(self.version)
        &&& is_token(self.timestamp)
        &&& is_token(self.hostname)
        &&& is_token(self.app_name)
        &&& is_token(self.proc_id)
        &&& is_token(self.msg_id)
        &&& is_message_text(self.message)
        &&& self.gaps.len() == 6
        &&& forall|k: int| 0 <= k < 6 ==> is_gap(#[trigger] self.gaps[k])
    }

    /// The line, written out.
    pub open spec fn text(self) -> Seq<char> {
        seq!['<'] + self.priority + seq!['>'] + seq![self.version] + self.gaps[0] + self.timestamp
            + self.gaps[1] + self.hostname + self.gaps[2] + self.app_name + self.gaps[3]
            + self.proc_id + self.gaps[4] + self.msg_id + self.gaps[5] + self.message
    }
}

/// The parts of a line in the older format.
pub struct Rfc3164Line {
    pub priority: Seq<char>,
    pub month: Seq<char>,
    pub day: Seq<char>,
    pub clock: Seq<char>,
    pub hostname: Seq<char>,
    pub tag: Seq<char>,
    /// The digits between `[` and `]`, where the line has the bracket.
    pub pid: Option<Seq<char>>,
    pub message: Seq<char>,
    /// The white space before the day, the time, the host and the tag.
    pub gaps: Seq<Seq<char>>,
    /// The white space between the colon and the message, possibly none.
    pub pad: Seq<char>,
}

impl Rfc3164Line {
    /// Whether the parts are such as the format asks for. A tag that comes
    /// without a process id may not itself end in `[digits]`, and where no
    /// white space follows the colon, the message may hold no colon before its
    /// first white space.
    pub open spec fn well_formed(self) -> bool {
        &&& is_priority_text(self.priority)
        &&& self.month.len() == 3
        &&& forall|i: int| 0 <= i < 3 ==> is_word(#[trigger] self.month[i])
        &&& 1 <= self.day.len() <= 2
        &&& all_digits(self.day)
        &&& self.clock.len() == 8
        &&& clock_at(self.clock, 0)
        &&& is_token(self.hostname)
        &&& is_token(self.tag)
        &&& match self.pid {
            Some(d) => d.len() > 0 && all_digits(d),
            None => pid_bracket(self.tag) is None,
        }
        &&& is_message_text(self.message)
        &&& self.gaps.len() == 4
        &&& forall|k: int| 0 <= k < 4 ==> is_gap(#[trigger] self.gaps[k])
        &&& is_blank(self.pad)
        &&& self.pad.len() == 0 ==> forall|i: int|
            0 <= i < run_end(self.message, 0, Class::Token) ==> #[trigger] self.message[i] != ':'
    }

    /// `[PID]`, or nothing.
    pub open spec fn bracket(self) -> Seq<char> {
        match self.pid {
            Some(d) => seq!['['] + d + seq![']'],
            None => Seq::empty(),
        }
    }

    /// The line, written out.
    pub open spec fn text(self) -> Seq<char> {
        seq!['<'] + self.priority + seq!['>'] + self.month + self.gaps[0] + self.day + self.gaps[1]
            + self.clock + self.gaps[2] + self.hostname + self.gaps[3] + self.tag + self.bracket()
            + seq![':'] + self.pad + self.message
    }
}

proof fn lemma_header(s: Seq<char>, pri: Seq<char>, rest: Seq<char>)
    requires
        is_priority_text(pri),
        s == seq!['<'] + pri + seq!['>'] + rest,
    ensures
        header_priority(s) == Some((decimal_value(pri) as u8, (pri.len() + 2) as int)),
{
    let e = (1 + pri.len()) as int;
    assert forall|x: int| 1 <= x < e implies has_class(#[trigger] s[x], Class::Digit) by {
        assert(s[x] == pri[x - 1]);
    }
    assert(s[e] == '>');
    lemma_run_end_is(s, 1, e, Class::Digit);
    assert(s.subrange(1, e) =~= pri);
}

proof fn lemma_field(s: Seq<char>, a: Seq<char>, gap: Seq<char>, tok: Seq<char>, rest: Seq<char>)
    requires
        s == a + gap + tok + rest,
        is_gap(gap),
        is_token(tok),
        rest.len() > 0 ==> is_space(rest[0]),
    ensures
        field_after(s, a.len() as int) == Some(
            Span {
                start: (a.len() + gap.len()) as int,
                end: (a.len() + gap.len() + tok.len()) as int,
            },
        ),
        s.subrange((a.len() + gap.len()) as int, (a.len() + gap.len() + tok.len()) as int) == tok,
{
    let i = a.len() as int;
    let start = i + gap.len();
    let end = start + tok.len();
    assert forall|x: int| i <= x < start implies has_class(#[trigger] s[x], Class::Space) by {
        assert(s[x] == gap[x - i]);
    }
    assert(s[start] == tok[0]);
    lemma_run_end_is(s, i, start, Class::Space);
    assert forall|x: int| start <= x < end implies has_class(#[trigger] s[x], Class::Token) by {
        assert(s[x] == tok[x - start]);
    }
    if end < s.len() {
        assert(s[end] == rest[0]);
    }
    lemma_run_end_is(s, start, end, Class::Token);
    assert(s.subrange(start, end) =~= tok);
}

proof fn lemma_message(s: Seq<char>, a: Seq<char>, pad: Seq<char>, msg: Seq<char>)
    requires
        s == a + pad + msg,
        is_blank(pad),
        is_message_text(msg),
    ensures
        run_end(s, a.len() as int, Class::Space) == a.len() + pad.len(),
        single_line(s, (a.len() + pad.len()) as int),
        s.subrange((a.len() + pad.len()) as int, s.len() as int) == msg,
{
    let i = a.len() as int;
    let m = i + pad.len();
    assert forall|x: int| i <= x < m implies has_class(#[trigger] s[x], Class::Space) by {
        assert(s[x] == pad[x - i]);
    }
    if m < s.len() {
        assert(s[m] == msg[0]);
    }
    lemma_run_end_is(s, i, m, Class::Space);
    assert forall|j: int| m <= j < s.len() implies s[j] != '\n' by {
        assert(s[j] == msg[j - m]);
    }
    assert(s.subrange(m, s.len() as int) =~= msg);
}

/// The layout of a well-formed line in the newer format.
#[verifier::rlimit(40)]
pub proof fn lemma_rfc5424_layout(l: Rfc5424Line)
    requires
        l.well_formed(),
    ensures
        rfc5424_layout(l.text()) is Some,
        ({
            let s = l.text();
            let y = rfc5424_layout(s)->0;
            &&& y.priority == decimal_value(l.priority)
            &&& crate::parser::span_text(s, y.hostname) == Some(l.hostname)
            &&& crate::parser::span_text(s, y.app_name) == Some(l.app_name)
            &&& crate::parser::span_text(s, y.proc_id) == Some(l.proc_id)
            &&& crate::parser::span_text(s, y.msg_id) == Some(l.msg_id)
            &&& s.subrange(y.message, s.len() as int) == l.message
        }),
{
    let s = l.text();
    let g = l.gaps;
    assert(is_gap(g[0]) && is_gap(g[1]) && is_gap(g[2]) && is_gap(g[3]) && is_gap(g[4]) && is_gap(
        g[5],
    ));
    let r5 = g[5] + l.message;
    let r4 = g[4] + l.msg_id + r5;
    let r3 = g[3] + l.proc_id + r4;
    let r2 = g[2] + l.app_name + r3;
    let r1 = g[1] + l.hostname + r2;
    let r0 = g[0] + l.timestamp + r1;
    let a0 = seq!['<'] + l.priority + seq!['>'] + seq![l.version];
    let a1 = a0 + g[0] + l.timestamp;
    let a2 = a1 + g[1] + l.hostname;
    let a3 = a2 + g[2] + l.app_name;
    let a4 = a3 + g[3] + l.proc_id;
    let a5 = a4 + g[4] + l.msg_id;
    assert(g[5][0] == r5[0] && g[4][0] == r4[0] && g[3][0] == r3[0] && g[2][0] == r2[0] && g[1][0]
        == r1[0]);
    assert(s =~= seq!['<'] + l.priority + seq!['>'] + (seq![l.version] + r0));
    lemma_header(s, l.priority, seq![l.version] + r0);
    let v = (l.priority.len() + 2) as int;
    assert(s[v] == l.version);
    assert(a0.len() == v + 1);
    assert(s =~= a0 + g[0] + l.timestamp + r1);
    lemma_field(s, a0, g[0], l.timestamp, r1);
    assert(s =~= a1 + g[1] + l.hostname + r2);
    lemma_field(s, a1, g[1], l.hostname, r2);
    assert(s =~= a2 + g[2] + l.app_name + r3);
    lemma_field(s, a2, g[2], l.app_name, r3);
    assert(s =~= a3 + g[3] + l.proc_id + r4);
    lemma_field(s, a3, g[3], l.proc_id, r4);
    assert(s =~= a4 + g[4] + l.msg_id + r5);
    lemma_field(s, a4, g[4], l.msg_id, r5);
    assert(s =~= a5 + g[5] + l.message);
    lemma_message(s, a5, g[5], l.message);
}

/// Parsing a well-formed line in the newer format gives its parts back: the
/// facility is the priority shifted right by three, the severity its lower
/// three bits, and host, application, process id, message id and message are
/// the texts that the white space delimits.
pub proof fn lemma_rfc5424_parsed(
    l: Rfc5424Line,
    source: Seq<char>,
    id: Seq<char>,
    timestamp: Timestamp,
)
    requires
        l.well_formed(),
    ensures
        message_of(l.text(), source, id, timestamp) == (MessageView {
            id,
            timestamp,
            facility: facility_of(decimal_value(l.priority) as u8),
            severity: severity_of(decimal_value(l.priority) as u8),
            hostname: Some(l.hostname),
            app_name: Some(l.app_name),
            proc_id: Some(l.proc_id),
            msg_id: Some(l.msg_id),
            message: l.message,
            raw_message: l.text(),
            source_ip: source,
        }),
{
    lemma_rfc5424_layout(l);
}

#[verifier::rlimit(40)]
proof fn lemma_stamp(
    s: Seq<char>,
    a: Seq<char>,
    l: Rfc3164Line,
    rest: Seq<char>,
)
    requires
        l.well_formed(),
        s == a + l.month + l.gaps[0] + l.day + l.gaps[1] + l.clock + rest,
    ensures
        stamp_end(s, a.len() as int) == Some(
            (a.len() + 3 + l.gaps[0].len() + l.day.len() + l.gaps[1].len() + 8) as int,
        ),
{
    let i = a.len() as int;
    let g0 = l.gaps[0];
    let g1 = l.gaps[1];
    assert(is_gap(g0) && is_gap(g1));
    let day = i + 3 + g0.len();
    let day_end = day + l.day.len();
    let clock = day_end + g1.len();
    assert(s[i] == l.month[0] && s[i + 1] == l.month[1] && s[i + 2] == l.month[2]);
    assert forall|x: int| i + 3 <= x < day implies has_class(#[trigger] s[x], Class::Space) by {
        assert(s[x] == g0[x - i - 3]);
    }
    assert(s[day] == l.day[0]);
    lemma_run_end_is(s, i + 3, day, Class::Space);
    assert forall|x: int| day <= x < day_end implies has_class(#[trigger] s[x], Class::Digit) by {
        assert(s[x] == l.day[x - day]);
    }
    assert(s[day_end] == g1[0]);
    lemma_run_end_is(s, day, day_end, Class::Digit);
    assert forall|x: int| day_end <= x < clock implies has_class(
        #[trigger] s[x],
        Class::Space,
    ) by {
        assert(s[x] == g1[x - day_end]);
    }
    assert forall|k: int| 0 <= k < 8 implies #[trigger] s[clock + k] == l.clock[k] by {}
    assert(s[clock] == l.clock[0]);
    lemma_run_end_is(s, day_end, clock, Class::Space);
}

#[verifier::rlimit(40)]
proof fn lemma_bracket(l: Rfc3164Line)
    requires
        l.well_formed(),
    ensures
        is_token(l.tag + l.bracket()),
        match l.pid {
            Some(d) => pid_bracket(l.tag + l.bracket()) == Some(l.tag.len() as int) && (l.tag
                + l.bracket()).subrange(0, l.tag.len() as int) == l.tag && (l.tag
                + l.bracket()).subrange(l.tag.len() as int + 1, l.tag.len() as int + 1 + d.len()) == d
                && l.bracket().len() == d.len() + 2,
            None => pid_bracket(l.tag + l.bracket()) is None && l.tag + l.bracket() == l.tag,
        },
{
    let t = l.tag + l.bracket();
    match l.pid {
        Some(d) => {
            let n = l.tag.len() as int;
            assert(l.bracket().len() == d.len() + 2);
            assert forall|x: int| 0 <= x < t.len() implies !is_space(#[trigger] t[x]) by {
                if x < n {
                    assert(t[x] == l.tag[x]);
                } else if x == n {
                    assert(t[x] == '[');
                } else if x < n + 1 + d.len() {
                    assert(t[x] == d[x - n - 1]);
                    assert(is_digit(d[x - n - 1]));
                } else {
                    assert(t[x] == ']');
                }
            }
            assert forall|x: int| n + 1 <= x < t.len() - 1 implies has_class(
                #[trigger] t[x],
                Class::Digit,
            ) by {
                assert(t[x] == d[x - n - 1]);
            }
            assert(t[n] == '[');
            lemma_run_start_is(t, n + 1, t.len() - 1, Class::Digit);
            assert(t.last() == ']');
            assert(t.subrange(0, n) =~= l.tag);
            assert(t.subrange(n + 1, n + 1 + d.len()) =~= d);
        },
        None => {
            assert(t =~= l.tag);
        },
    }
}

impl Rfc3164Line {
    /// The tag with the bracket, if there is one.
    pub open spec fn name(self) -> Seq<char> {
        self.tag + self.bracket()
    }

    /// What follows the host: white space, the name, the colon, the message.
    pub open spec fn tail(self) -> Seq<char> {
        self.gaps[3] + self.name() + seq![':'] + self.pad + self.message
    }

    /// The length of what stands before the stamp.
    pub open spec fn stamp_at(self) -> int {
        self.priority.len() as int + 2
    }

    /// The length of what stands before the host and its white space.
    pub open spec fn host_gap_at(self) -> int {
        self.stamp_at() + 3 + self.gaps[0].len() + self.day.len() + self.gaps[1].len() + 8
    }

    /// The length of what stands before the tail.
    pub open spec fn tail_at(self) -> int {
        self.host_gap_at() + self.gaps[2].len() + self.hostname.len()
    }
}

#[verifier::rlimit(40)]
proof fn lemma_rfc3164_head(l: Rfc3164Line)
    requires
        l.well_formed(),
    ensures
        header_priority(l.text()) == Some((decimal_value(l.priority) as u8, l.stamp_at())),
        stamp_end(l.text(), l.stamp_at()) == Some(l.host_gap_at()),
        field_after(l.text(), l.host_gap_at()) == Some(
            Span { start: l.host_gap_at() + l.gaps[2].len(), end: l.tail_at() },
        ),
        l.text().subrange(l.host_gap_at() + l.gaps[2].len(), l.tail_at()) == l.hostname,
        l.text().subrange(l.tail_at(), l.text().len() as int) == l.tail(),
        l.tail_at() + l.tail().len() == l.text().len(),
{
    let s = l.text();
    let g = l.gaps;
    assert(is_gap(g[0]) && is_gap(g[1]) && is_gap(g[2]) && is_gap(g[3]));
    let r3 = l.tail();
    let r2 = g[2] + l.hostname + r3;
    let a0 = seq!['<'] + l.priority + seq!['>'];
    let stamp = l.month + g[0] + l.day + g[1] + l.clock;
    let a1 = a0 + stamp;
    let a2 = a1 + g[2] + l.hostname;
    assert(s =~= a0 + (stamp + r2));
    lemma_header(s, l.priority, stamp + r2);
    assert(s =~= a0 + l.month + g[0] + l.day + g[1] + l.clock + r2);
    lemma_stamp(s, a0, l, r2);
    assert(g[3][0] == r3[0]);
    assert(s =~= a1 + g[2] + l.hostname + r3);
    lemma_field(s, a1, g[2], l.hostname, r3);
    assert(s =~= a2 + r3);
    assert(s.subrange(a2.len() as int, s.len() as int) =~= r3);
}

impl Rfc3164Line {
    /// How far the token that holds the tag runs on into the message: up to
    /// the message's first white space where no white space follows the colon,
    /// and not at all where some does.
    pub open spec fn lead(self) -> int {
        if self.pad.len() == 0 {
            run_end(self.message, 0, Class::Token)
        } else {
            0
        }
    }

    /// The token that holds the tag.
    pub open spec fn word(self) -> Seq<char> {
        self.name() + seq![':'] + self.message.subrange(0, self.lead())
    }

    /// What follows that token.
    pub open spec fn after_word(self) -> Seq<char> {
        self.pad + self.message.subrange(self.lead(), self.message.len() as int)
    }
}

#[verifier::rlimit(40)]
proof fn lemma_word(l: Rfc3164Line)
    requires
        l.well_formed(),
    ensures
        is_token(l.word()),
        l.after_word().len() > 0 ==> is_space(l.after_word()[0]),
        l.word() + l.after_word() == l.name() + seq![':'] + l.pad + l.message,
        l.word()[l.name().len() as int] == ':',
        l.word().len() > l.name().len() > 0,
        forall|j: int| l.name().len() < j < l.word().len() ==> #[trigger] l.word()[j] != ':',
{
    let name = l.name();
    let lead = l.lead();
    let word = l.word();
    let after_word = l.after_word();
    lemma_bracket(l);
    lemma_run_end(l.message, 0, Class::Token);
    assert(word + after_word =~= name + seq![':'] + l.pad + l.message);
    assert forall|x: int| 0 <= x < word.len() implies !is_space(#[trigger] word[x]) by {
        if x < name.len() {
            assert(word[x] == name[x]);
        } else if x > name.len() {
            assert(word[x] == l.message[x - name.len() - 1]);
        }
    }
    assert forall|j: int| name.len() < j < word.len() implies #[trigger] word[j] != ':' by {
        assert(word[j] == l.message[j - name.len() - 1]);
    }
    if l.pad.len() > 0 {
        assert(after_word[0] == l.pad[0]);
    } else if after_word.len() > 0 {
        assert(after_word[0] == l.message[lead]);
    }
}

#[verifier::rlimit(40)]
proof fn lemma_word_field(l: Rfc3164Line, s: Seq<char>, at: int)
    requires
        l.well_formed(),
        0 <= at,
        at + l.tail().len() == s.len(),
        s.subrange(at, s.len() as int) == l.tail(),
    ensures
        field_after(s, at) == Some(
            Span { start: at + l.gaps[3].len(), end: at + l.gaps[3].len() + l.word().len() },
        ),
        s.subrange(at + l.gaps[3].len(), at + l.gaps[3].len() + l.word().len()) == l.word(),
        at + l.gaps[3].len() + l.word().len() <= s.len(),
{
    let g3 = l.gaps[3];
    assert(is_gap(g3));
    lemma_word(l);
    let a = s.subrange(0, at);
    assert(s =~= a + l.tail());
    assert(l.tail() =~= g3 + (l.word() + l.after_word()));
    assert(s =~= a + g3 + l.word() + l.after_word());
    lemma_field(s, a, g3, l.word(), l.after_word());
}

proof fn lemma_tail_message(l: Rfc3164Line, s: Seq<char>, at: int)
    requires
        l.well_formed(),
        0 <= at,
        at + l.tail().len() == s.len(),
        s.subrange(at, s.len() as int) == l.tail(),
    ensures
        ({
            let colon = at + l.gaps[3].len() + l.name().len();
            let m = colon + 1 + l.pad.len();
            &&& run_end(s, colon + 1, Class::Space) == m
            &&& single_line(s, m)
            &&& s.subrange(m, s.len() as int) == l.message
        }),
{
    let a4 = s.subrange(0, at) + l.gaps[3] + l.name() + seq![':'];
    assert(s =~= s.subrange(0, at) + l.tail());
    assert(s =~= a4 + l.pad + l.message);
    lemma_message(s, a4, l.pad, l.message);
}

#[verifier::rlimit(40)]
proof fn lemma_rfc3164_tail(l: Rfc3164Line, s: Seq<char>, at: int)
    requires
        l.well_formed(),
        0 <= at,
        at + l.tail().len() == s.len(),
        s.subrange(at, s.len() as int) == l.tail(),
    ensures
        ({
            let start = at + l.gaps[3].len();
            let colon = start + l.name().len();
            let m = colon + 1 + l.pad.len();
            &&& field_after(s, at) is Some
            &&& field_after(s, at)->0.start == start
            &&& find_last(s, ':', start + 1, field_after(s, at)->0.end) == Some(colon)
            &&& s.subrange(start, colon) == l.name()
            &&& run_end(s, colon + 1, Class::Space) == m
            &&& single_line(s, m)
            &&& s.subrange(m, s.len() as int) == l.message
        }),
{
    lemma_word(l);
    lemma_word_field(l, s, at);
    lemma_tail_message(l, s, at);
    let word = l.word();
    let start = at + l.gaps[3].len();
    let end = start + word.len();
    let colon = start + l.name().len();
    assert forall|j: int| start <= j < end implies #[trigger] s[j] == word[j - start] by {
        assert(s.subrange(start, end)[j - start] == s[j]);
    }
    assert(s[colon] == ':');
    lemma_find_last_is(s, ':', start + 1, end, colon);
    assert(s.subrange(start, colon) =~= l.name()) by {
        assert forall|j: int| 0 <= j < l.name().len() implies s[start + j] == l.name()[j] by {
            assert(s[start + j] == word[j]);
        }
    }
}

/// The layout of a well-formed line in the older format.
pub proof fn lemma_rfc3164_layout(l: Rfc3164Line)
    requires
        l.well_formed(),
    ensures
        rfc3164_layout(l.text()) is Some,
        ({
            let s = l.text();
            let y = rfc3164_layout(s)->0;
            &&& y.priority == decimal_value(l.priority)
            &&& crate::parser::span_text(s, y.hostname) == Some(l.hostname)
            &&& crate::parser::span_text(s, y.app_name) == Some(l.tag)
            &&& crate::parser::span_text(s, y.proc_id) == l.pid
            &&& y.msg_id is None
            &&& s.subrange(y.message, s.len() as int) == l.message
        }),
{
    let s = l.text();
    lemma_rfc3164_head(l);
    lemma_rfc3164_tail(l, s, l.tail_at());
    lemma_bracket(l);
    let start = l.tail_at() + l.gaps[3].len();
    let colon = start + l.name().len();
    let name = l.name();
    match l.pid {
        Some(d) => {
            let open = l.tag.len() as int;
            assert(s.subrange(start, start + open) =~= name.subrange(0, open));
            assert(s.subrange(start + open + 1, colon - 1) =~= name.subrange(
                open + 1,
                open + 1 + d.len(),
            ));
        },
        None => {},
    }
}

/// A well-formed line in the older format is never taken for the newer one:
/// where that has white space after its version, this has its month.
pub proof fn lemma_rfc3164_is_not_rfc5424(l: Rfc3164Line)
    requires
        l.well_formed(),
    ensures
        rfc5424_layout(l.text()) is None,
{
    let s = l.text();
    lemma_rfc3164_head(l);
    let v = l.stamp_at();
    assert(s[v + 1] == l.month[1]);
    assert(is_word(l.month[1]));
    assert(!is_space(s[v + 1]));
    assert(field_after(s, v + 1) is None);
}

/// Parsing a well-formed line in the older format gives its parts back. The
/// process id is present exactly when the line has the bracket, and there is
/// never a message id.
pub proof fn lemma_rfc3164_parsed(
    l: Rfc3164Line,
    source: Seq<char>,
    id: Seq<char>,
    timestamp: Timestamp,
)
    requires
        l.well_formed(),
    ensures
        message_of(l.text(), source, id, timestamp) == (MessageView {
            id,
            timestamp,
            facility: facility_of(decimal_value(l.priority) as u8),
            severity: severity_of(decimal_value(l.priority) as u8),
            hostname: Some(l.hostname),
            app_name: Some(l.tag),
            proc_id: l.pid,
            msg_id: None,
            message: l.message,
            raw_message: l.text(),
            source_ip: source,
        }),
{
    lemma_rfc3164_layout(l);
    lemma_rfc3164_is_not_rfc5424(l);
}

/// A line that does not open with `<` is kept whole: facility 16, severity 6,
/// no header field, and the line itself as the message.
pub proof fn lemma_plain_parsed(raw: Seq<char>, source: Seq<char>, id: Seq<char>, at: Timestamp)
    requires
        raw.len() == 0 || raw[0] != '<',
    ensures
        message_of(raw, source, id, at) == (MessageView {
            id,
            timestamp: at,
            facility: 16,
            severity: 6,
            hostname: None,
            app_name: None,
            proc_id: None,
            msg_id: None,
            message: raw,
            raw_message: raw,
            source_ip: source,
        }),
{
    assert(134u8 >> 3 == 16u8) by (bit_vector);
    assert(134u8 & 7 == 6u8) by (bit_vector);
    assert(raw.subrange(0, raw.len() as int) =~= raw);
}

/// A line that opens with `<` but holds no `>` is kept whole as well.
pub proof fn lemma_unclosed_parsed(raw: Seq<char>, source: Seq<char>, id: Seq<char>, at: Timestamp)
    requires
        forall|i: int| 0 <= i < raw.len() ==> raw[i] != '>',
    ensures
        message_of(raw, source, id, at).facility == 16,
        message_of(raw, source, id, at).severity == 6,
        message_of(raw, source, id, at).hostname is None,
        message_of(raw, source, id, at).message == raw,
{
    assert(134u8 >> 3 == 16u8) by (bit_vector);
    assert(134u8 & 7 == 6u8) by (bit_vector);
    assert(raw.subrange(0, raw.len() as int) =~= raw);
    if raw.len() > 0 {
        lemma_run_end(raw, 1, Class::Digit);
        crate::grammar::lemma_find_from(raw, '>', 1);
    }
}

/// A line of neither format that opens with `<` and holds a `>`: the message
/// is what follows the first `>`, the priority is the number between the two,
/// or 16 where that is no number up to 255, and there is no header field.
pub proof fn lemma_bracket_parsed(
    inner: Seq<char>,
    rest: Seq<char>,
    source: Seq<char>,
    id: Seq<char>,
    at: Timestamp,
)
    requires
        forall|i: int| 0 <= i < inner.len() ==> inner[i] != '>',
        rfc5424_layout(seq!['<'] + inner + seq!['>'] + rest) is None,
        rfc3164_layout(seq!['<'] + inner + seq!['>'] + rest) is None,
    ensures
        ({
            let raw = seq!['<'] + inner + seq!['>'] + rest;
            let priority = match crate::grammar::small_number(inner) {
                Some(p) => p,
                None => 16u8,
            };
            message_of(raw, source, id, at) == (MessageView {
                id,
                timestamp: at,
                facility: facility_of(priority),
                severity: severity_of(priority),
                hostname: None,
                app_name: None,
                proc_id: None,
                msg_id: None,
                message: rest,
                raw_message: raw,
                source_ip: source,
            })
        }),
{
    let raw = seq!['<'] + inner + seq!['>'] + rest;
    let close = inner.len() as int + 1;
    assert forall|x: int| 1 <= x < close implies #[trigger] raw[x] != '>' by {
        assert(raw[x] == inner[x - 1]);
    }
    assert(raw[close] == '>');
    crate::grammar::lemma_find_from_is(raw, '>', 1, close);
    assert(raw.subrange(1, close) =~= inner);
    assert(raw.subrange(close + 1, raw.len() as int) =~= rest);
}

/// A line without the opening that both formats share is of neither format.
pub proof fn lemma_no_header(raw: Seq<char>)
    requires
        header_priority(raw) is None,
    ensures
        rfc5424_layout(raw) is None,
        rfc3164_layout(raw) is None,
{
}

} // verus!
