//! The line grammar, as mathematics: where the fields of a syslog line lie.
//!
//! A line is a sequence of characters. Each of the recognised shapes yields a
//! [`Layout`]: the priority and the positions of the header fields and of the
//! message. Nothing here is executable; the scanner in `crate::scan` is proved
//! to compute exactly these functions.

use vstd::prelude::*;
use crate::text::{all_digits, decimal_value, is_digit, is_space, is_word};

verus! {

/// The kinds of character run that the grammar is built from.
#[derive(Clone, Copy, PartialEq, Eq, Structural)]
pub enum Class {
    /// White space.
    Space,
    /// Anything but white space.
    Token,
    /// ASCII decimal digits.
    Digit,
}

/// Whether a character is of a class.
pub open spec fn has_class(c: char, k: Class) -> bool {
    match k {
        Class::Space => is_space(c),
        Class::Token => !is_space(c),
        Class::Digit => is_digit(c),
    }
}

/// Where the longest run of class `k` that starts at `i` ends.
pub open spec fn run_end(s: Seq<char>, i: int, k: Class) -> int
    decreases s.len() - i,
{
    if 0 <= i < s.len() && has_class(s[i], k) {
        run_end(s, i + 1, k)
    } else {
        i
    }
}

/// Where the longest run of class `k` that ends just before `i` starts.
pub open spec fn run_start(s: Seq<char>, i: int, k: Class) -> int
    decreases i,
{
    if 0 < i <= s.len() && has_class(s[i - 1], k) {
        run_start(s, i - 1, k)
    } else {
        i
    }
}

/// The first index at or after `i` that holds `c`, or the length of `s`.
pub open spec fn find_from(s: Seq<char>, c: char, i: int) -> int
    decreases s.len() - i,
{
    if 0 <= i < s.len() && s[i] != c {
        find_from(s, c, i + 1)
    } else {
        i
    }
}

/// The last index in `lo..hi` that holds `c`, if there is one.
pub open spec fn find_last(s: Seq<char>, c: char, lo: int, hi: int) -> Option<int>
    decreases hi - lo,
{
    if hi <= lo {
        None
    } else if s[hi - 1] == c {
        Some(hi - 1)
    } else {
        find_last(s, c, lo, hi - 1)
    }
}

/// No line feed at or after `i`.
pub open spec fn single_line(s: Seq<char>, i: int) -> bool {
    forall|j: int| i <= j < s.len() ==> s[j] != '\n'
}

/// What a priority written between the brackets of a malformed header means: an
/// optional `+`, then at least one digit, the whole no greater than 255.
pub open spec fn small_number(s: Seq<char>) -> Option<u8> {
    let digits = if s.len() > 0 && s[0] == '+' {
        s.subrange(1, s.len() as int)
    } else {
        s
    };
    if digits.len() > 0 && all_digits(digits) && decimal_value(digits) <= 255 {
        Some(decimal_value(digits) as u8)
    } else {
        None
    }
}

/// A half-open range of positions in the line.
pub struct Span {
    pub start: int,
    pub end: int,
}

/// Where the parts of a line lie.
pub struct Layout {
    pub priority: u8,
    pub hostname: Option<Span>,
    pub app_name: Option<Span>,
    pub proc_id: Option<Span>,
    pub msg_id: Option<Span>,
    /// The message runs from here to the end of the line.
    pub message: int,
}

/// The priority given to a line without a header: facility 16 (local0),
/// severity 6 (informational).
pub const DEFAULT_PRIORITY: u8 = 134;

/// The priority given to a line whose brackets hold no usable number.
pub const FALLBACK_PRIORITY: u8 = 16;

/// The opening of both formats: `<`, one to three digits that denote a number up
/// to 255, `>`. Gives the number and the position after `>`.
pub open spec fn header_priority(s: Seq<char>) -> Option<(u8, int)> {
    let e = run_end(s, 1, Class::Digit);
    if s.len() > 0 && s[0] == '<' && 2 <= e <= 4 && e < s.len() && s[e] == '>' && decimal_value(
        s.subrange(1, e),
    ) <= 255 {
        Some((decimal_value(s.subrange(1, e)) as u8, e + 1))
    } else {
        None
    }
}

/// A header field: white space from `i` on, at least one character of it, then a
/// token of at least one character.
pub open spec fn field_after(s: Seq<char>, i: int) -> Option<Span> {
    let start = run_end(s, i, Class::Space);
    if i < start < s.len() {
        Some(Span { start, end: run_end(s, start, Class::Token) })
    } else {
        None
    }
}

/// The field that follows `prev`, if `prev` was found.
pub open spec fn next_field(s: Seq<char>, prev: Option<Span>) -> Option<Span> {
    match prev {
        Some(p) => field_after(s, p.end),
        None => None,
    }
}

/// `<PRI>VERSION TIMESTAMP HOST APP PROCID MSGID MESSAGE`: a one-digit version,
/// five tokens set off by white space, more white space, and the message, which
/// holds no line feed.
///
/// The digits of the priority and the version are ASCII, by decision: a digit
/// of another script is no digit here, and a line with one in these places is
/// not of this format.
pub open spec fn rfc5424_layout(s: Seq<char>) -> Option<Layout> {
    match header_priority(s) {
        Some((priority, v)) => {
            let stamp = field_after(s, v + 1);
            let host = next_field(s, stamp);
            let app = next_field(s, host);
            let pid = next_field(s, app);
            let mid = next_field(s, pid);
            if v < s.len() && is_digit(s[v]) && mid is Some {
                let m = run_end(s, mid->0.end, Class::Space);
                if mid->0.end < m && single_line(s, m) {
                    Some(
                        Layout {
                            priority,
                            hostname: host,
                            app_name: app,
                            proc_id: pid,
                            msg_id: mid,
                            message: m,
                        },
                    )
                } else {
                    None
                }
            } else {
                None
            }
        },
        None => None,
    }
}

/// `HH:MM:SS` at `t`.
pub open spec fn clock_at(s: Seq<char>, t: int) -> bool {
    &&& 0 <= t
    &&& t + 8 <= s.len()
    &&& is_digit(s[t])
    &&& is_digit(s[t + 1])
    &&& s[t + 2] == ':'
    &&& is_digit(s[t + 3])
    &&& is_digit(s[t + 4])
    &&& s[t + 5] == ':'
    &&& is_digit(s[t + 6])
    &&& is_digit(s[t + 7])
}

/// `MMM DD HH:MM:SS` at `i`: three word characters, white space, a day of one or
/// two digits, white space, the time of day. Gives the position after the
/// seconds.
///
/// Word characters and digits are ASCII, by decision: the month is three of
/// `A-Z`, `a-z`, `0-9` and `_`, and day and time are written with `0-9`. A stamp
/// with a letter or digit of another script is no stamp, and its line is not of
/// this format.
pub open spec fn stamp_end(s: Seq<char>, i: int) -> Option<int> {
    let day = run_end(s, i + 3, Class::Space);
    let day_end = run_end(s, day, Class::Digit);
    let clock = run_end(s, day_end, Class::Space);
    if 0 <= i && i + 3 <= s.len() && is_word(s[i]) && is_word(s[i + 1]) && is_word(s[i + 2]) && i
        + 3 < day && 1 <= day_end - day <= 2 && day_end < clock && clock_at(s, clock) {
        Some(clock + 8)
    } else {
        None
    }
}

/// Where `[` stands in `t`, if `t` is a non-empty name followed by `[`, at least
/// one digit and `]`.
pub open spec fn pid_bracket(t: Seq<char>) -> Option<int> {
    let digits = run_start(t, t.len() - 1, Class::Digit);
    if t.len() > 0 && t.last() == ']' && digits < t.len() - 1 && 2 <= digits && t[digits - 1]
        == '[' {
        Some(digits - 1)
    } else {
        None
    }
}

/// `<PRI>MMM DD HH:MM:SS HOST TAG[PID]: MESSAGE`. The token after the host is
/// cut at its last colon, which may not be its first character. What stands
/// before the colon is the tag, unless it ends in `[digits]`: then the digits
/// are the process id and the tag is what stands before the bracket. The
/// message follows the colon and any white space, and holds no line feed.
pub open spec fn rfc3164_layout(s: Seq<char>) -> Option<Layout> {
    match header_priority(s) {
        Some((priority, v)) => match stamp_end(s, v) {
            Some(after) => {
                let host = field_after(s, after);
                let word = next_field(s, host);
                if word is Some {
                    let w = word->0;
                    match find_last(s, ':', w.start + 1, w.end) {
                        Some(colon) => {
                            let m = run_end(s, colon + 1, Class::Space);
                            if single_line(s, m) {
                                Some(
                                    match pid_bracket(s.subrange(w.start, colon)) {
                                        Some(open) => Layout {
                                            priority,
                                            hostname: host,
                                            app_name: Some(
                                                Span { start: w.start, end: w.start + open },
                                            ),
                                            proc_id: Some(
                                                Span {
                                                    start: w.start + open + 1,
                                                    end: colon - 1,
                                                },
                                            ),
                                            msg_id: None,
                                            message: m,
                                        },
                                        None => Layout {
                                            priority,
                                            hostname: host,
                                            app_name: Some(Span { start: w.start, end: colon }),
                                            proc_id: None,
                                            msg_id: None,
                                            message: m,
                                        },
                                    },
                                )
                            } else {
                                None
                            }
                        },
                        None => None,
                    }
                } else {
                    None
                }
            },
            None => None,
        },
        None => None,
    }
}

/// A line that opens with `<` and holds a `>`: the message is what follows the
/// first `>`; the priority is the number between the two, or 16 where that is
/// no number up to 255.
pub open spec fn bracket_layout(s: Seq<char>) -> Option<Layout> {
    let close = find_from(s, '>', 1);
    if s.len() > 0 && s[0] == '<' && close < s.len() {
        Some(
            Layout {
                priority: match small_number(s.subrange(1, close)) {
                    Some(p) => p,
                    None => FALLBACK_PRIORITY,
                },
                hostname: None,
                app_name: None,
                proc_id: None,
                msg_id: None,
                message: close + 1,
            },
        )
    } else {
        None
    }
}

/// Any line taken whole: the default priority, no header fields.
pub open spec fn plain_layout() -> Layout {
    Layout {
        priority: DEFAULT_PRIORITY,
        hostname: None,
        app_name: None,
        proc_id: None,
        msg_id: None,
        message: 0,
    }
}

/// The layout of any line: the first of the four shapes that fits.
pub open spec fn line_layout(s: Seq<char>) -> Layout {
    if rfc5424_layout(s) is Some {
        rfc5424_layout(s)->0
    } else if rfc3164_layout(s) is Some {
        rfc3164_layout(s)->0
    } else if bracket_layout(s) is Some {
        bracket_layout(s)->0
    } else {
        plain_layout()
    }
}

/// Whether a span, if there is one, lies within a line of length `len`.
pub open spec fn span_fits(sp: Option<Span>, len: int) -> bool {
    sp matches Some(x) ==> 0 <= x.start <= x.end <= len
}

/// Every position of the layout lies within a line of length `len`.
pub open spec fn layout_fits(l: Layout, len: int) -> bool {
    &&& span_fits(l.hostname, len)
    &&& span_fits(l.app_name, len)
    &&& span_fits(l.proc_id, len)
    &&& span_fits(l.msg_id, len)
    &&& 0 <= l.message <= len
}

/// A run ends at or after its start, within the line, and holds only its class;
/// what follows it, if anything, is of another class.
pub proof fn lemma_run_end(s: Seq<char>, i: int, k: Class)
    requires
        0 <= i <= s.len(),
    ensures
        i <= run_end(s, i, k) <= s.len(),
        forall|j: int| i <= j < run_end(s, i, k) ==> has_class(#[trigger] s[j], k),
        run_end(s, i, k) < s.len() ==> !has_class(s[run_end(s, i, k)], k),
    decreases s.len() - i,
{
    if i < s.len() && has_class(s[i], k) {
        lemma_run_end(s, i + 1, k);
    }
}

/// A run is fixed by its content: if `i..j` is all of class `k` and cannot be
/// extended, the run from `i` ends at `j`.
pub proof fn lemma_run_end_is(s: Seq<char>, i: int, j: int, k: Class)
    requires
        0 <= i <= j <= s.len(),
        forall|x: int| i <= x < j ==> has_class(#[trigger] s[x], k),
        j < s.len() ==> !has_class(s[j], k),
    ensures
        run_end(s, i, k) == j,
    decreases j - i,
{
    if i < j {
        lemma_run_end_is(s, i + 1, j, k);
    }
}

/// A run starts at or before its end, within the line, and holds only its
/// class; what precedes it, if anything, is of another class.
pub proof fn lemma_run_start(s: Seq<char>, i: int, k: Class)
    requires
        0 <= i <= s.len(),
    ensures
        0 <= run_start(s, i, k) <= i,
        forall|j: int| run_start(s, i, k) <= j < i ==> has_class(#[trigger] s[j], k),
        0 < run_start(s, i, k) ==> !has_class(s[run_start(s, i, k) - 1], k),
    decreases i,
{
    if 0 < i && has_class(s[i - 1], k) {
        lemma_run_start(s, i - 1, k);
    }
}

/// A run is fixed by its content, read backwards as well.
pub proof fn lemma_run_start_is(s: Seq<char>, b: int, i: int, k: Class)
    requires
        0 <= b <= i <= s.len(),
        forall|x: int| b <= x < i ==> has_class(#[trigger] s[x], k),
        0 < b ==> !has_class(s[b - 1], k),
    ensures
        run_start(s, i, k) == b,
    decreases i - b,
{
    if b < i {
        lemma_run_start_is(s, b, i - 1, k);
    }
}

/// What `find_from` finds is the first occurrence.
pub proof fn lemma_find_from(s: Seq<char>, c: char, i: int)
    requires
        0 <= i <= s.len(),
    ensures
        i <= find_from(s, c, i) <= s.len(),
        forall|j: int| i <= j < find_from(s, c, i) ==> #[trigger] s[j] != c,
        find_from(s, c, i) < s.len() ==> s[find_from(s, c, i)] == c,
    decreases s.len() - i,
{
    if i < s.len() && s[i] != c {
        lemma_find_from(s, c, i + 1);
    }
}

/// The first occurrence is what `find_from` finds.
pub proof fn lemma_find_from_is(s: Seq<char>, c: char, i: int, j: int)
    requires
        0 <= i <= j <= s.len(),
        forall|x: int| i <= x < j ==> #[trigger] s[x] != c,
        j < s.len() ==> s[j] == c,
    ensures
        find_from(s, c, i) == j,
    decreases j - i,
{
    if i < j {
        lemma_find_from_is(s, c, i + 1, j);
    }
}

/// What `find_last` finds is the last occurrence.
pub proof fn lemma_find_last(s: Seq<char>, c: char, lo: int, hi: int)
    requires
        0 <= lo,
        hi <= s.len(),
    ensures
        match find_last(s, c, lo, hi) {
            Some(p) => lo <= p < hi && s[p] == c && forall|j: int|
                p < j < hi ==> #[trigger] s[j] != c,
            None => forall|j: int| lo <= j < hi ==> #[trigger] s[j] != c,
        },
    decreases hi - lo,
{
    if lo < hi && s[hi - 1] != c {
        lemma_find_last(s, c, lo, hi - 1);
    }
}

/// The last occurrence is what `find_last` finds.
pub proof fn lemma_find_last_is(s: Seq<char>, c: char, lo: int, hi: int, p: int)
    requires
        0 <= lo <= p < hi <= s.len(),
        s[p] == c,
        forall|j: int| p < j < hi ==> #[trigger] s[j] != c,
    ensures
        find_last(s, c, lo, hi) == Some(p),
    decreases hi - p,
{
    if p < hi - 1 {
        lemma_find_last_is(s, c, lo, hi - 1, p);
    }
}

/// A field lies within the line and is not empty.
pub proof fn lemma_field_after(s: Seq<char>, i: int)
    requires
        0 <= i <= s.len(),
    ensures
        field_after(s, i) matches Some(f) ==> i < f.start < f.end <= s.len(),
{
    lemma_run_end(s, i, Class::Space);
    let start = run_end(s, i, Class::Space);
    if i < start < s.len() {
        lemma_run_end(s, start, Class::Token);
    }
}

/// The layout of any line lies within the line.
pub proof fn lemma_layout_fits(s: Seq<char>)
    ensures
        layout_fits(line_layout(s), s.len() as int),
{
    let n = s.len() as int;
    if rfc5424_layout(s) is Some {
        let header = header_priority(s)->0;
        let v = header.1;
        lemma_run_end(s, 1, Class::Digit);
        let stamp = field_after(s, v + 1);
        lemma_field_after(s, v + 1);
        let host = next_field(s, stamp);
        lemma_field_after(s, stamp->0.end);
        let app = next_field(s, host);
        lemma_field_after(s, host->0.end);
        let pid = next_field(s, app);
        lemma_field_after(s, app->0.end);
        let mid = next_field(s, pid);
        lemma_field_after(s, pid->0.end);
        lemma_run_end(s, mid->0.end, Class::Space);
    } else if rfc3164_layout(s) is Some {
        let header = header_priority(s)->0;
        let v = header.1;
        lemma_run_end(s, 1, Class::Digit);
        let after = stamp_end(s, v)->0;
        lemma_run_end(s, v + 3, Class::Space);
        let day = run_end(s, v + 3, Class::Space);
        lemma_run_end(s, day, Class::Digit);
        let day_end = run_end(s, day, Class::Digit);
        lemma_run_end(s, day_end, Class::Space);
        let host = field_after(s, after);
        lemma_field_after(s, after);
        let word = next_field(s, host);
        lemma_field_after(s, host->0.end);
        let w = word->0;
        lemma_find_last(s, ':', w.start + 1, w.end);
        let colon = find_last(s, ':', w.start + 1, w.end)->0;
        lemma_run_end(s, colon + 1, Class::Space);
        let t = s.subrange(w.start, colon);
        if pid_bracket(t) is Some {
            lemma_run_start(t, t.len() - 1, Class::Digit);
        }
    } else if bracket_layout(s) is Some {
        lemma_find_from(s, '>', 1);
    }
}

} // verus!
