//! The scanner: executable counterparts of the grammar's functions, each proved
//! to compute the function it is named after.

use vstd::prelude::*;
use vstd::slice::slice_subrange;
use crate::grammar::{
    bracket_layout, clock_at, field_after, find_from, find_last, has_class, header_priority,
    layout_fits, lemma_field_after, lemma_find_from, lemma_find_from_is, lemma_run_end,
    lemma_run_end_is, lemma_run_start_is, line_layout, next_field, pid_bracket, rfc3164_layout,
    rfc5424_layout, run_end, run_start, single_line, small_number, stamp_end, Class, Layout, Span,
    DEFAULT_PRIORITY, FALLBACK_PRIORITY,
};
use crate::text::{
    all_digits, char_is_digit, char_is_space, char_is_word, decimal_value, digit_value, is_digit,
};

verus! {

/// A half-open range of positions in a line held in memory.
#[derive(Clone, Copy, Debug)]
pub struct Mark {
    pub start: usize,
    pub end: usize,
}

impl View for Mark {
    type V = Span;

    open spec fn view(&self) -> Span {
        Span { start: self.start as int, end: self.end as int }
    }
}

/// An optional mark, as a span.
pub open spec fn mark_view(m: Option<Mark>) -> Option<Span> {
    match m {
        Some(x) => Some(x@),
        None => None,
    }
}

/// Where the parts of a line held in memory lie.
#[derive(Clone, Copy, Debug)]
pub struct Marks {
    pub priority: u8,
    pub hostname: Option<Mark>,
    pub app_name: Option<Mark>,
    pub proc_id: Option<Mark>,
    pub msg_id: Option<Mark>,
    pub message: usize,
}

impl View for Marks {
    type V = Layout;

    open spec fn view(&self) -> Layout {
        Layout {
            priority: self.priority,
            hostname: mark_view(self.hostname),
            app_name: mark_view(self.app_name),
            proc_id: mark_view(self.proc_id),
            msg_id: mark_view(self.msg_id),
            message: self.message as int,
        }
    }
}

/// Optional marks, as a layout.
pub open spec fn marks_view(m: Option<Marks>) -> Option<Layout> {
    match m {
        Some(x) => Some(x@),
        None => None,
    }
}

/// Whether a character is of a class.
pub fn in_class(c: char, k: Class) -> (b: bool)
    ensures
        b == has_class(c, k),
{
    match k {
        Class::Space => char_is_space(c),
        Class::Token => !char_is_space(c),
        Class::Digit => char_is_digit(c),
    }
}

/// Where the longest run of class `k` that starts at `i` ends.
pub fn scan_run(cs: &[char], i: usize, k: Class) -> (j: usize)
    requires
        i <= cs.len(),
    ensures
        j == run_end(cs@, i as int, k),
        i <= j <= cs.len(),
{
    let mut j: usize = i;
    while j < cs.len() && in_class(cs[j], k)
        invariant
            i <= j <= cs.len(),
            forall|x: int| i <= x < j ==> has_class(#[trigger] cs@[x], k),
        decreases cs.len() - j,
    {
        j = j + 1;
    }
    proof {
        lemma_run_end_is(cs@, i as int, j as int, k);
    }
    j
}

/// Where the longest run of class `k` that ends just before `i` starts.
pub fn scan_back(cs: &[char], i: usize, k: Class) -> (b: usize)
    requires
        i <= cs.len(),
    ensures
        b == run_start(cs@, i as int, k),
        b <= i,
{
    let mut b: usize = i;
    while b > 0 && in_class(cs[b - 1], k)
        invariant
            b <= i <= cs.len(),
            forall|x: int| b <= x < i ==> has_class(#[trigger] cs@[x], k),
        decreases b,
    {
        b = b - 1;
    }
    proof {
        lemma_run_start_is(cs@, b as int, i as int, k);
    }
    b
}

/// The first position at or after `i` that holds `c`, or the length.
pub fn find_char(cs: &[char], c: char, i: usize) -> (j: usize)
    requires
        i <= cs.len(),
    ensures
        j == find_from(cs@, c, i as int),
        i <= j <= cs.len(),
{
    let mut j: usize = i;
    while j < cs.len() && cs[j] != c
        invariant
            i <= j <= cs.len(),
            forall|x: int| i <= x < j ==> #[trigger] cs@[x] != c,
        decreases cs.len() - j,
    {
        j = j + 1;
    }
    proof {
        lemma_find_from_is(cs@, c, i as int, j as int);
    }
    j
}

/// The last position in `lo..hi` that holds `c`, if there is one.
pub fn find_last_char(cs: &[char], c: char, lo: usize, hi: usize) -> (r: Option<usize>)
    requires
        hi <= cs.len(),
    ensures
        match r {
            Some(p) => find_last(cs@, c, lo as int, hi as int) == Some(p as int) && lo <= p < hi,
            None => find_last(cs@, c, lo as int, hi as int) is None,
        },
{
    let mut j: usize = hi;
    while j > lo
        invariant
            j <= hi <= cs.len(),
            find_last(cs@, c, lo as int, hi as int) == find_last(cs@, c, lo as int, j as int),
        decreases j,
    {
        if cs[j - 1] == c {
            return Some(j - 1);
        }
        j = j - 1;
    }
    None
}

/// Whether no line feed stands at or after `i`.
pub fn is_single_line(cs: &[char], i: usize) -> (b: bool)
    requires
        i <= cs.len(),
    ensures
        b == single_line(cs@, i as int),
{
    let j = find_char(cs, '\n', i);
    proof {
        lemma_find_from(cs@, '\n', i as int);
    }
    j == cs.len()
}

proof fn lemma_decimal_step(s: Seq<char>, from: int, j: int)
    requires
        0 <= from <= j < s.len(),
    ensures
        decimal_value(s.subrange(from, j + 1)) == decimal_value(s.subrange(from, j)) * 10
            + digit_value(s[j]),
{
    assert(s.subrange(from, j + 1).drop_last() =~= s.subrange(from, j));
}

/// Appending digits never makes the number smaller.
pub proof fn lemma_decimal_grows(s: Seq<char>, from: int, j: int, to: int)
    requires
        0 <= from <= j <= to <= s.len(),
    ensures
        decimal_value(s.subrange(from, j)) <= decimal_value(s.subrange(from, to)),
    decreases to - j,
{
    if j < to {
        lemma_decimal_step(s, from, to - 1);
        lemma_decimal_grows(s, from, j, to - 1);
    }
}

/// The number that the digits in `from..to` denote, if it is at most 255.
pub fn read_decimal(cs: &[char], from: usize, to: usize) -> (r: Option<u8>)
    requires
        from <= to <= cs.len(),
        all_digits(cs@.subrange(from as int, to as int)),
    ensures
        r == if decimal_value(cs@.subrange(from as int, to as int)) <= 255 {
            Some(decimal_value(cs@.subrange(from as int, to as int)) as u8)
        } else {
            None
        },
{
    let mut v: u32 = 0;
    let mut j: usize = from;
    while j < to
        invariant
            from <= j <= to <= cs.len(),
            all_digits(cs@.subrange(from as int, to as int)),
            v == decimal_value(cs@.subrange(from as int, j as int)),
            v <= 255,
        decreases to - j,
    {
        let c = cs[j];
        assert(is_digit(c)) by {
            assert(cs@.subrange(from as int, to as int)[j - from] == c);
        }
        let d: u32 = c as u32 - '0' as u32;
        proof {
            lemma_decimal_step(cs@, from as int, j as int);
        }
        v = v * 10 + d;
        j = j + 1;
        if v > 255 {
            proof {
                lemma_decimal_grows(cs@, from as int, j as int, to as int);
            }
            return None;
        }
    }
    Some(v as u8)
}

/// The number between the brackets of a malformed header.
pub fn read_small_number(cs: &[char], from: usize, to: usize) -> (r: Option<u8>)
    requires
        from <= to <= cs.len(),
    ensures
        r == small_number(cs@.subrange(from as int, to as int)),
{
    let ghost s = cs@.subrange(from as int, to as int);
    let first: usize = if from < to && cs[from] == '+' {
        from + 1
    } else {
        from
    };
    let ghost digits = if s.len() > 0 && s[0] == '+' {
        s.subrange(1, s.len() as int)
    } else {
        s
    };
    assert(digits =~= cs@.subrange(first as int, to as int));
    if first == to {
        return None;
    }
    let e = scan_run(cs, first, Class::Digit);
    proof {
        lemma_run_end(cs@, first as int, Class::Digit);
    }
    if e < to {
        assert(!is_digit(digits[e - first]));
        return None;
    }
    assert(all_digits(digits));
    read_decimal(cs, first, to)
}

/// The opening `<PRI>`.
pub fn read_header(cs: &[char]) -> (r: Option<(u8, usize)>)
    ensures
        match r {
            Some((p, v)) => header_priority(cs@) == Some((p, v as int)) && 3 <= v <= cs.len(),
            None => header_priority(cs@) is None,
        },
{
    if cs.len() == 0 || cs[0] != '<' {
        return None;
    }
    let e = scan_run(cs, 1, Class::Digit);
    proof {
        lemma_run_end(cs@, 1, Class::Digit);
    }
    if e < 2 || e > 4 || e >= cs.len() || cs[e] != '>' {
        return None;
    }
    assert(all_digits(cs@.subrange(1, e as int)));
    match read_decimal(cs, 1, e) {
        Some(p) => Some((p, e + 1)),
        None => None,
    }
}

/// A header field after position `i`.
pub fn scan_field(cs: &[char], i: usize) -> (r: Option<Mark>)
    requires
        i <= cs.len(),
    ensures
        mark_view(r) == field_after(cs@, i as int),
        r matches Some(f) ==> i < f.start < f.end <= cs.len(),
{
    let start = scan_run(cs, i, Class::Space);
    if i < start && start < cs.len() {
        let end = scan_run(cs, start, Class::Token);
        proof {
            lemma_field_after(cs@, i as int);
        }
        Some(Mark { start, end })
    } else {
        None
    }
}

/// The field that follows `prev`, if `prev` was found.
pub fn scan_next(cs: &[char], prev: Option<Mark>) -> (r: Option<Mark>)
    requires
        prev matches Some(p) ==> p.end <= cs.len(),
    ensures
        mark_view(r) == next_field(cs@, mark_view(prev)),
        r matches Some(f) ==> f.start < f.end <= cs.len(),
{
    match prev {
        Some(p) => scan_field(cs, p.end),
        None => None,
    }
}

/// The layout of a line in the newer format, if it is one.
pub fn match_rfc5424(cs: &[char]) -> (r: Option<Marks>)
    ensures
        marks_view(r) == rfc5424_layout(cs@),
        r matches Some(m) ==> layout_fits(m@, cs.len() as int),
{
    let (priority, v) = match read_header(cs) {
        Some(h) => h,
        None => {
            return None;
        },
    };
    if v >= cs.len() || !char_is_digit(cs[v]) {
        return None;
    }
    let stamp = scan_field(cs, v + 1);
    let host = scan_next(cs, stamp);
    let app = scan_next(cs, host);
    let pid = scan_next(cs, app);
    let mid = scan_next(cs, pid);
    match mid {
        Some(last) => {
            let m = scan_run(cs, last.end, Class::Space);
            if last.end < m && is_single_line(cs, m) {
                Some(
                    Marks {
                        priority,
                        hostname: host,
                        app_name: app,
                        proc_id: pid,
                        msg_id: mid,
                        message: m,
                    },
                )
            } else {
                None
            }
        },
        None => None,
    }
}

fn is_clock(cs: &[char], t: usize) -> (b: bool)
    requires
        t <= cs.len(),
    ensures
        b == clock_at(cs@, t as int),
{
    cs.len() - t >= 8 && char_is_digit(cs[t]) && char_is_digit(cs[t + 1]) && cs[t + 2] == ':'
        && char_is_digit(cs[t + 3]) && char_is_digit(cs[t + 4]) && cs[t + 5] == ':'
        && char_is_digit(cs[t + 6]) && char_is_digit(cs[t + 7])
}

/// The `MMM DD HH:MM:SS` stamp at `i`.
pub fn scan_stamp(cs: &[char], i: usize) -> (r: Option<usize>)
    requires
        i <= cs.len(),
    ensures
        match r {
            Some(e) => stamp_end(cs@, i as int) == Some(e as int) && e <= cs.len(),
            None => stamp_end(cs@, i as int) is None,
        },
{
    if cs.len() - i < 3 || !char_is_word(cs[i]) || !char_is_word(cs[i + 1]) || !char_is_word(
        cs[i + 2],
    ) {
        return None;
    }
    let day = scan_run(cs, i + 3, Class::Space);
    let day_end = scan_run(cs, day, Class::Digit);
    let clock = scan_run(cs, day_end, Class::Space);
    if i + 3 < day && 1 <= day_end - day && day_end - day <= 2 && day_end < clock && is_clock(
        cs,
        clock,
    ) {
        Some(clock + 8)
    } else {
        None
    }
}

/// Where the `[` of a trailing `[digits]` stands in `t`.
pub fn find_pid_bracket(t: &[char]) -> (r: Option<usize>)
    ensures
        match r {
            Some(open) => pid_bracket(t@) == Some(open as int) && 0 < open && open + 2 < t.len(),
            None => pid_bracket(t@) is None,
        },
{
    let n = t.len();
    if n == 0 || t[n - 1] != ']' {
        return None;
    }
    let digits = scan_back(t, n - 1, Class::Digit);
    if digits < n - 1 && digits >= 2 && t[digits - 1] == '[' {
        Some(digits - 1)
    } else {
        None
    }
}

/// The layout of a line in the older format, if it is one.
pub fn match_rfc3164(cs: &[char]) -> (r: Option<Marks>)
    ensures
        marks_view(r) == rfc3164_layout(cs@),
        r matches Some(m) ==> layout_fits(m@, cs.len() as int),
{
    let (priority, v) = match read_header(cs) {
        Some(h) => h,
        None => {
            return None;
        },
    };
    let after = match scan_stamp(cs, v) {
        Some(e) => e,
        None => {
            return None;
        },
    };
    let host = scan_field(cs, after);
    let word = scan_next(cs, host);
    let w = match word {
        Some(w) => w,
        None => {
            return None;
        },
    };
    let colon = match find_last_char(cs, ':', w.start + 1, w.end) {
        Some(c) => c,
        None => {
            return None;
        },
    };
    let m = scan_run(cs, colon + 1, Class::Space);
    if !is_single_line(cs, m) {
        return None;
    }
    match find_pid_bracket(slice_subrange(cs, w.start, colon)) {
        Some(open) => Some(
            Marks {
                priority,
                hostname: host,
                app_name: Some(Mark { start: w.start, end: w.start + open }),
                proc_id: Some(Mark { start: w.start + open + 1, end: colon - 1 }),
                msg_id: None,
                message: m,
            },
        ),
        None => Some(
            Marks {
                priority,
                hostname: host,
                app_name: Some(Mark { start: w.start, end: colon }),
                proc_id: None,
                msg_id: None,
                message: m,
            },
        ),
    }
}

/// The layout of a line that only opens with a bracketed priority, if it
/// does.
pub fn match_bracket(cs: &[char]) -> (r: Option<Marks>)
    ensures
        marks_view(r) == bracket_layout(cs@),
        r matches Some(m) ==> layout_fits(m@, cs.len() as int),
{
    if cs.len() == 0 || cs[0] != '<' {
        return None;
    }
    let close = find_char(cs, '>', 1);
    if close >= cs.len() {
        return None;
    }
    let priority = match read_small_number(cs, 1, close) {
        Some(p) => p,
        None => FALLBACK_PRIORITY,
    };
    Some(
        Marks {
            priority,
            hostname: None,
            app_name: None,
            proc_id: None,
            msg_id: None,
            message: close + 1,
        },
    )
}

/// The layout of any line.
pub fn locate(cs: &[char]) -> (m: Marks)
    ensures
        m@ == line_layout(cs@),
        layout_fits(m@, cs.len() as int),
{
    if let Some(m) = match_rfc5424(cs) {
        return m;
    }
    if let Some(m) = match_rfc3164(cs) {
        return m;
    }
    if let Some(m) = match_bracket(cs) {
        return m;
    }
    Marks {
        priority: DEFAULT_PRIORITY,
        hostname: None,
        app_name: None,
        proc_id: None,
        msg_id: None,
        message: 0,
    }
}

} // verus!
