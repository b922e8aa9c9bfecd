//! What a record takes from its surroundings rather than from the line: a fresh
//! identifier and the current time. Both come from outside crates, and what is
//! stated of them here is believed, not proved.

use vstd::prelude::*;
use crate::message::Timestamp;
use crate::text::is_digit;

verus! {

/// A hexadecimal digit, letters in lower case.
pub open spec fn is_lower_hex(c: char) -> bool {
    is_digit(c) || ('a' <= c <= 'f')
}

/// The textual form of a random (version 4) UUID: 32 lower-case hexadecimal
/// digits in groups of 8, 4, 4, 4 and 12, joined by hyphens; the third group
/// opens with `4`, the fourth with `8`, `9`, `a` or `b`.
pub open spec fn is_uuid_text(s: Seq<char>) -> bool {
    &&& s.len() == 36
    &&& forall|i: int|
        0 <= i < 36 ==> if i == 8 || i == 13 || i == 18 || i == 23 {
            #[trigger] s[i] == '-'
        } else {
            is_lower_hex(s[i])
        }
    &&& s[14] == '4'
    &&& (s[19] == '8' || s[19] == '9' || s[19] == 'a' || s[19] == 'b')
}

/// A fresh identifier: `uuid::Uuid::new_v4()`, written out with `to_string()`.
///
/// Believed of the `uuid` crate: the text is the hyphenated lower-case form, and
/// the version and variant bits are those of a random UUID. Which identifier
/// comes back is not stated; it is drawn from the operating system's random
/// source, and the call panics if that source fails.
#[verifier::external_body]
pub(crate) fn fresh_id() -> (id: String)
    ensures
        is_uuid_text(id@),
{
    uuid::Uuid::new_v4().to_string()
}

/// The current time: `chrono::Utc::now()`, taken apart with `timestamp()` and
/// `timestamp_subsec_nanos()`.
///
/// Believed of the `chrono` crate: the nanoseconds are a fraction of a second,
/// and the instant, which `Utc::now` itself made with `DateTime::from_timestamp`,
/// is one that has an RFC 3339 text. Which instant comes back is not stated;
/// the call panics if the system clock stands before the Unix epoch.
#[verifier::external_body]
pub(crate) fn now() -> (t: Timestamp)
    ensures
        t.nanos < 1_000_000_000,
        rfc3339_text(t.secs, t.nanos) is Some,
{
    let t = chrono::Utc::now();
    Timestamp { secs: t.timestamp(), nanos: t.timestamp_subsec_nanos() }
}

} // verus!

verus! {

/// The RFC 3339 text of an instant, as `chrono` writes it: what
/// `DateTime::to_rfc3339` gives for the instant that `DateTime::from_timestamp`
/// makes of the seconds and nanoseconds, and nothing where it makes none.
pub uninterp spec fn rfc3339_text(secs: i64, nanos: u32) -> Option<Seq<char>>;

/// The instant that an RFC 3339 text denotes, as `chrono` reads it: what
/// `DateTime::parse_from_rfc3339` makes of the text, in seconds and nanoseconds
/// since the Unix epoch, and nothing where the text is refused.
pub uninterp spec fn rfc3339_instant(text: Seq<char>) -> Option<(i64, u32)>;

/// `chrono::DateTime::from_timestamp`, then `to_rfc3339` on what it gives.
///
/// Believed of the `chrono` crate: the text depends on the seconds and
/// nanoseconds alone. Instants outside the range of `chrono`'s calendar have no
/// text.
#[verifier::external_body]
pub(crate) fn write_instant(t: Timestamp) -> (r: Option<String>)
    ensures
        crate::message::text_view(r) == rfc3339_text(t.secs, t.nanos),
{
    match chrono::DateTime::from_timestamp(t.secs, t.nanos) {
        Some(d) => Some(d.to_rfc3339()),
        None => None,
    }
}

/// `chrono::DateTime::parse_from_rfc3339`, taken apart with `timestamp()` and
/// `timestamp_subsec_nanos()`.
///
/// Believed of the `chrono` crate: the instant depends on the text alone.
#[verifier::external_body]
pub(crate) fn read_instant(text: &str) -> (r: Option<Timestamp>)
    ensures
        r is Some == rfc3339_instant(text@) is Some,
        r matches Some(t) ==> rfc3339_instant(text@) == Some((t.secs, t.nanos)),
{
    match chrono::DateTime::parse_from_rfc3339(text) {
        Ok(d) => Some(Timestamp { secs: d.timestamp(), nanos: d.timestamp_subsec_nanos() }),
        Err(_) => None,
    }
}

} // verus!
