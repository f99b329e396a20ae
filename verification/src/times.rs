//! Instants in time, read from and written to RFC 3339 text.
//!
//! An instant is held as seconds and nanoseconds since the Unix epoch. The
//! text form is chrono's concern: reading and writing it are trusted calls
//! into that crate, each a pure function of its arguments, named by the two
//! uninterpreted functions below.

use vstd::prelude::*;

use chrono::TimeZone;

verus! {

/// An instant: seconds since the Unix epoch, plus nanoseconds.
#[derive(Clone, Copy, Debug, PartialEq, Eq, Structural)]
pub struct Timestamp {
    pub secs: i64,
    pub nanos: u32,
}

/// The instant an RFC 3339 text denotes (UTC seconds and nanoseconds since
/// the epoch), or nothing when the text is not valid RFC 3339 or not UTF-8.
pub uninterp spec fn rfc3339_instant(s: Seq<u8>) -> Option<(i64, u32)>;

/// The RFC 3339 text of an instant, or nothing when the instant lies out
/// of the calendar's range.
pub uninterp spec fn rfc3339_bytes(secs: int, nanos: int) -> Option<Seq<u8>>;

/// Relies on chrono's `DateTime::parse_from_rfc3339`, `DateTime::timestamp`
/// and `DateTime::timestamp_subsec_nanos`: parsing RFC 3339 text with its
/// offset and reducing it to the UTC instant it names, a function of the
/// text alone.
#[verifier::external_body]
pub fn parse_rfc3339(s: &Vec<u8>) -> (r: Option<Timestamp>)
    ensures
        match r {
            Some(t) => rfc3339_instant(s@) == Some((t.secs, t.nanos)),
            None => rfc3339_instant(s@) is None,
        },
{
    let text = match core::str::from_utf8(s.as_slice()) {
        Ok(t) => t,
        Err(_) => {
            return None;
        },
    };
    match chrono::DateTime::parse_from_rfc3339(text) {
        Ok(d) => Some(Timestamp { secs: d.timestamp(), nanos: d.timestamp_subsec_nanos() }),
        Err(_) => None,
    }
}

/// Relies on chrono's `TimeZone::timestamp_opt` for `Utc` and
/// `DateTime::to_rfc3339`: the RFC 3339 text of a UTC instant, a function
/// of the instant alone; out-of-range instants yield nothing.
#[verifier::external_body]
pub fn format_rfc3339(secs: i64, nanos: u32) -> (r: Option<Vec<u8>>)
    ensures
        match r {
            Some(b) => rfc3339_bytes(secs as int, nanos as int) == Some(b@),
            None => rfc3339_bytes(secs as int, nanos as int) is None,
        },
{
    match chrono::Utc.timestamp_opt(secs, nanos) {
        chrono::LocalResult::Single(d) => Some(d.to_rfc3339().into_bytes()),
        _ => None,
    }
}

} // verus!
