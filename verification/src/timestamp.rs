//! Instants on the UTC time line, as the weight log orders and compares them.

use vstd::prelude::*;

verus! {

/// An instant in UTC: whole seconds since the Unix epoch and the nanoseconds
/// past that second. During a leap second the nanoseconds run on past
/// 999,999,999, so two instants compare by seconds first and nanoseconds
/// second.
#[derive(Clone, Copy, Debug, PartialEq, Eq, Structural)]
pub struct Timestamp {
    pub secs: i64,
    pub nanos: u32,
}

impl Timestamp {
    /// Whether `self` lies strictly before `other` on the time line.
    pub open spec fn precedes(self, other: Timestamp) -> bool {
        self.secs < other.secs || (self.secs == other.secs && self.nanos < other.nanos)
    }

    /// Whether `self` lies before `other` or is the same instant.
    pub open spec fn not_after(self, other: Timestamp) -> bool {
        !other.precedes(self)
    }

    /// The instant `nanos` nanoseconds past the second `secs` of the Unix era.
    pub fn new(secs: i64, nanos: u32) -> (stamp: Timestamp)
        ensures
            stamp.secs == secs,
            stamp.nanos == nanos,
    {
        Timestamp { secs, nanos }
    }

    /// Decides `precedes`.
    pub fn is_before(&self, other: &Timestamp) -> (before: bool)
        ensures
            before == self.precedes(*other),
    {
        self.secs < other.secs || (self.secs == other.secs && self.nanos < other.nanos)
    }
}

/// What `chrono::DateTime::parse_from_rfc3339` makes of a text: the seconds
/// and nanoseconds of the instant that it reads, or `None` where it rejects
/// the text. Its grammar is RFC 3339's date-time with an offset, which is not
/// written out here.
pub uninterp spec fn rfc3339_instant(text: Seq<char>) -> Option<(i64, u32)>;

/// The instant that an RFC 3339 text denotes, if it is one.
pub open spec fn rfc3339_timestamp(text: Seq<char>) -> Option<Timestamp> {
    match rfc3339_instant(text) {
        Some(instant) => Some(Timestamp { secs: instant.0, nanos: instant.1 }),
        None => None,
    }
}

/// Calls `chrono::DateTime::parse_from_rfc3339` and takes the instant read as
/// seconds and nanoseconds of the Unix era (`timestamp`,
/// `timestamp_subsec_nanos`). Trusted: the result is what the parser makes of
/// exactly this text, the same on every call.
#[verifier::external_body]
pub(crate) fn parse_rfc3339(text: &str) -> (parsed: Option<Timestamp>)
    ensures
        rfc3339_instant(text@) == match parsed {
            Some(stamp) => Some((stamp.secs, stamp.nanos)),
            None => None,
        },
{
    match chrono::DateTime::parse_from_rfc3339(text) {
        Ok(instant) => Some(
            Timestamp { secs: instant.timestamp(), nanos: instant.timestamp_subsec_nanos() },
        ),
        Err(_) => None,
    }
}

/// Calls `chrono::Utc::now` and takes the instant as seconds and nanoseconds
/// of the Unix era. Nothing is claimed of the result: it is whatever the
/// system clock says. chrono panics where that clock stands before 1970.
#[verifier::external_body]
pub(crate) fn utc_now() -> (stamp: Timestamp) {
    let now = chrono::Utc::now();
    Timestamp { secs: now.timestamp(), nanos: now.timestamp_subsec_nanos() }
}

} // verus!
