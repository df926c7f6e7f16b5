//! Points in time, counted as chrono counts them for UTC.

use chrono::{DateTime, Utc};
use vstd::prelude::*;

verus! {

/// Whether chrono can represent the instant `secs` seconds after the Unix epoch plus
/// `nanos` nanoseconds (`DateTime::<Utc>::from_timestamp(secs, nanos)` is `Some`): its
/// day falls in chrono's calendar, from the first day of year -262143 to the last day of
/// year 262142, and the nanoseconds stay below one second, or below two in a leap
/// second, which chrono places on a second numbered 59 in its minute.
pub open spec fn chrono_accepts(secs: i64, nanos: u32) -> bool {
    &&& -8_334_601_228_800 <= secs <= 8_210_266_876_799
    &&& nanos < 2_000_000_000
    &&& nanos >= 1_000_000_000 ==> secs % 60 == 59
}

/// The RFC 3339 text chrono writes for that instant (`DateTime::to_rfc3339`).
pub uninterp spec fn rfc3339_text(secs: i64, nanos: u32) -> Seq<char>;

/// The text chrono's `Display` writes for that instant, e.g. `2015-05-15 00:00:00 UTC`.
pub uninterp spec fn utc_display_text(secs: i64, nanos: u32) -> Seq<char>;

/// An instant in UTC: whole seconds since the Unix epoch and the nanoseconds since the
/// last whole second (above 999,999,999 only during a leap second).
/// Every value is one that chrono can represent.
#[derive(Clone, Copy, Debug, PartialEq, Eq, Structural)]
pub struct Timestamp {
    secs: i64,
    nanos: u32,
}

impl View for Timestamp {
    type V = (i64, u32);

    closed spec fn view(&self) -> (i64, u32) {
        (self.secs, self.nanos)
    }
}

/// Asks chrono whether it represents the instant (`DateTime::<Utc>::from_timestamp` is
/// `Some`); the contract restates chrono's range and leap-second checks.
#[verifier::external_body]
fn chrono_represents(secs: i64, nanos: u32) -> (r: bool)
    ensures
        r == chrono_accepts(secs, nanos),
{
    DateTime::<Utc>::from_timestamp(secs, nanos).is_some()
}

impl Timestamp {
    #[verifier::type_invariant]
    closed spec fn representable(self) -> bool {
        chrono_accepts(self.secs, self.nanos)
    }

    /// The instant with the given parts, if chrono can represent it.
    pub fn from_parts(secs: i64, nanos: u32) -> (r: Option<Timestamp>)
        ensures
            r is Some <==> chrono_accepts(secs, nanos),
            r matches Some(t) ==> t@ == (secs, nanos),
    {
        if chrono_represents(secs, nanos) {
            Some(Timestamp { secs, nanos })
        } else {
            None
        }
    }

    /// Whole seconds since the Unix epoch.
    pub fn secs(&self) -> (r: i64)
        ensures
            r == self@.0,
    {
        self.secs
    }

    /// Nanoseconds since the last whole second.
    pub fn nanos(&self) -> (r: u32)
        ensures
            r == self@.1,
    {
        self.nanos
    }

    /// The current instant, read from the system clock through `chrono::Utc::now`.
    /// Nothing is promised of which instant comes back. The value is built from
    /// `DateTime::timestamp` and `DateTime::timestamp_subsec_nanos`, which chrono documents
    /// to round-trip through `DateTime::from_timestamp`, so chrono represents it.
    #[verifier::external_body]
    pub(crate) fn now() -> (r: Timestamp) {
        let now = Utc::now();
        Timestamp { secs: now.timestamp(), nanos: now.timestamp_subsec_nanos() }
    }

    /// The RFC 3339 text of the instant, from chrono's `DateTime::to_rfc3339`.
    #[verifier::external_body]
    pub(crate) fn to_rfc3339(&self) -> (r: String)
        ensures
            r@ == rfc3339_text(self@.0, self@.1),
    {
        DateTime::<Utc>::from_timestamp(self.secs, self.nanos).map(|d| d.to_rfc3339()).unwrap_or_default()
    }

    /// The text chrono's `Display` for `DateTime<Utc>` writes for the instant.
    #[verifier::external_body]
    pub(crate) fn display_text(&self) -> (r: String)
        ensures
            r@ == utc_display_text(self@.0, self@.1),
    {
        DateTime::<Utc>::from_timestamp(self.secs, self.nanos).map(|d| d.to_string()).unwrap_or_default()
    }
}

} // verus!
