//! Points in time.

use vstd::prelude::*;

verus! {

/// A point in time: seconds and nanoseconds since the beginning of 1970, UTC.
#[derive(Debug, Clone, Copy, PartialEq, Eq, Structural)]
pub struct Timestamp {
    pub secs: i64,
    pub nanos: u32,
}

impl Timestamp {
    /// Whether the calendar reaches this point: from the beginning of the year
    /// -262143 to the end of the year 262142.
    pub open spec fn in_calendar(&self) -> bool {
        -8_334_601_228_800 <= self.secs <= 8_210_266_876_799 && self.nanos < 1_000_000_000
    }

    /// Whether the calendar reaches this point.
    pub fn is_in_calendar(&self) -> (r: bool)
        ensures
            r == self.in_calendar(),
    {
        -8_334_601_228_800 <= self.secs && self.secs <= 8_210_266_876_799 && self.nanos
            < 1_000_000_000
    }

    /// Nanoseconds since the beginning of 1970.
    pub open spec fn total(&self) -> int {
        self.secs * 1_000_000_000 + self.nanos
    }

    /// Whether this point is no later than `other`.
    pub open spec fn no_later(&self, other: Timestamp) -> bool {
        self.secs < other.secs || (self.secs == other.secs && self.nanos <= other.nanos)
    }

    /// Whether this point is no later than `other`.
    pub fn at_most(&self, other: &Timestamp) -> (r: bool)
        ensures
            r == self.no_later(*other),
    {
        self.secs < other.secs || (self.secs == other.secs && self.nanos <= other.nanos)
    }
}

/// A point in time as `chrono` writes it by the rules of RFC 3339.
pub uninterp spec fn rfc3339_text(secs: i64, nanos: u32) -> Seq<char>;

/// `chrono::DateTime::<Utc>::to_rfc3339`, on the point that
/// `from_timestamp` makes of the two numbers: the text depends on them alone.
#[verifier::external_body]
pub(crate) fn rfc3339(t: Timestamp) -> (r: String)
    requires
        t.in_calendar(),
    ensures
        r@ == rfc3339_text(t.secs, t.nanos),
{
    chrono::DateTime::<chrono::Utc>::from_timestamp(t.secs, t.nanos)
        .map(|d| d.to_rfc3339())
        .unwrap_or_default()
}

/// One time is no later than another where it is no more nanoseconds on.
pub proof fn law_times_go_by_their_length(a: Timestamp, b: Timestamp)
    requires
        a.in_calendar(),
        b.in_calendar(),
    ensures
        a.no_later(b) <==> a.total() <= b.total(),
        a.no_later(b) && b.no_later(a) ==> a == b,
        a.no_later(b) || b.no_later(a),
{
}

} // verus!
