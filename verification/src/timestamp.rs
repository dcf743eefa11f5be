//! Points in time.

use vstd::prelude::*;

verus! {

/// A point in time: seconds since the beginning of 1970 in UTC, and nanoseconds
/// within the second.
#[derive(Clone, Copy, Debug, PartialEq, Eq, Structural)]
pub struct Timestamp {
    pub secs: i64,
    pub nanos: u32,
}

/// The first second of the calendar, in the year -262143.
pub const FIRST_SECOND: i64 = -8334601228800;

/// The last second of the calendar, in the year 262142.
pub const LAST_SECOND: i64 = 8210266876799;

impl Timestamp {
    /// Whether the calendar has a date for this point.
    pub open spec fn in_calendar(self) -> bool {
        &&& FIRST_SECOND <= self.secs <= LAST_SECOND
        &&& self.nanos < 1_000_000_000
    }

    /// Whether this point is not before `other`.
    pub open spec fn reached(self, other: Timestamp) -> bool {
        self.secs > other.secs || (self.secs == other.secs && self.nanos >= other.nanos)
    }

    /// Whether the calendar has a date for this point.
    pub fn has_date(&self) -> (r: bool)
        ensures
            r == self.in_calendar(),
    {
        FIRST_SECOND <= self.secs && self.secs <= LAST_SECOND && self.nanos < 1_000_000_000
    }

    /// Whether this point is not before `other`.
    pub fn is_at_or_after(&self, other: &Timestamp) -> (r: bool)
        ensures
            r == self.reached(*other),
    {
        self.secs > other.secs || (self.secs == other.secs && self.nanos >= other.nanos)
    }
}

/// The date and time of a point as RFC 3339 text in UTC.
pub uninterp spec fn rfc3339(secs: i64, nanos: u32) -> Seq<char>;

/// `chrono::DateTime::from_timestamp` and its `to_rfc3339`: a text that is a
/// function of the point. The first has a date for every point of the calendar.
#[verifier::external_body]
fn chrono_rfc3339(secs: i64, nanos: u32) -> (r: String)
    requires
        FIRST_SECOND <= secs <= LAST_SECOND,
        nanos < 1_000_000_000,
    ensures
        r@ == rfc3339(secs, nanos),
{
    chrono::DateTime::from_timestamp(secs, nanos).unwrap().to_rfc3339()
}

/// The point as RFC 3339 text.
pub fn format_system_time(time: Timestamp) -> (r: String)
    requires
        time.in_calendar(),
    ensures
        r@ == rfc3339(time.secs, time.nanos),
{
    chrono_rfc3339(time.secs, time.nanos)
}

/// Points in time are in order: of two points one is reached at the other, both only
/// where they are the same, and a moment later is still reached.
pub proof fn law_points_are_in_order(a: Timestamp, b: Timestamp, c: Timestamp)
    ensures
        a.reached(b) || b.reached(a),
        a.reached(b) && b.reached(a) ==> a == b,
        a.reached(b) && b.reached(c) ==> a.reached(c),
        a.secs < b.secs ==> !a.reached(b),
        a.secs == b.secs && a.nanos < b.nanos ==> !a.reached(b),
{
}

} // verus!
