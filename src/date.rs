use vstd::prelude::*;
use chrono::Datelike;

verus! {

/// A point in time with a fixed offset from UTC, held as plain values: the
/// instant (`secs` since the Unix epoch and `nanos`, which exceed a second
/// only during a leap second), the offset in seconds east of UTC, and the
/// calendar date that the instant falls on at that offset.
#[derive(Clone, Copy, Debug, PartialEq, Eq, Structural)]
pub struct Timestamp {
    pub secs: i64,
    pub nanos: u32,
    pub offset: i32,
    pub year: i32,
    pub month: u32,
    pub day: u32,
}

/// The range of instants, in seconds from the epoch, that always lie
/// within the calendar's representable dates.
pub open spec fn instant_in_range(secs: int, nanos: int) -> bool {
    -8_000_000_000_000 <= secs <= 8_000_000_000_000 && 0 <= nanos < 1_000_000_000
}

/// `a` is at the same instant as `b` or later; the offset plays no part.
pub open spec fn not_before(a: Timestamp, b: Timestamp) -> bool {
    a.secs > b.secs || (a.secs == b.secs && a.nanos >= b.nanos)
}

/// The calendar date (year, month, day) of an instant, seen at a fixed offset.
pub uninterp spec fn civil_date_of(secs: int, nanos: int, offset: int) -> (int, int, int);

/// Relies on chrono: `FixedOffset::east_opt` (an offset strictly within one
/// day), `DateTime::from_timestamp` (an instant whose day lies between
/// `NaiveDate::MIN` and `MAX`, with nanoseconds below one second outside a
/// leap second), then `DateTime::with_timezone` and the `Datelike`
/// accessors for the local date.
#[verifier::external_body]
fn civil_date(secs: i64, nanos: u32, offset: i32) -> (r: Option<(i32, u32, u32)>)
    ensures
        offset <= -86400 || offset >= 86400 ==> r is None,
        -86400 < offset < 86400 && instant_in_range(secs as int, nanos as int) ==> r is Some,
        r matches Some(d) ==> (d.0 as int, d.1 as int, d.2 as int) == civil_date_of(
            secs as int,
            nanos as int,
            offset as int,
        ) && 1 <= d.1 <= 12 && 1 <= d.2 <= 31,
{
    let off = chrono::FixedOffset::east_opt(offset)?;
    let local = chrono::DateTime::from_timestamp(secs, nanos)?.with_timezone(&off);
    Some((local.year(), local.month(), local.day()))
}

impl Timestamp {
    /// The date fields are the calendar date of the instant at the offset,
    /// and the offset lies strictly within one day.
    pub open spec fn wf(&self) -> bool {
        &&& -86400 < self.offset < 86400
        &&& (self.year as int, self.month as int, self.day as int) == civil_date_of(
            self.secs as int,
            self.nanos as int,
            self.offset as int,
        )
        &&& 1 <= self.month <= 12
        &&& 1 <= self.day <= 31
    }

    /// The timestamp of an instant at a fixed offset, with its calendar date;
    /// `None` where the offset is a day or more; always `Some` for an offset
    /// within a day and an instant in `instant_in_range`.
    pub fn from_instant(secs: i64, nanos: u32, offset: i32) -> (r: Option<Timestamp>)
        ensures
            offset <= -86400 || offset >= 86400 ==> r is None,
            -86400 < offset < 86400 && instant_in_range(secs as int, nanos as int) ==> r is Some,
            r matches Some(t) ==> t.secs == secs && t.nanos == nanos && t.offset == offset && t.wf(),
    {
        match civil_date(secs, nanos, offset) {
            Some(d) => Some(Timestamp { secs, nanos, offset, year: d.0, month: d.1, day: d.2 }),
            None => None,
        }
    }

    /// Whether `self` is at the same instant as `other` or later.
    pub fn is_not_before(&self, other: &Timestamp) -> (r: bool)
        ensures
            r == not_before(*self, *other),
    {
        self.secs > other.secs || (self.secs == other.secs && self.nanos >= other.nanos)
    }
}

} // verus!
