//! Points on the UTC calendar.

use vstd::prelude::*;

verus! {

/// The first second of the year -262143.
pub const FIRST_SECOND: i64 = -8_334_601_228_800;

/// The last second of the year 262142.
pub const LAST_SECOND: i64 = 8_210_266_876_799;

/// Whether so many seconds and nanoseconds after the start of 1970 are a point
/// on the calendar. A leap second is counted as a second whole second of
/// nanoseconds in the last second of a minute.
pub open spec fn on_calendar(seconds: i64, nanoseconds: u32) -> bool {
    &&& FIRST_SECOND <= seconds <= LAST_SECOND
    &&& nanoseconds < 1_000_000_000 || (nanoseconds < 2_000_000_000 && (seconds as int) % 60 == 59)
}

/// What `chrono::DateTime::to_rfc3339` writes for a point on the UTC calendar.
pub uninterp spec fn rfc3339_text(seconds: i64, nanoseconds: u32) -> Seq<char>;

/// `chrono::DateTime::<Utc>::to_rfc3339`, on the point that
/// `chrono::DateTime::from_timestamp` makes of the two numbers; it makes one
/// exactly of the numbers that are on the calendar.
#[verifier::external_body]
fn write_rfc3339(seconds: i64, nanoseconds: u32) -> (r: String)
    requires
        on_calendar(seconds, nanoseconds),
    ensures
        r@ == rfc3339_text(seconds, nanoseconds),
{
    chrono::DateTime::<chrono::Utc>::from_timestamp(seconds, nanoseconds).unwrap().to_rfc3339()
}

/// A point on the UTC calendar.
#[derive(Clone, Copy, Debug)]
pub struct Timestamp {
    seconds: i64,
    nanoseconds: u32,
}

impl Timestamp {
    #[verifier::type_invariant]
    spec fn well_formed(self) -> bool {
        on_calendar(self.seconds, self.nanoseconds)
    }

    /// Whole seconds since the start of 1970.
    pub closed spec fn seconds_part(self) -> i64 {
        self.seconds
    }

    /// Nanoseconds since the last whole second.
    pub closed spec fn nanoseconds_part(self) -> u32 {
        self.nanoseconds
    }

    /// How the point is written in the notation of RFC 3339.
    pub open spec fn notation(self) -> Seq<char> {
        rfc3339_text(self.seconds_part(), self.nanoseconds_part())
    }

    /// The point so many seconds and nanoseconds after the start of 1970.
    pub fn new(seconds: i64, nanoseconds: u32) -> (r: Option<Timestamp>)
        ensures
            r is Some <==> on_calendar(seconds, nanoseconds),
            r matches Some(t) ==> t.seconds_part() == seconds && t.nanoseconds_part()
                == nanoseconds,
    {
        let leap: bool = seconds >= 0 && seconds % 60 == 59 || seconds < 0 && (seconds + 1) % 60
            == 0;
        proof {
            if seconds < 0 {
                assert(leap == (seconds as int % 60 == 59));
            }
        }
        if FIRST_SECOND <= seconds && seconds <= LAST_SECOND && (nanoseconds < 1_000_000_000
            || nanoseconds < 2_000_000_000 && leap) {
            Some(Timestamp { seconds, nanoseconds })
        } else {
            None
        }
    }

    /// The point in the notation of RFC 3339.
    pub fn to_rfc3339(&self) -> (r: String)
        ensures
            r@ == self.notation(),
    {
        proof {
            use_type_invariant(self);
        }
        write_rfc3339(self.seconds, self.nanoseconds)
    }
}

/// Every second from the first of the year -262143 to the last of the year
/// 262142 has its nanoseconds, and the last of each minute a leap second; no
/// other numbers are points on the calendar.
pub proof fn every_second_of_the_calendar_has_its_points(seconds: i64, nanoseconds: u32)
    ensures
        on_calendar(seconds, nanoseconds) <==> -8334601228800 <= seconds <= 8210266876799 && (
        nanoseconds < 1000000000 || (nanoseconds < 2000000000 && (seconds as int) % 60 == 59)),
{
}

} // verus!
