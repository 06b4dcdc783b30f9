//! Reference datetimes: the issue time of a forecast run, to the hour, in UTC.
use vstd::prelude::*;

verus! {

#[verifier::external_type_specification]
#[verifier::external_body]
pub struct ExNaiveDate(chrono::NaiveDate);

/// Relies on `chrono::NaiveDate::from_ymd_opt`: within chrono's range of years it gives a
/// date exactly for a day of the proleptic Gregorian calendar.
pub assume_specification[ chrono::NaiveDate::from_ymd_opt ](year: i32, month: u32, day: u32) -> (r:
    Option<chrono::NaiveDate>)
    ensures
        -262143 <= year <= 262142 ==> (r is Some <==> is_calendar_date(
            year as int,
            month as int,
            day as int,
        )),
;

/// Whether `year` is a leap year of the Gregorian calendar.
pub open spec fn is_leap_year(year: int) -> bool {
    year % 4 == 0 && (year % 100 != 0 || year % 400 == 0)
}

/// The number of days of `month` (1 to 12) in `year`.
pub open spec fn days_in_month(year: int, month: int) -> int {
    if month == 2 {
        if is_leap_year(year) {
            29
        } else {
            28
        }
    } else if month == 4 || month == 6 || month == 9 || month == 11 {
        30
    } else {
        31
    }
}

/// Whether `year`-`month`-`day` is a day of the Gregorian calendar.
pub open spec fn is_calendar_date(year: int, month: int, day: int) -> bool {
    1 <= month <= 12 && 1 <= day <= days_in_month(year, month)
}

/// A reference datetime, to the hour, in UTC. Years have four digits.
#[derive(Clone, Copy, Debug, PartialEq, Eq, Structural, Hash)]
pub struct ReferenceDatetime {
    pub year: u16,
    pub month: u8,
    pub day: u8,
    pub hour: u8,
}

impl ReferenceDatetime {
    /// A real day of the calendar and an hour of the day.
    pub open spec fn wf(self) -> bool {
        &&& self.year <= 9999
        &&& is_calendar_date(self.year as int, self.month as int, self.day as int)
        &&& self.hour < 24
    }

    /// The datetime as one integer, `YYYYMMDDHH`, which orders datetimes in time.
    pub open spec fn spec_key(self) -> int {
        self.year as int * 1000000 + self.month as int * 10000 + self.day as int * 100
            + self.hour as int
    }

    /// The datetime of `year`-`month`-`day`T`hour`, if that is a real day and hour with a
    /// four-digit year.
    pub fn new(year: u16, month: u8, day: u8, hour: u8) -> (r: Option<Self>)
        ensures
            r matches Some(dt) ==> dt == (ReferenceDatetime { year, month, day, hour }),
            r is Some <==> (ReferenceDatetime { year, month, day, hour }).wf(),
    {
        if year > 9999 || hour >= 24 {
            return None;
        }
        if chrono::NaiveDate::from_ymd_opt(year as i32, month as u32, day as u32).is_none() {
            return None;
        }
        Some(ReferenceDatetime { year, month, day, hour })
    }

    /// The datetime as one integer, `YYYYMMDDHH`.
    pub fn key(&self) -> (r: u64)
        ensures
            r == self.spec_key(),
    {
        self.year as u64 * 1000000 + self.month as u64 * 10000 + self.day as u64 * 100
            + self.hour as u64
    }
}

/// For well-formed datetimes the key is one-to-one.
pub proof fn lemma_key_injective(a: ReferenceDatetime, b: ReferenceDatetime)
    requires
        a.wf(),
        b.wf(),
        a.spec_key() == b.spec_key(),
    ensures
        a == b,
{
    assert(a.year == b.year && a.month == b.month && a.day == b.day && a.hour == b.hour)
        by (nonlinear_arith)
        requires
            a.month < 100,
            a.day < 100,
            a.hour < 100,
            b.month < 100,
            b.day < 100,
            b.hour < 100,
            a.year as int * 1000000 + a.month as int * 10000 + a.day as int * 100 + a.hour as int
                == b.year as int * 1000000 + b.month as int * 10000 + b.day as int * 100
                + b.hour as int,
    ;
}

} // verus!
