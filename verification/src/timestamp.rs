//! Calendar timestamps as the PLC's TIMESTRUCT carries them, validated by chrono.
use chrono::{NaiveDate, NaiveDateTime};
use vstd::prelude::*;

verus! {

#[verifier::external_type_specification]
#[verifier::external_body]
pub struct ExNaiveDate(NaiveDate);

#[verifier::external_type_specification]
#[verifier::external_body]
pub struct ExNaiveDateTime(NaiveDateTime);

/// Whether `y` is a leap year of the proleptic Gregorian calendar.
pub open spec fn is_leap_year(y: int) -> bool {
    y % 4 == 0 && (y % 100 != 0 || y % 400 == 0)
}

/// The number of days of month `m` (1 to 12) of year `y`.
pub open spec fn days_in_month(y: int, m: int) -> int {
    if m == 2 {
        if is_leap_year(y) {
            29
        } else {
            28
        }
    } else if m == 4 || m == 6 || m == 9 || m == 11 {
        30
    } else {
        31
    }
}

/// The calendar dates that chrono's `NaiveDate` can hold.
pub open spec fn valid_date(y: int, m: int, d: int) -> bool {
    &&& -262143 <= y <= 262142
    &&& 1 <= m <= 12
    &&& 1 <= d <= days_in_month(y, m)
}

/// The times of day (with milliseconds) that chrono accepts: the
/// millisecond may pass 999 only to express a leap second, at second 59.
pub open spec fn valid_time_milli(h: int, mi: int, s: int, ms: int) -> bool {
    &&& 0 <= h < 24
    &&& 0 <= mi < 60
    &&& 0 <= s < 60
    &&& 0 <= ms
    &&& (ms < 1000 || (s == 59 && ms < 2000))
}

/// `NaiveDate::from_ymd_opt`: the date exists exactly when the calendar has it
/// and the year is within chrono's range (its documentation: `None` for a day
/// that does not exist, an invalid month or day, a year out of range).
#[verifier::external_body]
fn naive_date_from_ymd_opt(year: i32, month: u32, day: u32) -> (r: Option<NaiveDate>)
    ensures
        r is Some <==> valid_date(year as int, month as int, day as int),
{
    NaiveDate::from_ymd_opt(year, month, day)
}

/// `NaiveDate::and_hms_milli_opt`: the date-time exists exactly when the time
/// of day is valid (its documentation: `None` on an invalid hour, minute,
/// second or millisecond, the millisecond passing 999 only at second 59).
#[verifier::external_body]
fn naive_date_and_hms_milli_opt(
    date: &NaiveDate,
    hour: u32,
    min: u32,
    sec: u32,
    milli: u32,
) -> (r: Option<NaiveDateTime>)
    ensures
        r is Some <==> valid_time_milli(hour as int, min as int, sec as int, milli as int),
{
    date.and_hms_milli_opt(hour, min, sec, milli)
}

/// The parts of a timestamp, as seven 16-bit words of a TIMESTRUCT.
pub struct TimestampParts {
    pub year: u16,
    pub month: u16,
    pub day: u16,
    pub hour: u16,
    pub minute: u16,
    pub second: u16,
    pub millisecond: u16,
}

/// Whether the parts name an existing UTC date-time.
pub open spec fn valid_parts(p: TimestampParts) -> bool {
    valid_date(p.year as int, p.month as int, p.day as int) && valid_time_milli(
        p.hour as int,
        p.minute as int,
        p.second as int,
        p.millisecond as int,
    )
}

/// A UTC date-time with millisecond precision, as read from a PLC.
#[derive(Clone, Copy, Debug, PartialEq, Eq)]
pub struct Timestamp {
    year: u16,
    month: u16,
    day: u16,
    hour: u16,
    minute: u16,
    second: u16,
    millisecond: u16,
}

impl Timestamp {
    #[verifier::type_invariant]
    spec fn inv(self) -> bool {
        valid_parts(self.parts())
    }

    /// The parts this timestamp was made from.
    pub closed spec fn parts(self) -> TimestampParts {
        TimestampParts {
            year: self.year,
            month: self.month,
            day: self.day,
            hour: self.hour,
            minute: self.minute,
            second: self.second,
            millisecond: self.millisecond,
        }
    }

    /// The timestamp with the given parts, or `None` when chrono rejects the
    /// date or the time of day.
    pub fn from_parts(
        year: u16,
        month: u16,
        day: u16,
        hour: u16,
        minute: u16,
        second: u16,
        millisecond: u16,
    ) -> (r: Option<Timestamp>)
        ensures
            r is Some <==> valid_parts(
                TimestampParts { year, month, day, hour, minute, second, millisecond },
            ),
            r matches Some(t) ==> t.parts() == (TimestampParts {
                year,
                month,
                day,
                hour,
                minute,
                second,
                millisecond,
            }),
    {
        match naive_date_from_ymd_opt(year as i32, month as u32, day as u32) {
            Some(date) => match naive_date_and_hms_milli_opt(
                &date,
                hour as u32,
                minute as u32,
                second as u32,
                millisecond as u32,
            ) {
                Some(_datetime) => Some(
                    Timestamp { year, month, day, hour, minute, second, millisecond },
                ),
                None => None,
            },
            None => None,
        }
    }

    pub fn year(&self) -> (r: u16)
        ensures
            r == self.parts().year,
    {
        self.year
    }

    pub fn month(&self) -> (r: u16)
        ensures
            r == self.parts().month,
    {
        self.month
    }

    pub fn day(&self) -> (r: u16)
        ensures
            r == self.parts().day,
    {
        self.day
    }

    pub fn hour(&self) -> (r: u16)
        ensures
            r == self.parts().hour,
    {
        self.hour
    }

    pub fn minute(&self) -> (r: u16)
        ensures
            r == self.parts().minute,
    {
        self.minute
    }

    pub fn second(&self) -> (r: u16)
        ensures
            r == self.parts().second,
    {
        self.second
    }

    pub fn millisecond(&self) -> (r: u16)
        ensures
            r == self.parts().millisecond,
    {
        self.millisecond
    }
}

/// A timestamp is determined by its parts, and every set of parts is that of
/// some timestamp value.
pub proof fn lemma_parts_determine(a: Timestamp, b: Timestamp, p: TimestampParts)
    ensures
        a.parts() == b.parts() ==> a == b,
        exists|t: Timestamp| t.parts() == p,
{
    let t = Timestamp {
        year: p.year,
        month: p.month,
        day: p.day,
        hour: p.hour,
        minute: p.minute,
        second: p.second,
        millisecond: p.millisecond,
    };
    assert(t.parts() == p);
}

} // verus!
