//! Calendar date and time of day, as the real-time clock holds them.
//!
//! Whether a date or a time of day exists is decided by `chrono`, whose
//! documented behaviour is stated over the spec functions of this module.
use vstd::prelude::*;

verus! {

/// The smallest year that `chrono::NaiveDate` accepts.
pub const MIN_YEAR: i32 = -262143;

/// The largest year that `chrono::NaiveDate` accepts.
pub const MAX_YEAR: i32 = 262142;

/// Leap years of the proleptic Gregorian calendar.
pub open spec fn is_leap_year(year: int) -> bool {
    year % 4 == 0 && (year % 100 != 0 || year % 400 == 0)
}

/// Number of days of `month` (1 to 12) in `year`.
pub open spec fn days_in_month(year: int, month: int) -> int {
    if month == 2 {
        if is_leap_year(year) { 29 } else { 28 }
    } else if month == 4 || month == 6 || month == 9 || month == 11 {
        30
    } else {
        31
    }
}

/// The calendar date `year`-`month`-`day` exists and lies in chrono's range of years.
pub open spec fn date_exists(year: int, month: int, day: int) -> bool {
    &&& MIN_YEAR <= year <= MAX_YEAR
    &&& 1 <= month <= 12
    &&& 1 <= day <= days_in_month(year, month)
}

/// `hour`:`minute`:`second` is a time of day (no leap second).
pub open spec fn time_exists(hour: int, minute: int, second: int) -> bool {
    0 <= hour < 24 && 0 <= minute < 60 && 0 <= second < 60
}

/// Calls `chrono::NaiveDate::from_ymd_opt`, which returns `None` for an
/// out-of-range year and for an invalid month or day, and keeps only whether
/// a date came back. The contract claims that this happens exactly for the
/// dates of the proleptic Gregorian calendar whose year lies between
/// chrono's `MIN_YEAR` and `MAX_YEAR` (`(i32::MIN >> 13) + 1` and
/// `(i32::MAX >> 13) - 1` in chrono's source).
#[verifier::external_body]
fn chrono_date_exists(year: i32, month: u32, day: u32) -> (r: bool)
    ensures
        r == date_exists(year as int, month as int, day as int),
{
    chrono::NaiveDate::from_ymd_opt(year, month, day).is_some()
}

/// Calls `chrono::NaiveTime::from_hms_opt` (what `NaiveDate::and_hms_opt`
/// calls before it joins date and time, which cannot fail), and keeps only
/// whether a time came back. The contract claims that this happens exactly
/// when the hour is below 24, the minute below 60 and the second below 60.
#[verifier::external_body]
fn chrono_time_exists(hour: u32, minute: u32, second: u32) -> (r: bool)
    ensures
        r == time_exists(hour as int, minute as int, second as int),
{
    chrono::NaiveTime::from_hms_opt(hour, minute, second).is_some()
}

/// The abstract value of a `DateTime`.
pub struct DateTimeView {
    pub year: int,
    pub month: int,
    pub day: int,
    pub hour: int,
    pub minute: int,
    pub second: int,
}

impl DateTimeView {
    /// A date that exists, at a time of day that exists.
    pub open spec fn is_valid(self) -> bool {
        date_exists(self.year, self.month, self.day) && time_exists(
            self.hour,
            self.minute,
            self.second,
        )
    }
}

/// A date and a time of day to the second, with no time zone.
#[derive(Clone, Copy, Debug, PartialEq, Eq)]
pub struct DateTime {
    year: i32,
    month: u32,
    day: u32,
    hour: u32,
    minute: u32,
    second: u32,
}

impl View for DateTime {
    type V = DateTimeView;

    closed spec fn view(&self) -> DateTimeView {
        DateTimeView {
            year: self.year as int,
            month: self.month as int,
            day: self.day as int,
            hour: self.hour as int,
            minute: self.minute as int,
            second: self.second as int,
        }
    }
}

impl DateTime {
    #[verifier::type_invariant]
    spec fn names_real_moment(self) -> bool {
        self@.is_valid()
    }

    /// The date and time with the given fields, or `None` where the date or
    /// the time of day does not exist.
    pub fn from_ymd_hms(year: i32, month: u32, day: u32, hour: u32, minute: u32, second: u32) -> (r:
        Option<DateTime>)
        ensures
            r is Some <==> date_exists(year as int, month as int, day as int) && time_exists(
                hour as int,
                minute as int,
                second as int,
            ),
            r matches Some(t) ==> t@ == (DateTimeView {
                year: year as int,
                month: month as int,
                day: day as int,
                hour: hour as int,
                minute: minute as int,
                second: second as int,
            }),
    {
        if chrono_date_exists(year, month, day) && chrono_time_exists(hour, minute, second) {
            Some(DateTime { year, month, day, hour, minute, second })
        } else {
            None
        }
    }

    /// The year (proleptic Gregorian, may be zero or negative).
    pub fn year(&self) -> (r: i32)
        ensures
            r == self@.year,
            self@.is_valid(),
            MIN_YEAR <= r <= MAX_YEAR,
    {
        proof {
            use_type_invariant(self);
        }
        self.year
    }

    /// The month, 1 to 12.
    pub fn month(&self) -> (r: u32)
        ensures
            r == self@.month,
            self@.is_valid(),
            1 <= r <= 12,
    {
        proof {
            use_type_invariant(self);
        }
        self.month
    }

    /// The day of the month, from 1.
    pub fn day(&self) -> (r: u32)
        ensures
            r == self@.day,
            self@.is_valid(),
            1 <= r <= 31,
    {
        proof {
            use_type_invariant(self);
        }
        self.day
    }

    /// The hour, 0 to 23.
    pub fn hour(&self) -> (r: u32)
        ensures
            r == self@.hour,
            self@.is_valid(),
            r < 24,
    {
        proof {
            use_type_invariant(self);
        }
        self.hour
    }

    /// The minute, 0 to 59.
    pub fn minute(&self) -> (r: u32)
        ensures
            r == self@.minute,
            self@.is_valid(),
            r < 60,
    {
        proof {
            use_type_invariant(self);
        }
        self.minute
    }

    /// The second, 0 to 59.
    pub fn second(&self) -> (r: u32)
        ensures
            r == self@.second,
            self@.is_valid(),
            r < 60,
    {
        proof {
            use_type_invariant(self);
        }
        self.second
    }
}

} // verus!
