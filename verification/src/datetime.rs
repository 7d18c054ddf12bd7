//! Civil date-time values at second precision, without a time zone.
//!
//! Timestamps in the usage report are local civil times.  The accounting
//! rules only need to compare instants, take differences in whole minutes,
//! and know the minute of the day and the day of the week, so a date-time
//! is modelled as its six civil fields together with arithmetic that maps
//! it to a day index and a second index on the proleptic Gregorian
//! calendar.

use vstd::prelude::*;

verus! {

/// A civil date and time of day: `year-month-day hour:minute:second`,
/// local time, no time zone.
#[derive(Clone, Copy, Debug)]
pub struct DateTime {
    pub year: u32,
    pub month: u32,
    pub day: u32,
    pub hour: u32,
    pub minute: u32,
    pub second: u32,
}

/// A leap year of the proleptic Gregorian calendar.
pub open spec fn is_leap_year(y: int) -> bool {
    y % 4 == 0 && (y % 100 != 0 || y % 400 == 0)
}

/// Number of days in the given month of the given year.
pub open spec fn days_in_month(y: int, m: int) -> int {
    if m == 2 {
        if is_leap_year(y) {
            29
        } else {
            28
        }
    } else if m == 4 || m == 6 || m == 9 || m == 11 {
        30
    } else {
        31
    }
}

impl DateTime {
    /// A well-formed value: a real calendar date of years 0 through 9999
    /// and a real time of day.
    pub open spec fn wf(self) -> bool {
        self.year <= 9999 && 1 <= self.month <= 12 && 1 <= self.day
            && self.day <= days_in_month(self.year as int, self.month as int) && self.hour < 24
            && self.minute < 60 && self.second < 60
    }
}

/// Leap years among years `0, 1, ..., y - 1`.
pub open spec fn leap_years_before(y: int) -> int {
    (y + 3) / 4 - (y + 99) / 100 + (y + 399) / 400
}

/// Days in all years before year `y`, counting from year 0.
pub open spec fn days_before_year(y: int) -> int {
    365 * y + leap_years_before(y)
}

/// Days in the months of year `y` that precede month `m`.
pub open spec fn days_before_month(y: int, m: int) -> int {
    let plain: int = if m == 1 {
        0
    } else if m == 2 {
        31
    } else if m == 3 {
        59
    } else if m == 4 {
        90
    } else if m == 5 {
        120
    } else if m == 6 {
        151
    } else if m == 7 {
        181
    } else if m == 8 {
        212
    } else if m == 9 {
        243
    } else if m == 10 {
        273
    } else if m == 11 {
        304
    } else {
        334
    };
    if m > 2 && is_leap_year(y) {
        plain + 1
    } else {
        plain
    }
}

/// Index of the date's day, counting day 0 as January 1 of year 0.
pub open spec fn day_index(dt: DateTime) -> int {
    days_before_year(dt.year as int) + days_before_month(dt.year as int, dt.month as int) + (
    dt.day as int - 1)
}

/// Seconds elapsed from the start of day 0 to the instant.
pub open spec fn total_seconds(dt: DateTime) -> int {
    day_index(dt) * 86400 + dt.hour * 3600 + dt.minute * 60 + dt.second
}

/// Minutes since local midnight, seconds truncated away.
pub open spec fn minute_of_day(dt: DateTime) -> int {
    dt.hour * 60 + dt.minute
}

/// Day of the week as an index with Monday = 0 ... Sunday = 6.
pub open spec fn weekday_from_monday(dt: DateTime) -> int {
    (day_index(dt) + 5) % 7
}

/// Minutes since the start of the week (Monday 00:00).
pub open spec fn week_minutes(dt: DateTime) -> int {
    weekday_from_monday(dt) * 1440 + minute_of_day(dt)
}

impl DateTime {
    /// Day index of the date part, executable form.
    pub fn day_index_exec(&self) -> (r: u32)
        requires
            self.wf(),
        ensures
            r == day_index(*self),
    {
        let y = self.year;
        let leaps = (y + 3) / 4 - (y + 99) / 100 + (y + 399) / 400;
        let before_month: u32 = match self.month {
            1 => 0,
            2 => 31,
            3 => 59,
            4 => 90,
            5 => 120,
            6 => 151,
            7 => 181,
            8 => 212,
            9 => 243,
            10 => 273,
            11 => 304,
            _ => 334,
        };
        let leap_shift: u32 = if self.month > 2 && (y % 4 == 0 && (y % 100 != 0 || y % 400 == 0)) {
            1
        } else {
            0
        };
        365 * y + leaps + before_month + leap_shift + (self.day - 1)
    }

    /// Seconds from the start of day 0, executable form.
    pub fn total_seconds_exec(&self) -> (r: u64)
        requires
            self.wf(),
        ensures
            r == total_seconds(*self),
    {
        self.day_index_exec() as u64 * 86400 + self.hour as u64 * 3600 + self.minute as u64 * 60
            + self.second as u64
    }

    /// Whether the value is a well-formed date and time, executable form.
    pub fn valid(&self) -> (r: bool)
        ensures
            r == self.wf(),
    {
        let dim: u32 = if self.month == 2 {
            if self.year % 4 == 0 && (self.year % 100 != 0 || self.year % 400 == 0) {
                29
            } else {
                28
            }
        } else if self.month == 4 || self.month == 6 || self.month == 9 || self.month == 11 {
            30
        } else {
            31
        };
        self.year <= 9999 && 1 <= self.month && self.month <= 12 && 1 <= self.day && self.day
            <= dim && self.hour < 24 && self.minute < 60 && self.second < 60
    }

    /// Minutes since local midnight, executable form.
    pub fn minute_of_day_exec(&self) -> (r: u32)
        requires
            self.wf(),
        ensures
            r == minute_of_day(*self),
    {
        self.hour * 60 + self.minute
    }

    /// Minutes since the start of the week, executable form.
    pub fn week_minutes_exec(&self) -> (r: u32)
        requires
            self.wf(),
        ensures
            r == week_minutes(*self),
    {
        let wd = (self.day_index_exec() + 5) % 7;
        wd * 1440 + self.hour * 60 + self.minute
    }
}

} // verus!
