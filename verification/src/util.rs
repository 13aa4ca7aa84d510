//! The times of MS-DOS, as parts of a calendar.
use vstd::prelude::*;

use crate::types::{is_day, is_time_of_day, CivilDateTime};

verus! {

/// A time, in parts: months count from zero, and years from 1900.
#[derive(Clone, Copy, Debug, PartialEq, Eq, Structural)]
pub struct Tm {
    pub tm_sec: i32,
    pub tm_min: i32,
    pub tm_hour: i32,
    pub tm_mday: i32,
    pub tm_mon: i32,
    pub tm_year: i32,
}

/// Whether a year, counted from 1900, is a leap year.
pub open spec fn is_leap(year: int) -> bool {
    let y = year + 1900;
    y % 4 == 0 && (y % 100 != 0 || y % 400 == 0)
}

/// How many days a month has.
pub open spec fn days_in_month(year: int, month: int) -> int {
    if month == 1 {
        if is_leap(year) {
            29
        } else {
            28
        }
    } else if month == 3 || month == 5 || month == 8 || month == 10 {
        30
    } else {
        31
    }
}

/// How many days come before a month of a year, counted from the start of 1900.
pub open spec fn days_before(year: int, month: int) -> int
    decreases year, month,
{
    if year < 0 || month < 0 || month > 12 {
        0
    } else if month > 0 {
        days_before(year, month - 1) + days_in_month(year, month - 1)
    } else if year > 0 {
        days_before(year - 1, 12)
    } else {
        0
    }
}

impl Tm {
    /// Whether there is such a time.
    pub open spec fn valid(self) -> bool {
        &&& 0 <= self.tm_sec < 60
        &&& 0 <= self.tm_min < 60
        &&& 0 <= self.tm_hour < 24
        &&& 0 <= self.tm_mon < 12
        &&& 1 <= self.tm_mday <= days_in_month(self.tm_year as int, self.tm_mon as int)
    }

    /// This with its month among those of a year.
    pub open spec fn in_year(self) -> Tm {
        if self.tm_mon < 0 {
            Tm { tm_mon: (self.tm_mon + 12) as i32, tm_year: (self.tm_year - 1) as i32, ..self }
        } else if self.tm_mon >= 12 {
            Tm { tm_mon: (self.tm_mon - 12) as i32, tm_year: (self.tm_year + 1) as i32, ..self }
        } else {
            self
        }
    }

    /// How many seconds this is after the start of 1900. What does not fit into a
    /// part goes over into the next one.
    pub open spec fn seconds(self) -> int {
        let t = self.in_year();
        (((days_before(t.tm_year as int, t.tm_mon as int) + t.tm_mday - 1) * 24 + t.tm_hour) * 60
            + t.tm_min) * 60 + t.tm_sec
    }
}

/// The parts of a time of MS-DOS, as they are.
pub open spec fn dos_parts(time: u16, date: u16) -> Tm {
    Tm {
        tm_sec: (2 * (time % 32)) as i32,
        tm_min: (time / 32 % 64) as i32,
        tm_hour: (time / 2048) as i32,
        tm_mday: (date % 32) as i32,
        tm_mon: (date / 32 % 16 - 1) as i32,
        tm_year: (date / 512 + 80) as i32,
    }
}

/// A month comes right after the one before it, and a year after the year before
/// it.
proof fn months_follow(year: int, month: int)
    requires
        0 <= year,
        0 <= month < 12,
    ensures
        days_before(year, month + 1) == days_before(year, month) + days_in_month(year, month),
        days_before(year + 1, 0) == days_before(year, 12),
{
}

/// A later month starts no earlier than an earlier one ends.
proof fn months_in_order(year: int, month: int, year2: int, month2: int)
    requires
        0 <= year,
        0 <= month < 12,
        0 <= month2 < 12,
        year < year2 || (year == year2 && month < month2),
    ensures
        days_before(year, month) + days_in_month(year, month) <= days_before(year2, month2),
    decreases year2, month2,
{
    months_follow(year, month);
    if month2 > 0 {
        months_follow(year2, month2 - 1);
        if !(year == year2 && month == month2 - 1) {
            months_in_order(year, month, year2, month2 - 1);
        }
    } else {
        months_follow(year2 - 1, 11);
        if !(year == year2 - 1 && month == 11) {
            months_in_order(year, month, year2 - 1, 11);
        }
    }
}

/// Two times that there are, and that are as far from the start of 1900, are the
/// same.
pub proof fn seconds_tell_times_apart(a: Tm, b: Tm)
    requires
        a.valid(),
        b.valid(),
        0 <= a.tm_year,
        0 <= b.tm_year,
        a.seconds() == b.seconds(),
    ensures
        a == b,
{
    let day_a = days_before(a.tm_year as int, a.tm_mon as int) + a.tm_mday - 1;
    let day_b = days_before(b.tm_year as int, b.tm_mon as int) + b.tm_mday - 1;
    assert(day_a == day_b && a.tm_hour == b.tm_hour && a.tm_min == b.tm_min && a.tm_sec
        == b.tm_sec);
    let (ya, ma, yb, mb) = (
        a.tm_year as int,
        a.tm_mon as int,
        b.tm_year as int,
        b.tm_mon as int,
    );
    if ya < yb || (ya == yb && ma < mb) {
        months_in_order(ya, ma, yb, mb);
    } else if yb < ya || (yb == ya && mb < ma) {
        months_in_order(yb, mb, ya, ma);
    }
}

/// A year has 365 days or 366.
proof fn days_of_years(year: int, month: int)
    requires
        0 <= year,
        0 <= month <= 12,
    ensures
        365 * year + 28 * month <= days_before(year, month) <= 366 * year + 31 * month,
    decreases year, month,
{
    if month > 0 {
        days_of_years(year, month - 1);
    } else if year > 0 {
        days_of_years(year - 1, 0);
        year_length(year - 1);
    }
}

/// All months of a year have 365 days or 366 together.
proof fn year_length(year: int)
    requires
        0 <= year,
    ensures
        365 <= days_before(year, 12) - days_before(year, 0) <= 366,
{
    months_follow(year, 0);
    months_follow(year, 1);
    months_follow(year, 2);
    months_follow(year, 3);
    months_follow(year, 4);
    months_follow(year, 5);
    months_follow(year, 6);
    months_follow(year, 7);
    months_follow(year, 8);
    months_follow(year, 9);
    months_follow(year, 10);
    months_follow(year, 11);
}

/// The parts of a date and a time of day.
pub open spec fn tm_of(t: CivilDateTime) -> Tm {
    Tm {
        tm_sec: t.second as i32,
        tm_min: t.minute as i32,
        tm_hour: t.hour as i32,
        tm_mday: t.day as i32,
        tm_mon: (t.month - 1) as i32,
        tm_year: (t.year - 1900) as i32,
    }
}

/// The parts of a date and a time of day.
pub fn to_tm(t: CivilDateTime) -> (r: Tm)
    requires
        is_day(t.year as int, t.month as int, t.day as int),
    ensures
        r == tm_of(t),
{
    Tm {
        tm_sec: t.second as i32,
        tm_min: t.minute as i32,
        tm_hour: t.hour as i32,
        tm_mday: t.day as i32,
        tm_mon: t.month as i32 - 1,
        tm_year: t.year - 1900,
    }
}

/// The parts of a day and a time of day that there are make a time that there is.
pub proof fn civil_is_valid(t: CivilDateTime)
    requires
        is_day(t.year as int, t.month as int, t.day as int),
        is_time_of_day(t.hour as int, t.minute as int, t.second as int),
    ensures
        tm_of(t).valid(),
{
}

/// How many days the start of 1970 is after that of 1900.
pub const UNIX_EPOCH_DAYS: i64 = 25567;

/// `time::OffsetDateTime::unix_timestamp` of the first second of a month: it counts the
/// days since the start of 1970, of 86400 seconds each.
#[verifier::external_body]
fn month_start(year: i32, month: u8) -> (r: i64)
    requires
        1900 <= year <= 9999,
        1 <= month <= 12,
    ensures
        r == (days_before(year - 1900, month - 1) - UNIX_EPOCH_DAYS) * 86400,
{
    let first = time::Date::try_from_ymd(year, month, 1).unwrap();
    first.midnight().assume_utc().unix_timestamp()
}

/// `time::OffsetDateTime::from_unix_timestamp`, field by field: the day and the time of
/// day that come so many seconds after the start of 1970.
#[verifier::external_body]
fn at_utc(timestamp: i64) -> (r: CivilDateTime)
    requires
        0 <= timestamp <= 253_402_300_799,
    ensures
        is_day(r.year as int, r.month as int, r.day as int),
        is_time_of_day(r.hour as int, r.minute as int, r.second as int),
        r.year >= 1970,
        tm_of(r).seconds() == timestamp + UNIX_EPOCH_DAYS * 86400,
{
    let t = time::OffsetDateTime::from_unix_timestamp(timestamp);
    CivilDateTime {
        year: t.year(),
        month: t.month(),
        day: t.day(),
        hour: t.hour(),
        minute: t.minute(),
        second: t.second(),
    }
}

/// Makes a time that there is of parts that may not fit.
fn settle(parts: Tm) -> (r: Tm)
    requires
        0 <= parts.tm_sec < 64,
        0 <= parts.tm_min < 64,
        0 <= parts.tm_hour < 32,
        0 <= parts.tm_mday < 32,
        -1 <= parts.tm_mon < 15,
        80 <= parts.tm_year < 208,
    ensures
        r.valid(),
        0 <= r.tm_year,
        r.seconds() == parts.seconds(),
{
    let (year, month): (i32, i32) = if parts.tm_mon < 0 {
        (parts.tm_year - 1, parts.tm_mon + 12)
    } else if parts.tm_mon >= 12 {
        (parts.tm_year + 1, parts.tm_mon - 12)
    } else {
        (parts.tm_year, parts.tm_mon)
    };
    proof {
        days_of_years(year as int, month as int);
    }
    let hours: i64 = (parts.tm_mday as i64 - 1) * 24 + parts.tm_hour as i64;
    let seconds: i64 = (hours * 60 + parts.tm_min as i64) * 60 + parts.tm_sec as i64;
    let t = at_utc(month_start(year + 1900, (month + 1) as u8) + seconds);
    proof {
        civil_is_valid(t);
    }
    to_tm(t)
}

/// The time that a time of MS-DOS stands for. Where its parts do not fit, what is
/// too much goes over into the next part.
pub fn msdos_datetime_to_tm(time: u16, date: u16) -> (r: Tm)
    ensures
        r.valid(),
        0 <= r.tm_year,
        r.seconds() == dos_parts(time, date).seconds(),
{
    // Month range: Dos [1..12], Tm [0..11]
    // Year zero: Dos 1980, Tm 1900
    let parts = Tm {
        tm_sec: 2 * (time % 32) as i32,
        tm_min: (time / 32 % 64) as i32,
        tm_hour: (time / 2048) as i32,
        tm_mday: (date % 32) as i32,
        tm_mon: (date / 32 % 16) as i32 - 1,
        tm_year: (date / 512) as i32 + 80,
    };
    assert(parts == dos_parts(time, date));
    // Re-parse the possibly incorrect timestamp to get a correct one.
    settle(parts)
}

/// The time part of a time, as MS-DOS has it: two seconds are one.
pub fn tm_to_msdos_time(time: Tm) -> (r: u16)
    ensures
        r == ((time.tm_sec >> 1) | (time.tm_min << 5) | (time.tm_hour << 11)) as u16,
{
    #[verifier::truncate] (((time.tm_sec >> 1) | (time.tm_min << 5) | (time.tm_hour << 11)) as u16)
}

/// The date part of a time, as MS-DOS has it.
pub fn tm_to_msdos_date(time: Tm) -> (r: u16)
    requires
        time.tm_mon < i32::MAX,
        time.tm_year >= i32::MIN + 80,
    ensures
        r == (time.tm_mday | (((time.tm_mon + 1) as i32) << 5) | (((time.tm_year - 80) as i32)
            << 9)) as u16,
{
    let month: i32 = time.tm_mon + 1;
    let year: i32 = time.tm_year - 80;
    #[verifier::truncate] ((time.tm_mday | (month << 5) | (year << 9)) as u16)
}

/// A time that MS-DOS can tell, and whose seconds are even, comes back from its
/// time of MS-DOS.
pub proof fn dos_keeps_times(t: Tm, time: u16, date: u16)
    requires
        t.valid(),
        80 <= t.tm_year < 208,
        t.tm_sec % 2 == 0,
        time == ((t.tm_sec >> 1) | (t.tm_min << 5) | (t.tm_hour << 11)) as u16,
        date == (t.tm_mday | (((t.tm_mon + 1) as i32) << 5) | (((t.tm_year - 80) as i32)
            << 9)) as u16,
    ensures
        dos_parts(time, date) == t,
{
    let (sec, min, hour) = (t.tm_sec, t.tm_min, t.tm_hour);
    let (day, month, year) = (t.tm_mday, (t.tm_mon + 1) as i32, (t.tm_year - 80) as i32);
    assert(time % 32 == sec / 2 && time / 32 % 64 == min && time / 2048 == hour) by (bit_vector)
        requires
            0 <= sec < 60,
            0 <= min < 60,
            0 <= hour < 24,
            time == ((sec >> 1) | (min << 5) | (hour << 11)) as u16,
    ;
    assert(date % 32 == day && date / 32 % 16 == month && date / 512 == year) by (bit_vector)
        requires
            1 <= day < 32,
            1 <= month < 13,
            0 <= year < 128,
            date == (day | (month << 5) | (year << 9)) as u16,
    ;
}

} // verus!
