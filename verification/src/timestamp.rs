//! Calendar timestamps with whole-second precision.
//!
//! Backups are named by the moment they were taken, in the proleptic
//! Gregorian calendar. For ordering and for measuring the gap between
//! two backups, a timestamp is mapped to the number of seconds since
//! the start of year 0; that mapping is the mathematical model every
//! other module speaks of.

use vstd::prelude::*;

verus! {

/// One point in time, at second precision, as it appears in a backup
/// filename.
#[derive(Clone, Copy, PartialEq, Eq, Structural, Debug)]
pub struct Timestamp {
    pub year: u32,
    pub month: u32,
    pub day: u32,
    pub hour: u32,
    pub minute: u32,
    pub second: u32,
}

/// Gregorian leap-year rule.
pub open spec fn is_leap_year(y: int) -> bool {
    y % 4 == 0 && (y % 100 != 0 || y % 400 == 0)
}

/// Length of a month, honouring leap years.
pub open spec fn days_in_month(y: int, m: int) -> int {
    if m == 2 {
        if is_leap_year(y) {
            29
        } else {
            28
        }
    } else if m == 4 || m == 6 || m == 9 || m == 11 {
        30
    } else {
        31
    }
}

/// Days in all years before year `y`, counting from year 0 (which is a
/// leap year in the proleptic Gregorian calendar).
pub open spec fn days_before_year(y: int) -> int {
    365 * y + (y + 3) / 4 - (y + 99) / 100 + (y + 399) / 400
}

/// Days in all months of year `y` before month `m`.
pub open spec fn days_before_month(y: int, m: int) -> int {
    let base: int = if m <= 1 {
        0
    } else if m == 2 {
        31
    } else if m == 3 {
        59
    } else if m == 4 {
        90
    } else if m == 5 {
        120
    } else if m == 6 {
        151
    } else if m == 7 {
        181
    } else if m == 8 {
        212
    } else if m == 9 {
        243
    } else if m == 10 {
        273
    } else if m == 11 {
        304
    } else {
        334
    };
    if m > 2 && is_leap_year(y) {
        base + 1
    } else {
        base
    }
}

/// Seconds from 0000-01-01 00:00:00 to `t`.
pub open spec fn secs_of(t: Timestamp) -> int {
    (days_before_year(t.year as int) + days_before_month(t.year as int, t.month as int)
        + t.day as int - 1) * 86400 + t.hour as int * 3600 + t.minute as int * 60
        + t.second as int
}

impl Timestamp {
    /// A calendar-valid timestamp whose year fits the four-digit
    /// filename pattern.
    pub open spec fn valid(self) -> bool {
        &&& self.year <= 9999
        &&& 1 <= self.month <= 12
        &&& 1 <= self.day <= days_in_month(self.year as int, self.month as int)
        &&& self.hour <= 23
        &&& self.minute <= 59
        &&& self.second <= 59
    }

    /// Builds a timestamp from its six fields, rejecting anything that
    /// is not a valid calendar moment with a four-digit year.
    pub fn new(year: u32, month: u32, day: u32, hour: u32, minute: u32, second: u32) -> (r:
        Option<Timestamp>)
        ensures
            ({
                let t = Timestamp { year, month, day, hour, minute, second };
                if t.valid() {
                    r == Some(t)
                } else {
                    r is None
                }
            }),
    {
        let t = Timestamp { year, month, day, hour, minute, second };
        if year <= 9999 && 1 <= month && month <= 12 && 1 <= day && day <= days_in_month_exec(
            year,
            month,
        ) && hour <= 23 && minute <= 59 && second <= 59 {
            Some(t)
        } else {
            None
        }
    }

    /// Seconds since 0000-01-01 00:00:00; strictly later valid
    /// timestamps map to strictly larger values.
    pub fn to_secs(&self) -> (r: u64)
        requires
            self.valid(),
        ensures
            r as int == secs_of(*self),
    {
        let y = self.year as u64;
        let days_years: u64 = 365 * y + (y + 3) / 4 - (y + 99) / 100 + (y + 399) / 400;
        let days: u64 = days_years + days_before_month_exec(self.year, self.month) as u64
            + self.day as u64 - 1;
        days * 86400 + self.hour as u64 * 3600 + self.minute as u64 * 60 + self.second as u64
    }
}

/// `a` lies strictly before `b` in calendar order.
pub open spec fn earlier(a: Timestamp, b: Timestamp) -> bool {
    if a.year != b.year {
        a.year < b.year
    } else if a.month != b.month {
        a.month < b.month
    } else if a.day != b.day {
        a.day < b.day
    } else if a.hour != b.hour {
        a.hour < b.hour
    } else if a.minute != b.minute {
        a.minute < b.minute
    } else {
        a.second < b.second
    }
}

/// Stepping to the next year adds one year of days.
proof fn lemma_days_before_next_year(y: int)
    requires
        y >= 0,
    ensures
        days_before_year(y + 1) == days_before_year(y) + if is_leap_year(y) {
            366int
        } else {
            365int
        },
{
    assert(days_before_year(y + 1) == days_before_year(y) + if is_leap_year(y) {
        366int
    } else {
        365int
    }) by (nonlinear_arith);
}

/// More years before means more days before, by at least 365 per year
/// and one more when the first year is leap.
proof fn lemma_days_before_year_monotone(y1: int, y2: int)
    requires
        0 <= y1 < y2,
    ensures
        days_before_year(y1) + 365 * (y2 - y1) + if is_leap_year(y1) {
            1int
        } else {
            0int
        } <= days_before_year(y2),
    decreases y2 - y1,
{
    lemma_days_before_next_year(y1);
    if y1 + 1 < y2 {
        lemma_days_before_year_monotone(y1 + 1, y2);
    }
}

/// The day offset within a year: at least 0, at most 365, and within
/// a common year at most 364.
proof fn lemma_day_of_year_bounds(t: Timestamp)
    requires
        t.valid(),
    ensures
        0 <= days_before_month(t.year as int, t.month as int) + t.day - 1,
        days_before_month(t.year as int, t.month as int) + t.day - 1 <= 365,
        !is_leap_year(t.year as int) ==> days_before_month(t.year as int, t.month as int) + t.day
            - 1 <= 364,
{
}

/// Within one year, calendar order means a later day offset or, on
/// the same day, a later time of day.
proof fn lemma_same_year_monotone(a: Timestamp, b: Timestamp)
    requires
        a.valid(),
        b.valid(),
        a.year == b.year,
        earlier(a, b),
    ensures
        secs_of(a) < secs_of(b),
{
    let y = a.year as int;
    if a.month < b.month {
        assert(days_before_month(y, a.month as int) + days_in_month(y, a.month as int)
            <= days_before_month(y, b.month as int));
    }
}

/// The chronology law: calendar order and seconds order agree, so two
/// distinct valid timestamps never share a seconds value and the
/// index's key order is calendar order.
pub proof fn lemma_secs_of_strictly_monotone(a: Timestamp, b: Timestamp)
    requires
        a.valid(),
        b.valid(),
        earlier(a, b),
    ensures
        secs_of(a) < secs_of(b),
{
    if a.year == b.year {
        lemma_same_year_monotone(a, b);
    } else {
        lemma_days_before_year_monotone(a.year as int, b.year as int);
        lemma_day_of_year_bounds(a);
        lemma_day_of_year_bounds(b);
    }
}

/// Seconds order and calendar order are one and the same; in
/// particular two distinct valid timestamps never collide on a key.
pub proof fn lemma_secs_order_is_calendar_order(a: Timestamp, b: Timestamp)
    requires
        a.valid(),
        b.valid(),
    ensures
        secs_of(a) < secs_of(b) <==> earlier(a, b),
        secs_of(a) == secs_of(b) <==> a == b,
{
    if earlier(a, b) {
        lemma_secs_of_strictly_monotone(a, b);
    } else if earlier(b, a) {
        lemma_secs_of_strictly_monotone(b, a);
    } else {
        assert(a == b);
    }
}

/// Length of month `m` of year `y`.
pub fn days_in_month_exec(y: u32, m: u32) -> (r: u32)
    requires
        1 <= m <= 12,
    ensures
        r as int == days_in_month(y as int, m as int),
{
    if m == 2 {
        if (y % 4 == 0) && (y % 100 != 0 || y % 400 == 0) {
            29
        } else {
            28
        }
    } else if m == 4 || m == 6 || m == 9 || m == 11 {
        30
    } else {
        31
    }
}

/// Days of year `y` that lie before month `m`.
pub fn days_before_month_exec(y: u32, m: u32) -> (r: u32)
    requires
        1 <= m <= 12,
    ensures
        r as int == days_before_month(y as int, m as int),
{
    let base: u32 = if m <= 1 {
        0
    } else if m == 2 {
        31
    } else if m == 3 {
        59
    } else if m == 4 {
        90
    } else if m == 5 {
        120
    } else if m == 6 {
        151
    } else if m == 7 {
        181
    } else if m == 8 {
        212
    } else if m == 9 {
        243
    } else if m == 10 {
        273
    } else if m == 11 {
        304
    } else {
        334
    };
    if m > 2 && (y % 4 == 0) && (y % 100 != 0 || y % 400 == 0) {
        base + 1
    } else {
        base
    }
}

} // verus!
