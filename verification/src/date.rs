//! Calendar dates as plain day counts.
//!
//! A [`Date`] is the number of whole days since 1970-01-01 in the proleptic
//! Gregorian calendar. That epoch fell on a Thursday, which anchors the
//! weekday computation.

use vstd::prelude::*;

verus! {

/// Day of the week, Monday through Sunday.
#[derive(Clone, Copy, Debug, PartialEq, Eq, Structural, Hash)]
pub enum Weekday {
    Monday,
    Tuesday,
    Wednesday,
    Thursday,
    Friday,
    Saturday,
    Sunday,
}

/// Position of a weekday in the week, with Monday at 0 and Sunday at 6.
pub open spec fn weekday_number(w: Weekday) -> int {
    match w {
        Weekday::Monday => 0,
        Weekday::Tuesday => 1,
        Weekday::Wednesday => 2,
        Weekday::Thursday => 3,
        Weekday::Friday => 4,
        Weekday::Saturday => 5,
        Weekday::Sunday => 6,
    }
}

/// Weekday position of the day `day` days after the epoch: the epoch,
/// day 0, is a Thursday (position 3), and positions repeat every 7 days.
pub open spec fn weekday_index(day: int) -> int {
    (day + 3) % 7
}

/// Whether year `y` is a leap year in the proleptic Gregorian calendar.
pub open spec fn is_leap_year(y: int) -> bool {
    (y % 4 == 0 && y % 100 != 0) || y % 400 == 0
}

/// The number of days in month `m` of year `y`.
pub open spec fn days_in_month(y: int, m: int) -> int {
    if m == 2 {
        if is_leap_year(y) {
            29
        } else {
            28
        }
    } else if m == 4 || m == 6 || m == 9 || m == 11 {
        30
    } else {
        31
    }
}

/// Whether year `y`, month `m` and day `d` name a real Gregorian calendar
/// date within the supported year range.
pub open spec fn valid_ymd(y: int, m: int, d: int) -> bool {
    &&& 1 <= y <= 9999
    &&& 1 <= m <= 12
    &&& 1 <= d <= days_in_month(y, m)
}

/// The count of days from the epoch 1970-01-01 to the Gregorian date
/// `y-m-d`, by the standard civil-calendar computation: years are shifted to
/// start in March so that the leap day comes last, whole 400-year eras of
/// 146097 days are split off, and the day of the shifted year follows the
/// five-month cycle of 153 days.
pub open spec fn day_number(y: int, m: int, d: int) -> int {
    let yy: int = if m <= 2 {
        y - 1
    } else {
        y
    };
    let era: int = yy / 400;
    let yoe: int = yy - era * 400;
    let mp: int = if m > 2 {
        m - 3
    } else {
        m + 9
    };
    let doy: int = (153 * mp + 2) / 5 + d - 1;
    let doe: int = yoe * 365 + yoe / 4 - yoe / 100 + doy;
    era * 146097 + doe - 719468
}

/// A calendar date, stored as the count of days since the epoch 1970-01-01
/// (negative for earlier dates).
#[derive(Clone, Copy, Debug, PartialEq, Eq, Structural, Hash)]
pub struct Date {
    /// Days since the epoch 1970-01-01.
    pub days: i64,
}

impl View for Date {
    type V = int;

    open spec fn view(&self) -> int {
        self.days as int
    }
}

impl Date {
    /// Builds the date `days` days after the epoch.
    pub fn from_day_number(days: i64) -> (r: Date)
        ensures
            r@ == days,
    {
        Date { days }
    }

    /// The count of days from the epoch to this date.
    pub fn day_number(&self) -> (r: i64)
        ensures
            r == self@,
    {
        self.days
    }

    /// The date `n` days after this one (before it, for negative `n`).
    pub fn add_days(&self, n: i64) -> (r: Date)
        requires
            i64::MIN <= self@ + n <= i64::MAX,
        ensures
            r@ == self@ + n,
    {
        Date { days: self.days + n }
    }

    /// Builds the date for year `y`, month `m` and day `d` of the proleptic
    /// Gregorian calendar.
    pub fn from_ymd(y: i32, m: u32, d: u32) -> (r: Date)
        requires
            valid_ymd(y as int, m as int, d as int),
        ensures
            r@ == day_number(y as int, m as int, d as int),
    {
        let yy: u64 = if m <= 2 {
            (y - 1) as u64
        } else {
            y as u64
        };
        let era: u64 = yy / 400;
        let yoe: u64 = yy - era * 400;
        let mp: u64 = if m > 2 {
            (m - 3) as u64
        } else {
            (m + 9) as u64
        };
        let doy: u64 = (153 * mp + 2) / 5 + (d - 1) as u64;
        let doe: u64 = yoe * 365 + yoe / 4 - yoe / 100 + doy;
        let total: u64 = era * 146097 + doe;
        Date { days: total as i64 - 719468 }
    }

    /// The day of the week this date falls on.
    pub fn weekday(&self) -> (r: Weekday)
        ensures
            weekday_number(r) == weekday_index(self@),
    {
        let q: i64 = match self.days.checked_rem_euclid(7) {
            Some(q) => q,
            None => 0,
        };
        assert(q == self@ % 7);
        let idx: i64 = if q >= 4 {
            q - 4
        } else {
            q + 3
        };
        proof {
            vstd::arithmetic::div_mod::lemma_add_mod_noop(self@, 3, 7);
            assert((q + 3) % 7 == idx as int) by (nonlinear_arith)
                requires
                    0 <= q < 7,
                    idx == if q >= 4 { q - 4 } else { q + 3 },
            ;
        }
        match idx {
            0 => Weekday::Monday,
            1 => Weekday::Tuesday,
            2 => Weekday::Wednesday,
            3 => Weekday::Thursday,
            4 => Weekday::Friday,
            5 => Weekday::Saturday,
            _ => Weekday::Sunday,
        }
    }
}

/// Types that can be converted into a [`Date`], so callers with a richer
/// date type of their own can hand it to the calendar operations.
pub trait IntoDate: Sized {
    /// The day count the conversion yields.
    spec fn spec_date(&self) -> int;

    /// Converts this value into a [`Date`].
    fn into_date(&self) -> (r: Date)
        ensures
            r@ == self.spec_date(),
    ;
}

impl IntoDate for Date {
    open spec fn spec_date(&self) -> int {
        self@
    }

    fn into_date(&self) -> (r: Date) {
        *self
    }
}

} // verus!
