//! Proleptic Gregorian calendar dates, held as plain year, month and day.
use chrono::Datelike;
use chrono::Days;
use chrono::NaiveDate;
use vstd::prelude::*;

verus! {

/// The earliest year that a date may have.
pub const MIN_YEAR: i32 = -262143;

/// The latest year that a date may have.
pub const MAX_YEAR: i32 = 262142;

/// A calendar date. `wf` holds of every date that this library hands out.
#[derive(Clone, Copy, Debug, PartialEq, Eq, Structural)]
pub struct Date {
    pub year: i32,
    pub month: u32,
    pub day: u32,
}

pub open spec fn is_leap_year(y: int) -> bool {
    (y % 4 == 0 && y % 100 != 0) || y % 400 == 0
}

pub open spec fn days_in_month(y: int, m: int) -> int {
    if m == 2 {
        if is_leap_year(y) {
            29
        } else {
            28
        }
    } else if m == 4 || m == 6 || m == 9 || m == 11 {
        30
    } else {
        31
    }
}

pub open spec fn year_in_range(y: int) -> bool {
    MIN_YEAR <= y <= MAX_YEAR
}

/// The year, month and day name a day of the calendar.
pub open spec fn valid_ymd(y: int, m: int, d: int) -> bool {
    year_in_range(y) && 1 <= m <= 12 && 1 <= d <= days_in_month(y, m)
}

/// `a` comes strictly before `b`.
pub open spec fn date_lt(a: Date, b: Date) -> bool {
    a.year < b.year || (a.year == b.year && (a.month < b.month || (a.month == b.month && a.day
        < b.day)))
}

/// `a` comes on or before `b`.
pub open spec fn date_le(a: Date, b: Date) -> bool {
    date_lt(a, b) || a == b
}

/// The day after `d`, without regard to the supported range of years.
pub open spec fn next_day(d: Date) -> Date {
    if (d.day as int) < days_in_month(d.year as int, d.month as int) {
        Date { day: (d.day + 1) as u32, ..d }
    } else if d.month < 12 {
        Date { year: d.year, month: (d.month + 1) as u32, day: 1 }
    } else {
        Date { year: (d.year + 1) as i32, month: 1, day: 1 }
    }
}

/// The date `n` days after `d`, without regard to the supported range of years.
pub open spec fn days_after(d: Date, n: nat) -> Date
    decreases n,
{
    if n == 0 {
        d
    } else {
        next_day(days_after(d, (n - 1) as nat))
    }
}

/// The date `d` moved to year `y`, month and day kept; `None` where that day
/// does not exist.
pub open spec fn in_year(d: Date, y: int) -> Option<Date> {
    if valid_ymd(y, d.month as int, d.day as int) {
        Some(Date { year: y as i32, ..d })
    } else {
        None
    }
}

/// The digit that stands for `n`, for `0 <= n < 10`.
pub open spec fn digit_char(n: int) -> char {
    (n + '0' as int) as char
}

/// The last `width` decimal digits of `n`, padded with leading zeros.
pub open spec fn padded_digits(n: nat, width: nat) -> Seq<char>
    decreases width,
{
    if width == 0 {
        Seq::empty()
    } else {
        padded_digits(n / 10, (width - 1) as nat).push(digit_char((n % 10) as int))
    }
}

/// The text `YYYYMMDD` that stands for a date whose year has four digits.
pub open spec fn compact_text(d: Date) -> Seq<char> {
    padded_digits(d.year as nat, 4) + padded_digits(d.month as nat, 2) + padded_digits(
        d.day as nat,
        2,
    )
}

/// What chrono's `%Y%m%d` writes for a date; it has a sign before years
/// outside `0..=9999`.
pub uninterp spec fn chrono_compact_text(y: int, m: int, d: int) -> Seq<char>;

impl Date {
    pub open spec fn wf(&self) -> bool {
        valid_ymd(self.year as int, self.month as int, self.day as int)
    }

    /// The date with the given year, month and day, where that day exists and
    /// its year lies in the supported range.
    pub fn new(year: i32, month: u32, day: u32) -> (r: Option<Date>)
        ensures
            r == (if valid_ymd(year as int, month as int, day as int) {
                Some(Date { year, month, day })
            } else {
                None
            }),
    {
        from_ymd(year, month, day)
    }

    /// This date moved to `year`, month and day kept; `None` where that day
    /// does not exist in `year` (February 29 outside leap years) or `year`
    /// lies outside the supported range.
    pub fn with_year(&self, year: i32) -> (r: Option<Date>)
        requires
            self.wf(),
        ensures
            r == in_year(*self, year as int),
    {
        from_ymd(year, self.month, self.day)
    }

    /// `self` comes strictly after `other`.
    pub fn is_after(&self, other: &Date) -> (r: bool)
        ensures
            r == date_lt(*other, *self),
    {
        if self.year != other.year {
            self.year > other.year
        } else if self.month != other.month {
            self.month > other.month
        } else {
            self.day > other.day
        }
    }

    /// The date `n` days later; `None` where it lies past the supported range.
    pub fn add_days(&self, n: u32) -> (r: Option<Date>)
        requires
            self.wf(),
        ensures
            r == (if year_in_range(days_after(*self, n as nat).year as int) {
                Some(days_after(*self, n as nat))
            } else {
                None
            }),
    {
        later_by_days(*self, n)
    }

    /// The date as the text `YYYYMMDD` used for all-day calendar entries.
    pub fn compact(&self) -> (r: String)
        requires
            self.wf(),
        ensures
            r@ == chrono_compact_text(self.year as int, self.month as int, self.day as int),
            0 <= self.year <= 9999 ==> r@ == compact_text(*self),
    {
        compact_format(*self)
    }
}

/// Relies on chrono's `NaiveDate::from_ymd_opt`: `Some` exactly for an
/// existing day of the proleptic Gregorian calendar whose year lies in
/// `MIN_YEAR..=MAX_YEAR`, with the fields given.
#[verifier::external_body]
fn from_ymd(year: i32, month: u32, day: u32) -> (r: Option<Date>)
    ensures
        r == (if valid_ymd(year as int, month as int, day as int) {
            Some(Date { year, month, day })
        } else {
            None
        }),
{
    match NaiveDate::from_ymd_opt(year, month, day) {
        Some(n) => Some(Date { year: n.year(), month: n.month(), day: n.day() }),
        None => None,
    }
}

/// Relies on chrono's `NaiveDate::checked_add_days`: the date `n` days later,
/// `None` where it would be out of range.
#[verifier::external_body]
fn later_by_days(d: Date, n: u32) -> (r: Option<Date>)
    requires
        d.wf(),
    ensures
        r == (if year_in_range(days_after(d, n as nat).year as int) {
            Some(days_after(d, n as nat))
        } else {
            None
        }),
{
    match NaiveDate::from_ymd_opt(d.year, d.month, d.day) {
        Some(s) => match s.checked_add_days(Days::new(n as u64)) {
            Some(t) => Some(Date { year: t.year(), month: t.month(), day: t.day() }),
            None => None,
        },
        None => None,
    }
}

/// Relies on chrono's `NaiveDate::format` with `%Y%m%d`: four-digit year
/// (zero-padded within `0..=9999`), two-digit month, two-digit day.
#[verifier::external_body]
fn compact_format(d: Date) -> (r: String)
    requires
        d.wf(),
    ensures
        r@ == chrono_compact_text(d.year as int, d.month as int, d.day as int),
        0 <= d.year <= 9999 ==> r@ == compact_text(d),
{
    match NaiveDate::from_ymd_opt(d.year, d.month, d.day) {
        Some(s) => s.format("%Y%m%d").to_string(),
        None => String::new(),
    }
}

} // verus!
