//! Calendar dates of the proleptic Gregorian calendar.

use chrono::Datelike;
use crate::chars::padded_decimal_spec;
use vstd::prelude::*;

verus! {

/// Smallest year that a calendar date can hold.
pub const MIN_YEAR: i32 = -262143;

/// Largest year that a calendar date can hold.
pub const MAX_YEAR: i32 = 262142;

pub open spec fn is_leap_year(y: int) -> bool {
    y % 4 == 0 && (y % 100 != 0 || y % 400 == 0)
}

pub open spec fn days_in_month(y: int, m: int) -> int {
    if m == 2 {
        if is_leap_year(y) { 29 } else { 28 }
    } else if m == 4 || m == 6 || m == 9 || m == 11 {
        30
    } else {
        31
    }
}

/// A year, month and day that name a day of the calendar in the supported range.
pub open spec fn valid_ymd(y: int, m: int, d: int) -> bool {
    &&& MIN_YEAR <= y <= MAX_YEAR
    &&& 1 <= m <= 12
    &&& 1 <= d <= days_in_month(y, m)
}

/// The mathematical value of a date.
pub struct DateView {
    pub year: int,
    pub month: int,
    pub day: int,
}

impl DateView {
    pub open spec fn valid(self) -> bool {
        valid_ymd(self.year, self.month, self.day)
    }
}

/// Days since 1970-01-01 of a year, month and day (negative before it).
pub open spec fn days_from_civil(y: int, m: int, d: int) -> int {
    let yy = if m <= 2 { y - 1 } else { y };
    let era = yy / 400;
    let yoe = yy - era * 400;
    let mp = if m > 2 { m - 3 } else { m + 9 };
    let doy = (153 * mp + 2) / 5 + d - 1;
    let doe = yoe * 365 + yoe / 4 - yoe / 100 + doy;
    era * 146097 + doe - 719468
}

/// Day of the week of a date, counted from Monday (0) to Sunday (6).
pub open spec fn weekday_number(y: int, m: int, d: int) -> int {
    (days_from_civil(y, m, d) + 3) % 7
}

/// A valid calendar date.
#[derive(Debug, Clone, Copy, PartialEq, Eq, Structural)]
pub struct Date {
    year: i32,
    month: u32,
    day: u32,
}

impl View for Date {
    type V = DateView;

    closed spec fn view(&self) -> DateView {
        DateView { year: self.year as int, month: self.month as int, day: self.day as int }
    }
}

impl Date {
    #[verifier::type_invariant]
    closed spec fn inv(self) -> bool {
        valid_ymd(self.year as int, self.month as int, self.day as int)
    }

    /// The date with the given year, month and day, where they name one.
    pub fn from_ymd(year: i32, month: u32, day: u32) -> (r: Option<Date>)
        ensures
            r is Some <==> valid_ymd(year as int, month as int, day as int),
            r matches Some(d) ==> d@ == (DateView { year: year as int, month: month as int, day: day as int }),
    {
        chrono_from_ymd(year, month, day)
    }

    pub fn year(&self) -> (r: i32)
        ensures
            r == self@.year,
            self@.valid(),
    {
        proof { use_type_invariant(self); }
        self.year
    }

    pub fn month(&self) -> (r: u32)
        ensures
            r == self@.month,
            self@.valid(),
    {
        proof { use_type_invariant(self); }
        self.month
    }

    pub fn day(&self) -> (r: u32)
        ensures
            r == self@.day,
            self@.valid(),
    {
        proof { use_type_invariant(self); }
        self.day
    }
}

/// Calls `chrono::NaiveDate::from_ymd_opt`. Claimed: it gives a date exactly
/// when the year, month and day name a day of the proleptic Gregorian
/// calendar and the year lies in chrono's range (`MIN_YEAR..=MAX_YEAR`),
/// and that date has the given year, month and day.
#[verifier::external_body]
fn chrono_from_ymd(year: i32, month: u32, day: u32) -> (r: Option<Date>)
    ensures
        r is Some <==> valid_ymd(year as int, month as int, day as int),
        r matches Some(d) ==> d@ == (DateView { year: year as int, month: month as int, day: day as int }),
{
    match chrono::NaiveDate::from_ymd_opt(year, month, day) {
        Some(nd) => Some(Date { year: nd.year(), month: nd.month(), day: nd.day() }),
        None => None,
    }
}

/// Calls `chrono::Local::now` and `DateTime::date_naive`. Claimed: a valid
/// date (chrono's dates lie in its range). Which day it is depends on the
/// clock and the time zone, and nothing more is stated of it.
#[verifier::external_body]
pub(crate) fn today_local() -> (r: Date)
    ensures
        r@.valid(),
{
    let nd = chrono::Local::now().date_naive();
    Date { year: nd.year(), month: nd.month(), day: nd.day() }
}

pub open spec fn date_opt_view(r: Option<Date>) -> Option<DateView> {
    match r {
        Some(d) => Some(d@),
        None => None,
    }
}

/// The text that chrono's `Display` gives of a date: `YYYY-MM-DD` for the
/// years 0 to 9999, otherwise the year with its sign in five characters at
/// least (`-0001`, `+10000`).
pub open spec fn date_text(d: DateView) -> Seq<char> {
    let ys = if 0 <= d.year <= 9999 {
        padded_decimal_spec(d.year as nat, 4)
    } else if d.year < 0 {
        seq!['-'] + padded_decimal_spec((-d.year) as nat, 4)
    } else {
        seq!['+'] + padded_decimal_spec(d.year as nat, 5)
    };
    ys.push('-') + padded_decimal_spec(d.month as nat, 2).push('-') + padded_decimal_spec(d.day as nat, 2)
}

/// The date that `chrono::NaiveDate::parse_from_str` reads from a text with
/// the format `%F` (`%Y-%m-%d`), where it reads one.
pub uninterp spec fn chrono_parse_date(s: Seq<char>) -> Option<DateView>;

/// Calls `chrono::NaiveDate::parse_from_str` with the format `%F`. Claimed:
/// the result is the name `chrono_parse_date` of the text, and (chrono's
/// documentation: the `Display` text "can be readily parsed") the text of
/// a valid date reads back as that date. Nothing more is stated of which
/// texts chrono accepts.
#[verifier::external_body]
pub(crate) fn parse_date(s: &str) -> (r: Option<Date>)
    ensures
        date_opt_view(r) == chrono_parse_date(s@),
        forall|d: DateView| #![trigger date_text(d)] d.valid() && s@ == date_text(d) ==> date_opt_view(r) == Some(d),
{
    match chrono::NaiveDate::parse_from_str(s, "%F") {
        Ok(nd) => Some(Date { year: nd.year(), month: nd.month(), day: nd.day() }),
        Err(_) => None,
    }
}

/// Calls `NaiveDate::to_string` (chrono's `Display`). Claimed: the text
/// `date_text` of the date (chrono's `Debug` formatting of a date).
#[verifier::external_body]
pub(crate) fn date_string(d: &Date) -> (r: String)
    ensures
        r@ == date_text(d@),
{
    chrono::NaiveDate::from_ymd_opt(d.year, d.month, d.day).unwrap().to_string()
}

/// Calls `NaiveDate::leap_year`. Claimed: whether the date's year is a
/// leap year of the Gregorian calendar.
#[verifier::external_body]
fn chrono_leap_year(year: i32, month: u32, day: u32) -> (r: bool)
    requires
        valid_ymd(year as int, month as int, day as int),
    ensures
        r == is_leap_year(year as int),
{
    chrono::NaiveDate::from_ymd_opt(year, month, day).unwrap().leap_year()
}

/// Calls `NaiveDate::signed_duration_since` (`a - b`) and
/// `TimeDelta::num_days`. Claimed: the number of days from `b` to `a`.
#[verifier::external_body]
fn chrono_days_between(a: &Date, b: &Date) -> (r: i64)
    ensures
        r == days_from_civil(a@.year, a@.month, a@.day) - days_from_civil(b@.year, b@.month, b@.day),
{
    let na = chrono::NaiveDate::from_ymd_opt(a.year, a.month, a.day).unwrap();
    let nb = chrono::NaiveDate::from_ymd_opt(b.year, b.month, b.day).unwrap();
    (na - nb).num_days()
}

impl Date {
    /// Whether the year of the date is a leap year.
    pub fn leap_year(&self) -> (r: bool)
        ensures
            r == is_leap_year(self@.year),
    {
        proof { use_type_invariant(self); }
        chrono_leap_year(self.year, self.month, self.day)
    }

    /// The number of days from `earlier` to `self` (negative when `earlier`
    /// comes later).
    pub fn days_since(&self, earlier: &Date) -> (r: i64)
        ensures
            r == days_from_civil(self@.year, self@.month, self@.day) - days_from_civil(
                earlier@.year,
                earlier@.month,
                earlier@.day,
            ),
    {
        chrono_days_between(self, earlier)
    }
}

} // verus!
