//! Calendar dates for task deadlines.
//!
//! A deadline is a plain year/month/day triple with the usual Gregorian
//! validity rules. Parsing from text and formatting back to text rely on
//! the `chrono` crate behind trusted wrappers; everything else is proved.

use chrono::Datelike;
use vstd::prelude::*;

verus! {

/// Smallest year a deadline may carry (the range chrono's `NaiveDate` supports).
pub const MIN_YEAR: i32 = -262143;
/// Largest year a deadline may carry (the range chrono's `NaiveDate` supports).
pub const MAX_YEAR: i32 = 262142;

/// A calendar date (no time of day), stored as plain fields.
#[derive(Clone, Copy, PartialEq, Eq, Structural, Debug)]
pub struct Date {
    pub year: i32,
    pub month: u8,
    pub day: u8,
}

/// A leap year in the proleptic Gregorian calendar.
pub open spec fn is_leap_year(y: int) -> bool {
    y % 4 == 0 && (y % 100 != 0 || y % 400 == 0)
}

/// Number of days in the given month of the given year.
pub open spec fn days_in_month(y: int, m: int) -> int {
    if m == 2 {
        if is_leap_year(y) {
            29
        } else {
            28
        }
    } else if m == 4 || m == 6 || m == 9 || m == 11 {
        30
    } else {
        31
    }
}

/// A well-formed calendar date within the supported year range.
pub open spec fn valid_date(d: Date) -> bool {
    &&& MIN_YEAR <= d.year <= MAX_YEAR
    &&& 1 <= d.month <= 12
    &&& d.day >= 1
    &&& d.day as int <= days_in_month(d.year as int, d.month as int)
}

/// Strict calendar order: `a` is earlier than `b`.
pub open spec fn date_lt(a: Date, b: Date) -> bool {
    ||| a.year < b.year
    ||| (a.year == b.year && a.month < b.month)
    ||| (a.year == b.year && a.month == b.month && a.day < b.day)
}

impl Date {
    /// Whether this date is strictly earlier than `other`.
    pub fn is_before(&self, other: &Date) -> (r: bool)
        ensures
            r == date_lt(*self, *other),
    {
        if self.year != other.year {
            self.year < other.year
        } else if self.month != other.month {
            self.month < other.month
        } else {
            self.day < other.day
        }
    }
}

/// The date, if any, that a text in year-month-day form denotes. The result
/// depends on the text alone; it is given by `chrono`'s parser below.
pub uninterp spec fn ymd_of(s: Seq<char>) -> Option<Date>;

/// Relies on `chrono::NaiveDate::parse_from_str` with format `"%Y-%m-%d"`:
/// the parse result depends on the text alone, and any date it yields obeys
/// `NaiveDate`'s own invariant, a valid calendar date within the supported
/// year range.
#[verifier::external_body]
pub fn parse_ymd(s: &str) -> (r: Option<Date>)
    ensures
        r == ymd_of(s@),
        r matches Some(d) ==> valid_date(d),
{
    match chrono::NaiveDate::parse_from_str(s, "%Y-%m-%d") {
        Ok(d) => Some(Date { year: d.year(), month: d.month() as u8, day: d.day() as u8 }),
        Err(_) => None,
    }
}

/// The text `chrono` prints for a date in year-month-day form; it depends on
/// the date's fields alone.
pub uninterp spec fn ymd_text_of(y: int, m: int, d: int) -> Seq<char>;

/// Relies on `chrono::NaiveDate::from_ymd_opt` (which accepts every valid
/// date in the supported year range) and `format` with `"%Y-%m-%d"`: the
/// text depends on the date alone; the year prints zero-padded to at least
/// four digits, with a sign only outside `0..=9999`, so the whole text has
/// at least ten characters and starts with a digit or a sign.
#[verifier::external_body]
pub fn format_ymd(d: &Date) -> (r: String)
    requires
        valid_date(*d),
    ensures
        r@ == ymd_text_of(d.year as int, d.month as int, d.day as int),
        r@.len() >= 10,
        r@[0] == '-' || r@[0] == '+' || ('0' <= r@[0] && r@[0] <= '9'),
{
    let nd = chrono::NaiveDate::from_ymd_opt(d.year, d.month as u32, d.day as u32).unwrap();
    nd.format("%Y-%m-%d").to_string()
}

/// Relies on `chrono::Local::now` and `date_naive`: the current calendar
/// date in the local time zone. Only validity holds of every outcome.
#[verifier::external_body]
pub fn today() -> (r: Date)
    ensures
        valid_date(r),
{
    let d = chrono::Local::now().date_naive();
    Date { year: d.year(), month: d.month() as u8, day: d.day() as u8 }
}

} // verus!
