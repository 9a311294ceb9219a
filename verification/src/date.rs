//! Calendar days, counted as chrono counts them from the common era
//! (0001-01-01 is day 1), and the few calendar services the planner needs.
use vstd::prelude::*;
use chrono::Datelike;
use crate::text::lowercased;

verus! {

/// The first day chrono can represent (January 1 of year -262143).
pub const MIN_DAY: i32 = -95746129i32;

/// The last day chrono can represent (December 31 of year 262142).
pub const MAX_DAY: i32 = 95745399i32;

/// A day number that chrono can turn into a calendar date.
pub open spec fn day_in_range(d: int) -> bool {
    MIN_DAY <= d <= MAX_DAY
}

/// The format in which dates are shown and typed: month/day/year.
pub open spec fn date_format() -> Seq<char> {
    seq!['%', 'm', '/', '%', 'd', '/', '%', 'Y']
}

/// The format of a month's abbreviated name, as the chart's header shows it.
pub open spec fn month_format() -> Seq<char> {
    seq!['%', 'b']
}

/// A day of the years 1 to 9999, whose year is written with four digits.
pub open spec fn four_digit_year(d: int) -> bool {
    1 <= d <= 3652059
}

/// Adds `n` days to day `d`, as `NaiveDate + TimeDelta::days(n)` does;
/// `None` where that addition panics, because the result leaves the
/// calendar.
pub fn add_days(d: i32, n: i64) -> (r: Option<i32>)
    requires
        day_in_range(d as int),
    ensures
        day_in_range(d + n) ==> r == Some((d + n) as i32),
        !day_in_range(d + n) ==> r is None,
{
    if n > (MAX_DAY as i64) - (d as i64) || n < (MIN_DAY as i64) - (d as i64) {
        None
    } else {
        Some((d as i64 + n) as i32)
    }
}

/// What chrono's `NaiveDate::parse_from_str(text, format)` yields, as a day number.
pub uninterp spec fn parsed_date(text: Seq<char>, format: Seq<char>) -> Option<i32>;

/// What chrono's `NaiveDate::format(format)` writes for the given day.
pub uninterp spec fn formatted_date(day: i32, format: Seq<char>) -> Seq<char>;

/// Calls `chrono::NaiveDate::parse_from_str`. Trusted: the result is the
/// parsed day, named by `parsed_date`, and a parsed date is always a date
/// chrono can represent.
#[verifier::external_body]
pub(crate) fn parse_date(text: &Vec<char>, format: &str) -> (r: Option<i32>)
    ensures
        r == parsed_date(text@, format@),
        r matches Some(d) ==> day_in_range(d as int),
{
    let s: String = text.iter().collect();
    match chrono::NaiveDate::parse_from_str(&s, format) {
        Ok(date) => Some(date.num_days_from_ce()),
        Err(_) => None,
    }
}

/// Calls `chrono::NaiveDate::format` on the date with the given day number.
/// Trusted: the text is named by `formatted_date`. The day must be one that
/// chrono represents, and the format one of the planner's own (the date,
/// or the month's abbreviated name), which chrono always renders. For a year from 1 to 9999, chrono documents `%m`, `%d` and `%Y`
/// as the month, day and year zero-padded to two, two and four digits, and
/// the same specifiers as read by its parser: the text is ten characters of
/// digits and slashes, `NaiveDate::parse_from_str` with the same format
/// reads the day back, and `str::to_lowercase`, which leaves characters
/// without case as they are, leaves it unchanged.
#[verifier::external_body]
pub(crate) fn format_date(day: i32, format: &str) -> (r: Vec<char>)
    requires
        day_in_range(day as int),
        format@ == date_format() || format@ == month_format(),
    ensures
        r@ == formatted_date(day, format@),
        format@ == date_format() && four_digit_year(day as int) ==> r@.len() == 10,
        format@ == date_format() && four_digit_year(day as int) ==> parsed_date(r@, format@) == Some(day),
        format@ == date_format() && four_digit_year(day as int) ==> lowercased(r@) == r@,
{
    let date = chrono::NaiveDate::from_num_days_from_ce_opt(day).unwrap();
    date.format(format).to_string().chars().collect()
}

/// What chrono's `Datelike::month` gives for the date with this day number.
pub uninterp spec fn month_of(day: i32) -> u32;

/// What chrono's `Datelike::day` gives for the date with this day number.
pub uninterp spec fn day_of_month(day: i32) -> u32;

/// Calls `chrono::Datelike::month` on the date with the given day number.
/// Trusted: the month is named by `month_of`, and chrono documents it as a
/// number from 1 to 12. The day must be one that chrono represents.
#[verifier::external_body]
pub(crate) fn calendar_month(day: i32) -> (r: u32)
    requires
        day_in_range(day as int),
    ensures
        r == month_of(day),
        1 <= r <= 12,
{
    chrono::NaiveDate::from_num_days_from_ce_opt(day).unwrap().month()
}

/// Calls `chrono::Datelike::day` on the date with the given day number.
/// Trusted: the day of the month is named by `day_of_month`, and chrono
/// documents it as a number from 1 to 31. The day must be one that chrono
/// represents.
#[verifier::external_body]
pub(crate) fn calendar_day(day: i32) -> (r: u32)
    requires
        day_in_range(day as int),
    ensures
        r == day_of_month(day),
        1 <= r <= 31,
{
    chrono::NaiveDate::from_num_days_from_ce_opt(day).unwrap().day()
}

/// Calls `chrono::Local::now().date_naive()`: today's date in the local
/// time zone. Trusted only to return a day chrono can represent; which day
/// it is depends on the clock.
#[verifier::external_body]
pub(crate) fn local_today() -> (r: i32)
    ensures
        day_in_range(r as int),
{
    chrono::Local::now().date_naive().num_days_from_ce()
}

} // verus!
