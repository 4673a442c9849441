//! How days and minutes are written: `DD.MM.YYYY` and `DD.MM.YYYY - HH:MM`.
//!
//! The writing and the reading are chrono's. This file says what the written
//! form is, and holds the calls.

use vstd::prelude::*;
use crate::calendar::civil::{valid_date, valid_time};

verus! {

/// The form in which a day is kept.
pub const DAY_PATTERN: &'static str = "%d.%m.%Y";

/// The form in which a minute of a day is kept.
pub const MINUTE_PATTERN: &'static str = "%d.%m.%Y - %H:%M";

/// The form in which a form field of type `datetime-local` hands over its value.
pub const FIELD_MINUTE_PATTERN: &'static str = "%Y-%m-%dT%H:%M";

/// The decimal digit for `n` in 0..=9.
pub open spec fn digit(n: int) -> char {
    if n == 0 {
        '0'
    } else if n == 1 {
        '1'
    } else if n == 2 {
        '2'
    } else if n == 3 {
        '3'
    } else if n == 4 {
        '4'
    } else if n == 5 {
        '5'
    } else if n == 6 {
        '6'
    } else if n == 7 {
        '7'
    } else if n == 8 {
        '8'
    } else {
        '9'
    }
}

/// `n` in 0..=99 as two digits.
pub open spec fn two_digits(n: int) -> Seq<char> {
    seq![digit(n / 10), digit(n % 10)]
}

/// `n` in 0..=9999 as four digits.
pub open spec fn four_digits(n: int) -> Seq<char> {
    two_digits(n / 100) + two_digits(n % 100)
}

/// `n` in decimal, without leading zeros.
pub open spec fn decimal(n: nat) -> Seq<char>
    decreases n,
{
    if n < 10 {
        seq![digit(n as int)]
    } else {
        decimal(n / 10).push(digit((n % 10) as int))
    }
}

/// A year as it is written: four digits from 0 to 9999, and otherwise a sign
/// followed by at least four digits.
pub open spec fn year_text(year: int) -> Seq<char> {
    if 0 <= year <= 9999 {
        four_digits(year)
    } else if year > 9999 {
        seq!['+'] + decimal(year as nat)
    } else if year >= -9999 {
        seq!['-'] + four_digits(-year)
    } else {
        seq!['-'] + decimal((-year) as nat)
    }
}

/// A day as it is written: `DD.MM.YYYY`.
pub open spec fn date_text(year: int, month: int, day: int) -> Seq<char> {
    two_digits(day) + seq!['.'] + two_digits(month) + seq!['.'] + year_text(year)
}

/// A minute of a day as it is written: `DD.MM.YYYY - HH:MM`.
pub open spec fn date_time_text(year: int, month: int, day: int, hour: int, minute: int) -> Seq<
    char,
> {
    date_text(year, month, day) + seq![' ', '-', ' '] + two_digits(hour) + seq![':']
        + two_digits(minute)
}

/// What `chrono::NaiveDate::parse_from_str` reads from `text` under `DAY_PATTERN`:
/// year, month and day, or `None` where it reports an error.
pub uninterp spec fn read_date(text: Seq<char>) -> Option<(i32, u32, u32)>;

/// What `chrono::NaiveDateTime::parse_from_str` reads from `text` under `pattern`:
/// year, month, day, hour and minute, or `None` where it reports an error.
pub uninterp spec fn read_date_time(text: Seq<char>, pattern: Seq<char>) -> Option<
    (i32, u32, u32, u32, u32),
>;

/// What `str::parse::<chrono::NaiveDate>` reads from `text`: year, month and day,
/// or `None` where it reports an error.
pub uninterp spec fn read_field_date(text: Seq<char>) -> Option<(i32, u32, u32)>;

/// Calls `chrono::NaiveDate::format` with `DAY_PATTERN` on the day that
/// `chrono::NaiveDate::from_ymd_opt` makes of the arguments.
///
/// Trusted: the result is the day and the month, each padded with a zero to two
/// digits, and the year in the form of `year_text`, separated by dots.
#[verifier::external_body]
pub(crate) fn write_date(year: i32, month: u32, day: u32) -> (r: String)
    requires
        valid_date(year as int, month as int, day as int),
    ensures
        r@ == date_text(year as int, month as int, day as int),
{
    let date = chrono::NaiveDate::from_ymd_opt(year, month, day).unwrap();
    date.format(DAY_PATTERN).to_string()
}

/// Calls `chrono::NaiveDateTime::format` with `MINUTE_PATTERN` on the minute that
/// `chrono::NaiveDate::from_ymd_opt` and `chrono::NaiveDate::and_hms_opt` make of
/// the arguments, with zero seconds.
///
/// Trusted: the result is the day as `write_date` gives it, then ` - `, then
/// the hour and the minute, each padded with a zero to two digits, separated
/// by a colon.
#[verifier::external_body]
pub(crate) fn write_date_time(year: i32, month: u32, day: u32, hour: u32, minute: u32) -> (r:
    String)
    requires
        valid_date(year as int, month as int, day as int),
        valid_time(hour as int, minute as int),
    ensures
        r@ == date_time_text(year as int, month as int, day as int, hour as int, minute as int),
{
    let date = chrono::NaiveDate::from_ymd_opt(year, month, day).unwrap();
    date.and_hms_opt(hour, minute, 0).unwrap().format(MINUTE_PATTERN).to_string()
}

/// Calls `chrono::NaiveDate::parse_from_str` with `DAY_PATTERN`.
///
/// Trusted: the outcome depends on the text alone; a day that is read exists in
/// the calendar; a text that `date_text` gives for an existing day is read as
/// that day; and a text that `date_time_text` gives is refused, because
/// characters are left over after the year.
#[verifier::external_body]
pub(crate) fn scan_date(text: &str) -> (r: Option<(i32, u32, u32)>)
    ensures
        r == read_date(text@),
        r matches Some(d) ==> valid_date(d.0 as int, d.1 as int, d.2 as int),
        forall|y: i32, m: u32, d: u32|
            valid_date(y as int, m as int, d as int) && text@ == #[trigger] date_text(
                y as int,
                m as int,
                d as int,
            ) ==> r == Some((y, m, d)),
        forall|y: i32, m: u32, d: u32, h: u32, mi: u32|
            valid_date(y as int, m as int, d as int) && valid_time(h as int, mi as int) && text@
                == #[trigger] date_time_text(y as int, m as int, d as int, h as int, mi as int)
                ==> r is None,
{
    let date = chrono::NaiveDate::parse_from_str(text, DAY_PATTERN).ok()?;
    Some((chrono::Datelike::year(&date), chrono::Datelike::month(&date), chrono::Datelike::day(&date)))
}

/// Calls `chrono::NaiveDateTime::parse_from_str` with `pattern`.
///
/// Trusted: the outcome depends on the text and the pattern alone; a day and a
/// time that are read exist; and under `MINUTE_PATTERN` a text that
/// `date_time_text` gives for an existing minute is read as that minute. The
/// seconds of what is read are not handed on: with a pattern that names no
/// seconds, chrono sets them to zero.
#[verifier::external_body]
pub(crate) fn scan_date_time(text: &str, pattern: &str) -> (r: Option<(i32, u32, u32, u32, u32)>)
    ensures
        r == read_date_time(text@, pattern@),
        r matches Some(t) ==> valid_date(t.0 as int, t.1 as int, t.2 as int) && valid_time(
            t.3 as int,
            t.4 as int,
        ),
        pattern@ == MINUTE_PATTERN@ ==> forall|y: i32, m: u32, d: u32, h: u32, mi: u32|
            valid_date(y as int, m as int, d as int) && valid_time(h as int, mi as int) && text@
                == #[trigger] date_time_text(y as int, m as int, d as int, h as int, mi as int)
                ==> r == Some((y, m, d, h, mi)),
{
    let t = chrono::NaiveDateTime::parse_from_str(text, pattern).ok()?;
    let (year, month, day) = (chrono::Datelike::year(&t), chrono::Datelike::month(&t), chrono::Datelike::day(&t));
    Some((year, month, day, chrono::Timelike::hour(&t), chrono::Timelike::minute(&t)))
}

/// Calls `str::parse::<chrono::NaiveDate>`, which reads `YYYY-MM-DD`.
///
/// Trusted: the outcome depends on the text alone, and a day that is read exists
/// in the calendar.
#[verifier::external_body]
pub(crate) fn scan_field_date(text: &str) -> (r: Option<(i32, u32, u32)>)
    ensures
        r == read_field_date(text@),
        r matches Some(d) ==> valid_date(d.0 as int, d.1 as int, d.2 as int),
{
    let date = text.parse::<chrono::NaiveDate>().ok()?;
    Some((chrono::Datelike::year(&date), chrono::Datelike::month(&date), chrono::Datelike::day(&date)))
}

} // verus!
