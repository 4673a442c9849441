//! The proleptic Gregorian calendar, as far as this crate needs it:
//! which triples of year, month and day name a day.

use vstd::arithmetic::div_mod::lemma_mod_multiples_vanish;
use vstd::prelude::*;

verus! {

/// The earliest year a date can have: the first year of chrono's dates.
pub const MIN_YEAR: i32 = -262143;

/// The latest year a date can have: the last year of chrono's dates.
pub const MAX_YEAR: i32 = 262142;

/// Every fourth year is a leap year, except the centuries that 400 does not divide.
/// Year 0 (1 BCE) is a leap year.
pub open spec fn is_leap_year(year: int) -> bool {
    year % 4 == 0 && (year % 100 != 0 || year % 400 == 0)
}

/// The number of days of a month, for `month` in 1..=12.
pub open spec fn days_in_month(year: int, month: int) -> int {
    if month == 2 {
        if is_leap_year(year) {
            29
        } else {
            28
        }
    } else if month == 4 || month == 6 || month == 9 || month == 11 {
        30
    } else {
        31
    }
}

/// `year`, `month`, `day` name a day of the calendar, within the supported years.
pub open spec fn valid_date(year: int, month: int, day: int) -> bool {
    &&& MIN_YEAR <= year <= MAX_YEAR
    &&& 1 <= month <= 12
    &&& 1 <= day <= days_in_month(year, month)
}

/// `hour`, `minute` name a minute of a day.
pub open spec fn valid_time(hour: int, minute: int) -> bool {
    0 <= hour < 24 && 0 <= minute < 60
}

/// Decides `is_leap_year`.
pub fn leap_year(year: i32) -> (r: bool)
    ensures
        r == is_leap_year(year as int),
{
    // 4_000_000_000 is a multiple of 400, so the shifted year has the same remainders.
    let shifted: u64 = (year as i64 + 4_000_000_000) as u64;
    proof {
        let y = year as int;
        assert(shifted as int == y + 4_000_000_000);
        lemma_mod_multiples_vanish(1_000_000_000, y, 4);
        lemma_mod_multiples_vanish(40_000_000, y, 100);
        lemma_mod_multiples_vanish(10_000_000, y, 400);
        assert(4 * 1_000_000_000 + y == shifted as int);
        assert(100 * 40_000_000 + y == shifted as int);
        assert(400 * 10_000_000 + y == shifted as int);
    }
    shifted % 4 == 0 && (shifted % 100 != 0 || shifted % 400 == 0)
}

/// Decides `valid_date`.
pub fn is_valid_date(year: i32, month: u32, day: u32) -> (r: bool)
    ensures
        r == valid_date(year as int, month as int, day as int),
{
    if year < MIN_YEAR || year > MAX_YEAR || month < 1 || month > 12 || day < 1 {
        return false;
    }
    let last: u32 = if month == 2 {
        if leap_year(year) {
            29
        } else {
            28
        }
    } else if month == 4 || month == 6 || month == 9 || month == 11 {
        30
    } else {
        31
    };
    day <= last
}

/// Decides `valid_time`.
pub fn is_valid_time(hour: u32, minute: u32) -> (r: bool)
    ensures
        r == valid_time(hour as int, minute as int),
{
    hour < 24 && minute < 60
}

} // verus!
