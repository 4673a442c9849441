use calendula::calendar::civil::{is_valid_date, is_valid_time, leap_year, MAX_YEAR, MIN_YEAR};
use calendula::calendar::date_or_datetime::{DateOrDateTime, DecodeError};
use std::cmp::Ordering;

fn round_trips(v: DateOrDateTime) {
    assert!(v.is_valid());
    let text = v.to_string();
    assert_eq!(DateOrDateTime::parse(&text), Ok(v));
}

#[test]
fn a_day_is_written_with_dots() {
    assert_eq!(DateOrDateTime::Date(2024, 5, 1).to_string(), "01.05.2024");
    assert_eq!(DateOrDateTime::Date(1999, 12, 31).to_string(), "31.12.1999");
}

#[test]
fn a_minute_is_written_after_the_day() {
    assert_eq!(DateOrDateTime::DateTime(2024, 6, 1, 10, 0).to_string(), "01.06.2024 - 10:00");
    assert_eq!(DateOrDateTime::DateTime(2024, 5, 1, 9, 5).to_string(), "01.05.2024 - 09:05");
    assert_eq!(DateOrDateTime::DateTime(2024, 12, 31, 23, 59).to_string(), "31.12.2024 - 23:59");
}

#[test]
fn a_short_year_is_padded_to_four_digits() {
    assert_eq!(DateOrDateTime::Date(5, 1, 1).to_string(), "01.01.0005");
    assert_eq!(DateOrDateTime::Date(0, 2, 29).to_string(), "29.02.0000");
    assert_eq!(DateOrDateTime::Date(987, 10, 3).to_string(), "03.10.0987");
    assert_eq!(DateOrDateTime::Date(9999, 1, 1).to_string(), "01.01.9999");
}

#[test]
fn a_year_outside_four_digits_carries_a_sign() {
    assert_eq!(DateOrDateTime::Date(10000, 1, 1).to_string(), "01.01.+10000");
    assert_eq!(DateOrDateTime::Date(12345, 6, 7).to_string(), "07.06.+12345");
    assert_eq!(DateOrDateTime::Date(MAX_YEAR, 12, 31).to_string(), "31.12.+262142");
    assert_eq!(DateOrDateTime::Date(-1, 1, 1).to_string(), "01.01.-0001");
    assert_eq!(DateOrDateTime::Date(-9999, 3, 4).to_string(), "04.03.-9999");
    assert_eq!(DateOrDateTime::Date(-10000, 3, 4).to_string(), "04.03.-10000");
    assert_eq!(DateOrDateTime::Date(MIN_YEAR, 1, 1).to_string(), "01.01.-262143");
    assert_eq!(
        DateOrDateTime::DateTime(-44, 3, 15, 11, 30).to_string(),
        "15.03.-0044 - 11:30"
    );
}

#[test]
fn what_is_written_is_read_back() {
    round_trips(DateOrDateTime::Date(2024, 5, 1));
    round_trips(DateOrDateTime::DateTime(2024, 5, 1, 9, 0));
    round_trips(DateOrDateTime::DateTime(2024, 6, 1, 10, 0));
    round_trips(DateOrDateTime::Date(2024, 2, 29));
    round_trips(DateOrDateTime::DateTime(1970, 1, 1, 0, 0));
    round_trips(DateOrDateTime::DateTime(2038, 12, 31, 23, 59));
}

#[test]
fn what_is_written_is_read_back_in_every_kind_of_year() {
    for year in [MIN_YEAR, -10000, -9999, -1000, -999, -1, 0, 1, 999, 1000, 9999, 10000, 99999, MAX_YEAR] {
        round_trips(DateOrDateTime::Date(year, 1, 1));
        round_trips(DateOrDateTime::Date(year, 12, 31));
        round_trips(DateOrDateTime::DateTime(year, 7, 4, 0, 0));
        round_trips(DateOrDateTime::DateTime(year, 10, 10, 23, 59));
    }
}

#[test]
fn every_day_and_minute_of_a_leap_year_is_read_back() {
    for month in 1..=12u32 {
        for day in 1..=31u32 {
            if let Some(v) = DateOrDateTime::date(2024, month, day) {
                round_trips(v);
                round_trips(DateOrDateTime::DateTime(2024, month, day, day % 24, (month * 5) % 60));
            }
        }
    }
    for hour in 0..24u32 {
        for minute in 0..60u32 {
            round_trips(DateOrDateTime::DateTime(2023, 3, 9, hour, minute));
        }
    }
}

#[test]
fn a_text_that_is_no_date_is_refused() {
    assert_eq!(DateOrDateTime::parse("not-a-date"), Err(DecodeError));
    assert_eq!(DateOrDateTime::parse(""), Err(DecodeError));
    assert_eq!(DateOrDateTime::parse("2024-05-01"), Err(DecodeError));
    assert_eq!(DateOrDateTime::parse("01.05.2024 - "), Err(DecodeError));
    assert_eq!(DateOrDateTime::parse("01.05.2024 - 09"), Err(DecodeError));
    assert_eq!(DateOrDateTime::parse("01.05.2024 - 09:00:00"), Err(DecodeError));
    assert_eq!(DateOrDateTime::parse("01.05.2024x"), Err(DecodeError));
}

#[test]
fn a_day_that_does_not_exist_is_refused() {
    assert_eq!(DateOrDateTime::parse("31.04.2024"), Err(DecodeError));
    assert_eq!(DateOrDateTime::parse("29.02.2023"), Err(DecodeError));
    assert_eq!(DateOrDateTime::parse("00.01.2024"), Err(DecodeError));
    assert_eq!(DateOrDateTime::parse("01.13.2024"), Err(DecodeError));
    assert_eq!(DateOrDateTime::parse("01.05.2024 - 24:00"), Err(DecodeError));
    assert_eq!(DateOrDateTime::parse("01.05.2024 - 09:60"), Err(DecodeError));
    assert_eq!(DateOrDateTime::parse("01.01.+262143"), Err(DecodeError));
}

#[test]
fn a_kept_text_is_read_as_a_day_first() {
    assert_eq!(DateOrDateTime::parse("01.05.2024"), Ok(DateOrDateTime::Date(2024, 5, 1)));
    assert_eq!(
        DateOrDateTime::parse("01.05.2024 - 09:00"),
        Ok(DateOrDateTime::DateTime(2024, 5, 1, 9, 0))
    );
    assert_eq!(DateOrDateTime::parse("29.02.2024"), Ok(DateOrDateTime::Date(2024, 2, 29)));
}

#[test]
fn reading_does_not_insist_on_padding() {
    assert_eq!(DateOrDateTime::parse("1.5.2024"), Ok(DateOrDateTime::Date(2024, 5, 1)));
    assert_eq!(
        DateOrDateTime::parse("1.5.2024 - 9:5"),
        Ok(DateOrDateTime::DateTime(2024, 5, 1, 9, 5))
    );
    assert_eq!(
        DateOrDateTime::parse("01.05.2024-09:00"),
        Ok(DateOrDateTime::DateTime(2024, 5, 1, 9, 0))
    );
}

#[test]
fn readings_are_tried_in_turn() {
    assert_eq!(
        DateOrDateTime::from_readings(Some((2024, 5, 1)), Some((2024, 5, 1, 9, 0))),
        Ok(DateOrDateTime::Date(2024, 5, 1))
    );
    assert_eq!(
        DateOrDateTime::from_readings(Some((2024, 5, 1)), None),
        Ok(DateOrDateTime::Date(2024, 5, 1))
    );
    assert_eq!(
        DateOrDateTime::from_readings(None, Some((2024, 5, 1, 9, 0))),
        Ok(DateOrDateTime::DateTime(2024, 5, 1, 9, 0))
    );
    assert_eq!(DateOrDateTime::from_readings(None, None), Err(DecodeError));
}

#[test]
fn a_date_field_gives_a_whole_day() {
    assert_eq!(DateOrDateTime::from_field(true, "2024-05-01"), Ok(DateOrDateTime::Date(2024, 5, 1)));
    assert_eq!(DateOrDateTime::from_field(true, "2024-02-30"), Err(DecodeError));
    assert_eq!(DateOrDateTime::from_field(true, "2024-06-01T10:00"), Err(DecodeError));
    assert_eq!(DateOrDateTime::from_field(true, "01.05.2024"), Err(DecodeError));
    assert_eq!(DateOrDateTime::from_field(true, ""), Err(DecodeError));
}

#[test]
fn a_date_time_field_gives_a_minute() {
    assert_eq!(
        DateOrDateTime::from_field(false, "2024-06-01T10:00"),
        Ok(DateOrDateTime::DateTime(2024, 6, 1, 10, 0))
    );
    assert_eq!(DateOrDateTime::from_field(false, "2024-05-01"), Err(DecodeError));
    assert_eq!(DateOrDateTime::from_field(false, "2024-06-01T25:00"), Err(DecodeError));
    assert_eq!(DateOrDateTime::from_field(false, "01.06.2024 - 10:00"), Err(DecodeError));
}

#[test]
fn a_day_ties_with_a_minute_of_that_day() {
    let day = DateOrDateTime::Date(2024, 5, 1);
    let minute = DateOrDateTime::DateTime(2024, 5, 1, 9, 0);
    assert_eq!(day.compare(&minute), Ordering::Equal);
    assert_eq!(minute.compare(&day), Ordering::Equal);
    assert_ne!(day, minute);
    assert_eq!(day.partial_cmp(&minute), Some(Ordering::Equal));
}

#[test]
fn days_are_ordered_by_year_then_month_then_day() {
    let a = DateOrDateTime::Date(2024, 5, 1);
    assert_eq!(a.compare(&DateOrDateTime::Date(2024, 5, 2)), Ordering::Less);
    assert_eq!(a.compare(&DateOrDateTime::Date(2024, 4, 30)), Ordering::Greater);
    assert_eq!(a.compare(&DateOrDateTime::Date(2023, 12, 31)), Ordering::Greater);
    assert_eq!(a.compare(&DateOrDateTime::Date(2025, 1, 1)), Ordering::Less);
    assert_eq!(a.compare(&DateOrDateTime::Date(-2024, 5, 1)), Ordering::Greater);
    assert_eq!(a.compare(&a), Ordering::Equal);
}

#[test]
fn minutes_of_a_day_are_ordered_by_hour_then_minute() {
    let a = DateOrDateTime::DateTime(2024, 5, 1, 9, 30);
    assert_eq!(a.compare(&DateOrDateTime::DateTime(2024, 5, 1, 9, 31)), Ordering::Less);
    assert_eq!(a.compare(&DateOrDateTime::DateTime(2024, 5, 1, 10, 0)), Ordering::Less);
    assert_eq!(a.compare(&DateOrDateTime::DateTime(2024, 5, 1, 9, 29)), Ordering::Greater);
    assert_eq!(a.compare(&DateOrDateTime::DateTime(2024, 5, 1, 8, 59)), Ordering::Greater);
    assert_eq!(a.compare(&DateOrDateTime::DateTime(2024, 5, 1, 9, 30)), Ordering::Equal);
}

#[test]
fn the_day_decides_between_a_day_and_a_minute() {
    let day = DateOrDateTime::Date(2024, 5, 2);
    assert_eq!(day.compare(&DateOrDateTime::DateTime(2024, 5, 1, 23, 59)), Ordering::Greater);
    assert_eq!(day.compare(&DateOrDateTime::DateTime(2024, 5, 3, 0, 0)), Ordering::Less);
    assert_eq!(DateOrDateTime::DateTime(2024, 5, 1, 23, 59).compare(&day), Ordering::Less);
    assert_eq!(DateOrDateTime::DateTime(2024, 5, 3, 0, 0).compare(&day), Ordering::Greater);
}

#[test]
fn comparing_one_way_is_the_reverse_of_the_other() {
    let values = [
        DateOrDateTime::Date(2024, 5, 1),
        DateOrDateTime::DateTime(2024, 5, 1, 9, 0),
        DateOrDateTime::DateTime(2024, 5, 1, 10, 0),
        DateOrDateTime::Date(2024, 5, 2),
        DateOrDateTime::DateTime(2023, 12, 31, 23, 59),
        DateOrDateTime::Date(-5, 1, 1),
    ];
    for a in values.iter() {
        assert_eq!(a.compare(a), Ordering::Equal);
        for b in values.iter() {
            assert_eq!(a.compare(b), b.compare(a).reverse());
            assert_eq!(a.starts_before(b), a.compare(b) == Ordering::Less);
            assert_eq!(a < b, a.compare(b) == Ordering::Less);
            assert_eq!(a >= b, a.compare(b) != Ordering::Less);
        }
    }
}

#[test]
fn ties_do_not_chain() {
    let day = DateOrDateTime::Date(2024, 5, 1);
    let nine = DateOrDateTime::DateTime(2024, 5, 1, 9, 0);
    let ten = DateOrDateTime::DateTime(2024, 5, 1, 10, 0);
    assert_eq!(nine.compare(&day), Ordering::Equal);
    assert_eq!(day.compare(&ten), Ordering::Equal);
    assert_eq!(nine.compare(&ten), Ordering::Less);
}

#[test]
fn only_days_of_the_calendar_are_made() {
    assert_eq!(DateOrDateTime::date(2024, 2, 29), Some(DateOrDateTime::Date(2024, 2, 29)));
    assert_eq!(DateOrDateTime::date(2023, 2, 29), None);
    assert_eq!(DateOrDateTime::date(2024, 0, 1), None);
    assert_eq!(DateOrDateTime::date(2024, 13, 1), None);
    assert_eq!(DateOrDateTime::date(2024, 4, 31), None);
    assert_eq!(DateOrDateTime::date(MAX_YEAR + 1, 1, 1), None);
    assert_eq!(DateOrDateTime::date(MIN_YEAR - 1, 1, 1), None);
    assert_eq!(
        DateOrDateTime::date_time(2024, 6, 1, 10, 0),
        Some(DateOrDateTime::DateTime(2024, 6, 1, 10, 0))
    );
    assert_eq!(DateOrDateTime::date_time(2024, 6, 1, 24, 0), None);
    assert_eq!(DateOrDateTime::date_time(2024, 6, 1, 10, 60), None);
    assert_eq!(DateOrDateTime::date_time(2024, 6, 31, 10, 0), None);
    assert!(!DateOrDateTime::Date(2023, 2, 29).is_valid());
    assert!(!DateOrDateTime::DateTime(2024, 6, 1, 24, 0).is_valid());
}

#[test]
fn leap_years_follow_the_gregorian_rule() {
    assert!(leap_year(2024));
    assert!(!leap_year(2023));
    assert!(!leap_year(1900));
    assert!(leap_year(2000));
    assert!(leap_year(0));
    assert!(leap_year(-4));
    assert!(!leap_year(-1));
    assert!(!leap_year(-100));
    assert!(leap_year(-400));
    assert!(!leap_year(i32::MAX));
    assert!(leap_year(i32::MIN));
    assert!(is_valid_date(-4, 2, 29));
    assert!(!is_valid_date(-1, 2, 29));
    assert!(is_valid_date(MIN_YEAR, 1, 1));
    assert!(is_valid_date(MAX_YEAR, 12, 31));
    assert!(is_valid_time(23, 59));
    assert!(!is_valid_time(24, 0));
}

#[test]
fn validity_agrees_with_what_is_written_and_read() {
    for year in [-401, -400, -100, -4, -1, 0, 1, 4, 100, 400, 1900, 2000, 2023, 2024, 2100] {
        for month in 0..=13u32 {
            for day in [0u32, 1, 28, 29, 30, 31, 32] {
                let text = if (0..=9999).contains(&year) {
                    format!("{:02}.{:02}.{:04}", day, month, year)
                } else {
                    format!("{:02}.{:02}.{:+05}", day, month, year)
                };
                let read = DateOrDateTime::parse(&text);
                match DateOrDateTime::date(year, month, day) {
                    Some(v) => assert_eq!(read, Ok(v)),
                    None => assert_eq!(read, Err(DecodeError)),
                }
            }
        }
    }
}
