//! The start of an event: a whole day, or a minute of a day.

use std::cmp::Ordering;
use vstd::prelude::*;
use vstd::std_specs::cmp::PartialOrdSpecImpl;
use crate::calendar::civil::{is_valid_date, is_valid_time, valid_date, valid_time};
use crate::calendar::notation::{
    date_text, date_time_text, read_date, read_date_time, read_field_date, scan_date,
    scan_date_time, scan_field_date, write_date, write_date_time, FIELD_MINUTE_PATTERN,
    MINUTE_PATTERN,
};

verus! {

/// A whole day (year, month, day), or a minute of a day (year, month, day,
/// hour, minute).
#[derive(Debug, Clone, Copy, PartialEq, Eq, Structural)]
pub enum DateOrDateTime {
    Date(i32, u32, u32),
    DateTime(i32, u32, u32, u32, u32),
}

/// A text is neither a day nor a minute of a day.
#[derive(Debug, Clone, Copy, PartialEq, Eq, Structural)]
pub struct DecodeError;

/// `a` is an earlier day than `b`, both as (year, month, day).
pub open spec fn day_precedes(a: (i32, u32, u32), b: (i32, u32, u32)) -> bool {
    a.0 < b.0 || (a.0 == b.0 && (a.1 < b.1 || (a.1 == b.1 && a.2 < b.2)))
}

/// `a` is an earlier minute than `b`, both as (hour, minute).
pub open spec fn time_precedes(a: (u32, u32), b: (u32, u32)) -> bool {
    a.0 < b.0 || (a.0 == b.0 && a.1 < b.1)
}

/// The two-step reading of a kept text: the day where the text reads as a day,
/// else the minute where it reads as one, else a failure.
pub open spec fn decoded(
    date: Option<(i32, u32, u32)>,
    date_time: Option<(i32, u32, u32, u32, u32)>,
) -> Result<DateOrDateTime, DecodeError> {
    match date {
        Some(d) => Ok(DateOrDateTime::Date(d.0, d.1, d.2)),
        None => match date_time {
            Some(t) => Ok(DateOrDateTime::DateTime(t.0, t.1, t.2, t.3, t.4)),
            None => Err(DecodeError),
        },
    }
}

impl DateOrDateTime {
    /// The day exists in the calendar, and so does the minute, if there is one.
    pub open spec fn wf(self) -> bool {
        match self {
            DateOrDateTime::Date(y, m, d) => valid_date(y as int, m as int, d as int),
            DateOrDateTime::DateTime(y, m, d, h, mi) => valid_date(y as int, m as int, d as int)
                && valid_time(h as int, mi as int),
        }
    }

    /// The day, as (year, month, day).
    pub open spec fn day(self) -> (i32, u32, u32) {
        match self {
            DateOrDateTime::Date(y, m, d) => (y, m, d),
            DateOrDateTime::DateTime(y, m, d, _, _) => (y, m, d),
        }
    }

    /// The minute of the day as (hour, minute), if there is one.
    pub open spec fn time(self) -> Option<(u32, u32)> {
        match self {
            DateOrDateTime::Date(_, _, _) => None,
            DateOrDateTime::DateTime(_, _, _, h, mi) => Some((h, mi)),
        }
    }

    /// The written form: `DD.MM.YYYY` for a day, `DD.MM.YYYY - HH:MM` for a minute.
    pub open spec fn text(self) -> Seq<char> {
        match self {
            DateOrDateTime::Date(y, m, d) => date_text(y as int, m as int, d as int),
            DateOrDateTime::DateTime(y, m, d, h, mi) => date_time_text(
                y as int,
                m as int,
                d as int,
                h as int,
                mi as int,
            ),
        }
    }

    /// What reading a kept text gives: the two-step reading of what chrono
    /// makes of it as a day and as a minute.
    pub open spec fn read(text: Seq<char>) -> Result<Self, DecodeError> {
        decoded(read_date(text), read_date_time(text, MINUTE_PATTERN@))
    }

    /// `self` comes before `other`: on an earlier day, or on the same day at an
    /// earlier minute where both have one. A whole day comes neither before nor
    /// after a minute of that day.
    pub open spec fn strictly_before(self, other: Self) -> bool {
        day_precedes(self.day(), other.day()) || (self.day() == other.day() && match (
            self.time(),
            other.time(),
        ) {
            (Some(s), Some(o)) => time_precedes(s, o),
            _ => false,
        })
    }

    /// The order of two starts. `Equal` says that neither comes before the
    /// other, not that they are the same value.
    pub open spec fn compare_spec(self, other: Self) -> Ordering {
        if self.strictly_before(other) {
            Ordering::Less
        } else if other.strictly_before(self) {
            Ordering::Greater
        } else {
            Ordering::Equal
        }
    }

    /// The whole day `year`-`month`-`day`, if it exists.
    pub fn date(year: i32, month: u32, day: u32) -> (r: Option<Self>)
        ensures
            r == if valid_date(year as int, month as int, day as int) {
                Some(DateOrDateTime::Date(year, month, day))
            } else {
                None
            },
    {
        if is_valid_date(year, month, day) {
            Some(DateOrDateTime::Date(year, month, day))
        } else {
            None
        }
    }

    /// The minute `hour`:`minute` of the day `year`-`month`-`day`, if it exists.
    pub fn date_time(year: i32, month: u32, day: u32, hour: u32, minute: u32) -> (r: Option<Self>)
        ensures
            r == if valid_date(year as int, month as int, day as int) && valid_time(
                hour as int,
                minute as int,
            ) {
                Some(DateOrDateTime::DateTime(year, month, day, hour, minute))
            } else {
                None
            },
    {
        if is_valid_date(year, month, day) && is_valid_time(hour, minute) {
            Some(DateOrDateTime::DateTime(year, month, day, hour, minute))
        } else {
            None
        }
    }

    /// Decides `wf`.
    pub fn is_valid(&self) -> (r: bool)
        ensures
            r == self.wf(),
    {
        match *self {
            DateOrDateTime::Date(y, m, d) => is_valid_date(y, m, d),
            DateOrDateTime::DateTime(y, m, d, h, mi) => is_valid_date(y, m, d) && is_valid_time(
                h,
                mi,
            ),
        }
    }

    /// Writes the value as `DD.MM.YYYY` or `DD.MM.YYYY - HH:MM`.
    pub fn to_string(&self) -> (r: String)
        requires
            self.wf(),
        ensures
            r@ == self.text(),
    {
        match *self {
            DateOrDateTime::Date(y, m, d) => write_date(y, m, d),
            DateOrDateTime::DateTime(y, m, d, h, mi) => write_date_time(y, m, d, h, mi),
        }
    }

    /// Makes a value of what was read from a text as a day and as a minute:
    /// the day wins, and without either the text is refused.
    pub fn from_readings(
        date: Option<(i32, u32, u32)>,
        date_time: Option<(i32, u32, u32, u32, u32)>,
    ) -> (r: Result<Self, DecodeError>)
        ensures
            r == decoded(date, date_time),
    {
        match date {
            Some((y, m, d)) => Ok(DateOrDateTime::Date(y, m, d)),
            None => match date_time {
                Some((y, m, d, h, mi)) => Ok(DateOrDateTime::DateTime(y, m, d, h, mi)),
                None => Err(DecodeError),
            },
        }
    }

    /// Reads a kept text: first as a day, then as a minute of a day.
    ///
    /// What `to_string` wrote is read back as the value it was written from.
    pub fn parse(text: &str) -> (r: Result<Self, DecodeError>)
        ensures
            r == Self::read(text@),
            r matches Ok(v) ==> v.wf(),
            forall|v: Self| v.wf() && text@ == #[trigger] v.text() ==> r == Ok::<Self, DecodeError>(v),
    {
        let date = scan_date(text);
        let date_time = if date.is_none() {
            scan_date_time(text, MINUTE_PATTERN)
        } else {
            None
        };
        Self::from_readings(date, date_time)
    }

    /// Reads the value of a form field: of a date field (`YYYY-MM-DD`) where
    /// the event lasts all day, else of a field for a local date and time
    /// (`YYYY-MM-DDTHH:MM`).
    pub fn from_field(all_day: bool, text: &str) -> (r: Result<Self, DecodeError>)
        ensures
            r == if all_day {
                decoded(read_field_date(text@), None)
            } else {
                decoded(None, read_date_time(text@, FIELD_MINUTE_PATTERN@))
            },
            r matches Ok(v) ==> v.wf(),
    {
        if all_day {
            Self::from_readings(scan_field_date(text), None)
        } else {
            Self::from_readings(None, scan_date_time(text, FIELD_MINUTE_PATTERN))
        }
    }

    /// Decides `strictly_before`.
    pub fn starts_before(&self, other: &Self) -> (r: bool)
        ensures
            r == self.strictly_before(*other),
    {
        let (y1, m1, d1) = match *self {
            DateOrDateTime::Date(y, m, d) => (y, m, d),
            DateOrDateTime::DateTime(y, m, d, _, _) => (y, m, d),
        };
        let (y2, m2, d2) = match *other {
            DateOrDateTime::Date(y, m, d) => (y, m, d),
            DateOrDateTime::DateTime(y, m, d, _, _) => (y, m, d),
        };
        if y1 != y2 {
            y1 < y2
        } else if m1 != m2 {
            m1 < m2
        } else if d1 != d2 {
            d1 < d2
        } else {
            match (*self, *other) {
                (DateOrDateTime::DateTime(_, _, _, h1, mi1), DateOrDateTime::DateTime(_, _, _, h2, mi2)) => {
                    h1 < h2 || (h1 == h2 && mi1 < mi2)
                },
                _ => false,
            }
        }
    }

    /// The order of two starts: by day, and on the same day by minute where
    /// both have one.
    pub fn compare(&self, other: &Self) -> (r: Ordering)
        ensures
            r == self.compare_spec(*other),
    {
        if self.starts_before(other) {
            Ordering::Less
        } else if other.starts_before(self) {
            Ordering::Greater
        } else {
            Ordering::Equal
        }
    }
}

impl PartialOrd for DateOrDateTime {
    fn partial_cmp(&self, other: &Self) -> (r: Option<Ordering>) {
        Some(self.compare(other))
    }
}

impl PartialOrdSpecImpl for DateOrDateTime {
    open spec fn obeys_partial_cmp_spec() -> bool {
        true
    }

    open spec fn partial_cmp_spec(&self, other: &Self) -> Option<Ordering> {
        Some(self.compare_spec(*other))
    }
}

/// Two starts compare in one direction as the reverse of the other.
pub proof fn lemma_compare_reverses(a: DateOrDateTime, b: DateOrDateTime)
    ensures
        a.compare_spec(b) == Ordering::Less <==> b.compare_spec(a) == Ordering::Greater,
        a.compare_spec(b) == Ordering::Greater <==> b.compare_spec(a) == Ordering::Less,
        a.compare_spec(b) == Ordering::Equal <==> b.compare_spec(a) == Ordering::Equal,
{
}

/// A start compares equal to itself.
pub proof fn lemma_compare_reflexive(a: DateOrDateTime)
    ensures
        a.compare_spec(a) == Ordering::Equal,
{
}

/// Coming before is transitive, though comparing equal is not.
pub proof fn lemma_strictly_before_transitive(
    a: DateOrDateTime,
    b: DateOrDateTime,
    c: DateOrDateTime,
)
    requires
        a.strictly_before(b),
        b.strictly_before(c),
    ensures
        a.strictly_before(c),
{
}

} // verus!
