//! The calendar: its entries and the order in which they are shown.

use vstd::prelude::*;
use crate::calendar::date_or_datetime::DateOrDateTime;

pub use crate::calendar::sorting::sort_by_datetime;

pub mod civil;
pub mod date_or_datetime;
pub mod notation;
pub mod sorting;
pub mod store;

verus! {

/// One event of the calendar.
#[derive(Debug, PartialEq, Eq)]
pub struct CalendarEntry {
    id: i32,
    title: String,
    start: DateOrDateTime,
    end: Option<DateOrDateTime>,
}

/// What an entry holds.
pub ghost struct EntryView {
    pub id: int,
    pub title: Seq<char>,
    pub start: DateOrDateTime,
    pub end: Option<DateOrDateTime>,
}

impl View for CalendarEntry {
    type V = EntryView;

    closed spec fn view(&self) -> EntryView {
        EntryView { id: self.id as int, title: self.title@, start: self.start, end: self.end }
    }
}

impl Clone for CalendarEntry {
    fn clone(&self) -> (r: Self)
        ensures
            r@ == self@,
    {
        CalendarEntry { id: self.id, title: self.title.clone(), start: self.start, end: self.end }
    }
}

impl CalendarEntry {
    /// The start exists in the calendar, and so does the end, if there is one.
    pub open spec fn wf(self) -> bool {
        self@.start.wf() && (self@.end matches Some(end) ==> end.wf())
    }

    /// An entry that holds what is given.
    pub fn new(id: i32, title: String, start: DateOrDateTime, end: Option<DateOrDateTime>) -> (r:
        Self)
        ensures
            r@ == (EntryView { id: id as int, title: title@, start, end }),
    {
        CalendarEntry { id, title, start, end }
    }

    /// The key under which the table keeps the entry.
    pub fn id(&self) -> (r: &i32)
        ensures
            *r == self@.id,
    {
        &self.id
    }

    /// The label of the entry.
    pub fn title(&self) -> (r: &String)
        ensures
            r@ == self@.title,
    {
        &self.title
    }

    /// When the event starts.
    pub fn start(&self) -> (r: &DateOrDateTime)
        ensures
            *r == self@.start,
    {
        &self.start
    }

    /// When the event ends, if that is known.
    pub fn end(&self) -> (r: &Option<DateOrDateTime>)
        ensures
            *r == self@.end,
    {
        &self.end
    }

    /// Changes the key and nothing else.
    pub fn set_id(&mut self, val: i32) -> (r: &mut Self)
        ensures
            r@ == (EntryView { id: val as int, ..old(self)@ }),
            *final(self) == *final(r),
    {
        self.id = val;
        self
    }

    /// Changes the label and nothing else.
    pub fn set_title(&mut self, val: String) -> (r: &mut Self)
        ensures
            r@ == (EntryView { title: val@, ..old(self)@ }),
            *final(self) == *final(r),
    {
        self.title = val;
        self
    }

    /// Changes the start and nothing else.
    pub fn set_start(&mut self, val: DateOrDateTime) -> (r: &mut Self)
        ensures
            r@ == (EntryView { start: val, ..old(self)@ }),
            *final(self) == *final(r),
    {
        self.start = val;
        self
    }

    /// Changes the end and nothing else.
    pub fn set_end(&mut self, val: Option<DateOrDateTime>) -> (r: &mut Self)
        ensures
            r@ == (EntryView { end: val, ..old(self)@ }),
            *final(self) == *final(r),
    {
        self.end = val;
        self
    }
}

/// What each of the entries holds, in their order.
pub open spec fn entry_views(entries: Seq<CalendarEntry>) -> Seq<EntryView> {
    Seq::new(entries.len(), |k: int| entries[k]@)
}

} // verus!
