//! The table of calendar entries: how an entry is kept as a row, how rows are
//! read back into entries, and a table held in memory.

use vstd::prelude::*;
use crate::calendar::date_or_datetime::{DateOrDateTime, DecodeError};
use crate::calendar::sorting::{
    lemma_takes_from_every_place, sort_by_datetime, sorted_by, sorted_from,
};
use crate::calendar::{entry_views, CalendarEntry, EntryView};

verus! {

/// A row of the table: the key, the title, and start and end as texts.
#[derive(Debug, PartialEq, Eq)]
pub struct StoredEntry {
    pub id: i32,
    pub title: String,
    pub start: String,
    pub end: Option<String>,
}

/// What a row holds.
pub ghost struct RowView {
    pub id: int,
    pub title: Seq<char>,
    pub start: Seq<char>,
    pub end: Option<Seq<char>>,
}

impl View for StoredEntry {
    type V = RowView;

    open spec fn view(&self) -> RowView {
        RowView {
            id: self.id as int,
            title: self.title@,
            start: self.start@,
            end: match self.end {
                Some(t) => Some(t@),
                None => None,
            },
        }
    }
}

/// Why an operation on the table failed.
#[derive(Debug, PartialEq, Eq)]
pub enum StoreError {
    /// The table could not be changed; the text is the table's own message.
    Write(String),
    /// The table could not be read; the text is the table's own message.
    Read(String),
    /// A row holds a start or an end that cannot be read.
    Decode(DecodeError),
}

/// What each of the rows holds, in their order.
pub open spec fn row_views(rows: Seq<StoredEntry>) -> Seq<RowView> {
    Seq::new(rows.len(), |k: int| rows[k]@)
}

/// The text of an end, where there is one.
pub open spec fn end_text(end: Option<DateOrDateTime>) -> Option<Seq<char>> {
    match end {
        Some(e) => Some(e.text()),
        None => None,
    }
}

/// The row that keeps an entry.
pub open spec fn row_of(entry: EntryView) -> RowView {
    RowView {
        id: entry.id,
        title: entry.title,
        start: entry.start.text(),
        end: end_text(entry.end),
    }
}

/// The entry that a row reads as, unless its start or its end cannot be read.
pub open spec fn entry_of(row: RowView) -> Result<EntryView, DecodeError> {
    match DateOrDateTime::read(row.start) {
        Err(e) => Err(e),
        Ok(start) => match row.end {
            None => Ok(EntryView { id: row.id, title: row.title, start, end: None }),
            Some(t) => match DateOrDateTime::read(t) {
                Err(e) => Err(e),
                Ok(end) => Ok(EntryView { id: row.id, title: row.title, start, end: Some(end) }),
            },
        },
    }
}

/// The start of the entry exists in the calendar, and so does its end, if
/// there is one.
pub open spec fn exists_in_calendar(entry: EntryView) -> bool {
    entry.start.wf() && (entry.end matches Some(e) ==> e.wf())
}

/// Every one of the entries exists in the calendar.
pub open spec fn all_exist(entries: Seq<EntryView>) -> bool {
    forall|k: int| 0 <= k < entries.len() ==> exists_in_calendar(#[trigger] entries[k])
}

/// The rows that keep the entries, in their order.
pub open spec fn rows_of(entries: Seq<EntryView>) -> Seq<RowView> {
    Seq::new(entries.len(), |k: int| row_of(entries[k]))
}

/// Every row reads as an entry.
pub open spec fn all_readable(rows: Seq<RowView>) -> bool {
    forall|k: int| 0 <= k < rows.len() ==> (#[trigger] entry_of(rows[k])) is Ok
}

/// The entries that the rows read as, in the order of the rows.
pub open spec fn entries_read(rows: Seq<RowView>) -> Seq<EntryView> {
    Seq::new(rows.len(), |k: int| entry_of(rows[k])->Ok_0)
}

/// Makes the row that keeps an entry under the key `id`.
pub fn encode_row(id: i32, title: String, start: &DateOrDateTime, end: &Option<DateOrDateTime>) -> (r:
    StoredEntry)
    requires
        start.wf(),
        end matches Some(e) ==> e.wf(),
    ensures
        r@ == row_of(EntryView { id: id as int, title: title@, start: *start, end: *end }),
{
    let end_text = match end {
        Some(e) => Some(e.to_string()),
        None => None,
    };
    StoredEntry { id, title, start: start.to_string(), end: end_text }
}

/// Reads a row back into an entry.
///
/// A row that `encode_row` made reads as the entry it was made of.
pub fn decode_row(row: &StoredEntry) -> (r: Result<CalendarEntry, DecodeError>)
    ensures
        match r {
            Ok(entry) => entry_of(row@) == Ok::<EntryView, DecodeError>(entry@) && entry.wf(),
            Err(_) => entry_of(row@) is Err,
        },
        forall|entry: EntryView|
            #[trigger] row_of(entry) == row@ && exists_in_calendar(entry) ==> r is Ok && r->Ok_0@
                == entry,
{
    let start = match DateOrDateTime::parse(row.start.as_str()) {
        Ok(start) => start,
        Err(e) => {
            return Err(e);
        },
    };
    let end = match &row.end {
        None => None,
        Some(t) => match DateOrDateTime::parse(t.as_str()) {
            Ok(end) => Some(end),
            Err(e) => {
                return Err(e);
            },
        },
    };
    Ok(CalendarEntry::new(row.id, row.title.clone(), start, end))
}

/// Reads all rows into entries and sorts them by start. One row that cannot
/// be read fails the whole reading.
///
/// Rows that keep entries of the calendar are all read, and what comes back
/// are those entries, sorted.
pub fn entries_of(rows: &Vec<StoredEntry>) -> (r: Result<Vec<CalendarEntry>, StoreError>)
    ensures
        match r {
            Ok(entries) => {
                &&& all_readable(row_views(rows@))
                &&& sorted_from(entries_read(row_views(rows@)), entry_views(entries@))
                &&& forall|k: int| 0 <= k < entries@.len() ==> (#[trigger] entries@[k]).wf()
            },
            Err(e) => e == StoreError::Decode(DecodeError) && !all_readable(row_views(rows@)),
        },
        forall|kept: Seq<EntryView>|
            #[trigger] rows_of(kept) == row_views(rows@) && all_exist(kept) ==> r is Ok
                && sorted_from(kept, entry_views(r->Ok_0@)),
{
    let mut entries: Vec<CalendarEntry> = Vec::new();
    let n = rows.len();
    let mut i: usize = 0;
    while i < n
        invariant
            n == rows@.len(),
            i <= n,
            entries@.len() == i,
            forall|k: int|
                0 <= k < i ==> (#[trigger] entry_of(rows@[k]@)) == Ok::<EntryView, DecodeError>(
                    entries@[k]@,
                ),
            forall|k: int| 0 <= k < i ==> (#[trigger] entries@[k]).wf(),
            forall|kept: Seq<EntryView>, k: int|
                #[trigger] rows_of(kept) == row_views(rows@) && all_exist(kept) && 0 <= k < i
                    ==> (#[trigger] entries@[k])@ == kept[k],
        decreases n - i,
    {
        let ghost so_far = entries@;
        match decode_row(&rows[i]) {
            Ok(entry) => {
                entries.push(entry);
                proof {
                    assert forall|kept: Seq<EntryView>, k: int|
                        #[trigger] rows_of(kept) == row_views(rows@) && all_exist(kept) && 0 <= k
                            < i + 1 implies (#[trigger] entries@[k])@ == kept[k] by {
                        if k < i {
                            assert(entries@[k] == so_far[k]);
                        } else {
                            assert(rows_of(kept).len() == kept.len());
                            assert(row_views(rows@).len() == n);
                            assert(exists_in_calendar(kept[k]));
                            assert(rows_of(kept)[k] == row_views(rows@)[k]);
                            assert(row_of(kept[k]) == rows@[k]@);
                        }
                    }
                }
            },
            Err(e) => {
                proof {
                    assert(row_views(rows@)[i as int] == rows@[i as int]@);
                    assert(entry_of(row_views(rows@)[i as int]) is Err);
                    assert forall|kept: Seq<EntryView>|
                        #[trigger] rows_of(kept) == row_views(rows@) && all_exist(kept) implies false by {
                        assert(rows_of(kept).len() == kept.len());
                        assert(row_views(rows@).len() == n);
                        assert(exists_in_calendar(kept[i as int]));
                        assert(rows_of(kept)[i as int] == row_views(rows@)[i as int]);
                        assert(row_of(kept[i as int]) == rows@[i as int]@);
                    }
                }
                return Err(StoreError::Decode(e));
            },
        }
        i += 1;
    }
    let ghost so_read = entries@;
    let ghost read = entry_views(entries@);
    proof {
        assert forall|k: int| 0 <= k < n implies (#[trigger] entry_of(row_views(rows@)[k])) is Ok by {
            assert(row_views(rows@)[k] == rows@[k]@);
        }
        assert(read =~= entries_read(row_views(rows@))) by {
            assert forall|k: int| 0 <= k < n implies read[k] == entries_read(row_views(rows@))[k] by {
                assert(row_views(rows@)[k] == rows@[k]@);
                assert(entry_of(rows@[k]@) == Ok::<EntryView, DecodeError>(entries@[k]@));
            }
        }
        assert forall|kept: Seq<EntryView>|
            #[trigger] rows_of(kept) == row_views(rows@) && all_exist(kept) implies kept == read by {
            assert(rows_of(kept).len() == kept.len());
            assert(row_views(rows@).len() == n);
            assert forall|k: int| 0 <= k < n implies kept[k] == read[k] by {
                assert(entries@[k]@ == kept[k]);
            }
            assert(kept =~= read);
        }
    }
    sort_by_datetime(&mut entries);
    proof {
        assert forall|k: int| 0 <= k < read.len() implies exists_in_calendar(#[trigger] read[k]) by {
            assert(read[k] == so_read[k]@ && so_read[k].wf());
        }
        lemma_sorted_all_exist(read, entry_views(entries@));
        assert forall|k: int| 0 <= k < entries@.len() implies (#[trigger] entries@[k]).wf() by {
            assert(exists_in_calendar(entry_views(entries@)[k]));
        }
    }
    Ok(entries)
}

/// Sorting keeps every entry, so what holds of each entry before holds of
/// each entry after.
pub proof fn lemma_sorted_all_exist(inp: Seq<EntryView>, out: Seq<EntryView>)
    requires
        sorted_from(inp, out),
        all_exist(inp),
    ensures
        all_exist(out),
{
    let perm = choose|perm: Seq<int>| sorted_by(perm, inp, out);
    assert forall|k: int| 0 <= k < out.len() implies exists_in_calendar(#[trigger] out[k]) by {
        assert(out[k] == inp[perm[k]]);
    }
}

/// What the table's answer to a change means to the caller: a failure is
/// handed on with the table's message.
pub fn written(outcome: Result<(), String>) -> (r: Result<(), StoreError>)
    ensures
        r == match outcome {
            Ok(()) => Ok::<(), StoreError>(()),
            Err(message) => Err(StoreError::Write(message)),
        },
{
    match outcome {
        Ok(()) => Ok(()),
        Err(message) => Err(StoreError::Write(message)),
    }
}

/// What the table's answer to a reading means to the caller: a failure is
/// handed on with the table's message, and rows are read into entries and
/// sorted by start.
pub fn listed(outcome: Result<Vec<StoredEntry>, String>) -> (r: Result<
    Vec<CalendarEntry>,
    StoreError,
>)
    ensures
        match outcome {
            Err(message) => r == Err::<Vec<CalendarEntry>, StoreError>(StoreError::Read(message)),
            Ok(rows) => match r {
                Ok(entries) => {
                    &&& all_readable(row_views(rows@))
                    &&& sorted_from(entries_read(row_views(rows@)), entry_views(entries@))
                    &&& forall|k: int| 0 <= k < entries@.len() ==> (#[trigger] entries@[k]).wf()
                },
                Err(e) => e == StoreError::Decode(DecodeError) && !all_readable(row_views(rows@)),
            },
        },
        forall|kept: Seq<EntryView>|
            outcome matches Ok(rows) && #[trigger] rows_of(kept) == row_views(rows@) && all_exist(
                kept,
            ) ==> r is Ok && sorted_from(kept, entry_views(r->Ok_0@)),
{
    match outcome {
        Err(message) => Err(StoreError::Read(message)),
        Ok(rows) => entries_of(&rows),
    }
}

/// A table of calendar entries held in memory. It gives each new row the key
/// after the last one it gave, and never gives a key twice.
pub struct EventStore {
    rows: Vec<StoredEntry>,
    last_id: i32,
    kept: Ghost<Seq<EntryView>>,
}

/// What a table holds: the entries it keeps, in the order in which they were
/// created, and the last key it gave.
pub ghost struct StoreView {
    pub entries: Seq<EntryView>,
    pub last_id: int,
}

impl View for EventStore {
    type V = StoreView;

    closed spec fn view(&self) -> StoreView {
        StoreView { entries: self.kept@, last_id: self.last_id as int }
    }
}

/// Some one of the entries has the key `id`.
pub open spec fn has_id(entries: Seq<EntryView>, id: int) -> bool {
    exists|k: int| 0 <= k < entries.len() && (#[trigger] entries[k]).id == id
}

/// The keys are positive, grow along the entries and do not pass the last key
/// given, and every entry exists in the calendar.
pub open spec fn sound(table: StoreView) -> bool {
    &&& 0 <= table.last_id <= i32::MAX
    &&& forall|k: int|
        0 <= k < table.entries.len() ==> 0 < (#[trigger] table.entries[k]).id <= table.last_id
    &&& forall|k: int, l: int|
        0 <= k < l < table.entries.len() ==> (#[trigger] table.entries[k]).id < (
        #[trigger] table.entries[l]).id
    &&& all_exist(table.entries)
}

/// `after` is `before` with one more entry, kept under the key after the last
/// one given.
pub open spec fn created(
    before: StoreView,
    title: Seq<char>,
    start: DateOrDateTime,
    end: Option<DateOrDateTime>,
    after: StoreView,
) -> bool {
    &&& before.last_id < i32::MAX
    &&& after.last_id == before.last_id + 1
    &&& after.entries == before.entries.push(
        EntryView { id: before.last_id + 1, title, start, end },
    )
}

/// `after` is `before` without the entry that has the key `id`, if there was
/// one. No key is given back.
pub open spec fn deleted(before: StoreView, id: int, after: StoreView) -> bool {
    &&& after.last_id == before.last_id
    &&& !has_id(after.entries, id)
    &&& !has_id(before.entries, id) ==> after.entries == before.entries
    &&& forall|k: int|
        0 <= k < before.entries.len() && (#[trigger] before.entries[k]).id == id
            ==> after.entries == before.entries.remove(k)
}

impl EventStore {
    /// The rows of the table are those that keep its entries.
    pub closed spec fn rows_keep_entries(&self) -> bool {
        rows_of(self.kept@) == row_views(self.rows@)
    }

    /// The table is sound, and its rows keep its entries.
    pub open spec fn wf(&self) -> bool {
        sound(self@) && self.rows_keep_entries()
    }

    /// An empty table that has given no key yet.
    pub fn new() -> (r: Self)
        ensures
            r.wf(),
            r@ == (StoreView { entries: Seq::empty(), last_id: 0 }),
    {
        let r = EventStore { rows: Vec::new(), last_id: 0, kept: Ghost(Seq::empty()) };
        assert(rows_of(r.kept@) =~= row_views(r.rows@));
        r
    }

    /// Keeps a new entry under the next key. Fails, and changes nothing,
    /// where no key is left.
    pub fn create(&mut self, title: String, start: DateOrDateTime, end: Option<DateOrDateTime>) -> (r:
        Result<(), StoreError>)
        requires
            old(self).wf(),
            start.wf(),
            end matches Some(e) ==> e.wf(),
        ensures
            final(self).wf(),
            match r {
                Ok(()) => created(old(self)@, title@, start, end, final(self)@),
                Err(e) => {
                    &&& old(self)@.last_id == i32::MAX
                    &&& e is Write
                    &&& final(self)@ == old(self)@
                },
            },
    {
        if self.last_id == i32::MAX {
            return Err(StoreError::Write("the table has no key left".to_owned()));
        }
        let id = self.last_id + 1;
        let ghost entry = EntryView { id: id as int, title: title@, start, end };
        let ghost before = self.kept@;
        let ghost rows_before = self.rows@;
        let row = encode_row(id, title, &start, &end);
        self.rows.push(row);
        self.last_id = id;
        self.kept = Ghost(before.push(entry));
        proof {
            assert(rows_of(before).len() == before.len());
            assert(row_views(rows_before).len() == rows_before.len());
            assert(rows_of(self.kept@) =~= row_views(self.rows@)) by {
                assert forall|k: int| 0 <= k < self.rows@.len() implies rows_of(self.kept@)[k]
                    == row_views(self.rows@)[k] by {
                    if k < before.len() {
                        assert(rows_of(before)[k] == row_views(rows_before)[k]);
                    }
                }
            }
        }
        Ok(())
    }

    /// The entries of the table, sorted by start.
    pub fn list(&self) -> (r: Result<Vec<CalendarEntry>, StoreError>)
        requires
            self.wf(),
        ensures
            r matches Ok(entries) && {
                &&& sorted_from(self@.entries, entry_views(entries@))
                &&& forall|k: int| 0 <= k < entries@.len() ==> (#[trigger] entries@[k]).wf()
            },
    {
        let r = entries_of(&self.rows);
        assert(rows_of(self.kept@) == row_views(self.rows@));
        r
    }

    /// Removes the entry with the key `id`. Where there is none, nothing
    /// changes, and that is no failure.
    pub fn delete(&mut self, id: i32) -> (r: Result<(), StoreError>)
        requires
            old(self).wf(),
        ensures
            r is Ok,
            final(self).wf(),
            deleted(old(self)@, id as int, final(self)@),
    {
        let n = self.rows.len();
        let mut i: usize = 0;
        proof {
            assert(rows_of(self.kept@).len() == self.kept@.len());
            assert(row_views(self.rows@).len() == n);
        }
        while i < n
            invariant
                n == self.rows@.len(),
                n == self.kept@.len(),
                i <= n,
                *self == *old(self),
                self.wf(),
                forall|k: int| 0 <= k < i ==> (#[trigger] self.kept@[k]).id != id,
            decreases n - i,
        {
            proof {
                assert(rows_of(self.kept@)[i as int] == row_views(self.rows@)[i as int]);
            }
            if self.rows[i].id == id {
                let ghost before = self.kept@;
                let ghost rows_before = self.rows@;
                self.rows.remove(i);
                self.kept = Ghost(before.remove(i as int));
                proof {
                    assert(rows_of(self.kept@) =~= row_views(self.rows@)) by {
                        assert forall|k: int| 0 <= k < self.rows@.len() implies rows_of(
                            self.kept@,
                        )[k] == row_views(self.rows@)[k] by {
                            let kb = if k < i { k } else { k + 1 };
                            assert(rows_of(before)[kb] == row_views(rows_before)[kb]);
                        }
                    }
                    assert forall|k: int| 0 <= k < self.kept@.len() implies (
                    #[trigger] self.kept@[k]).id != id by {
                        if k < i {
                            assert(self.kept@[k] == before[k]);
                        } else {
                            assert(self.kept@[k] == before[k + 1]);
                            assert(before[i as int].id < before[k + 1].id);
                        }
                    }
                    assert forall|k: int|
                        0 <= k < before.len() && (#[trigger] before[k]).id == id implies k == i by {
                        if k < i {
                            assert(before[k].id < before[i as int].id);
                        } else if k > i {
                            assert(before[i as int].id < before[k].id);
                        }
                    }
                    assert(has_id(before, id as int));
                    assert forall|k: int| 0 <= k < self.kept@.len() implies exists_in_calendar(
                        #[trigger] self.kept@[k],
                    ) by {
                        let kb = if k < i { k } else { k + 1 };
                        assert(self.kept@[k] == before[kb]);
                    }
                }
                return Ok(());
            }
            i += 1;
        }
        Ok(())
    }
}

/// Deleting an entry that is there takes one entry away, and deleting it
/// once more changes nothing.
pub proof fn lemma_delete_twice(
    table: StoreView,
    id: int,
    once: StoreView,
    twice: StoreView,
)
    requires
        sound(table),
        has_id(table.entries, id),
        deleted(table, id, once),
        deleted(once, id, twice),
    ensures
        once.entries.len() == table.entries.len() - 1,
        !has_id(once.entries, id),
        twice == once,
{
    let k = choose|k: int| 0 <= k < table.entries.len() && (#[trigger] table.entries[k]).id == id;
    assert(once.entries == table.entries.remove(k));
}

/// Deleting keeps every other entry, in its place among the others, and
/// keeps the table sound.
pub proof fn lemma_delete_keeps_the_others(table: StoreView, id: int, after: StoreView)
    requires
        sound(table),
        deleted(table, id, after),
    ensures
        sound(after),
        forall|k: int|
            0 <= k < table.entries.len() && (#[trigger] table.entries[k]).id != id ==> has_id(
                after.entries,
                table.entries[k].id,
            ),
        forall|k: int|
            0 <= k < after.entries.len() ==> has_id(table.entries, (#[trigger] after.entries[k]).id),
{
    if has_id(table.entries, id) {
        let at = choose|k: int|
            0 <= k < table.entries.len() && (#[trigger] table.entries[k]).id == id;
        assert(after.entries == table.entries.remove(at));
        assert forall|k: int| 0 <= k < after.entries.len() implies (#[trigger] after.entries[k])
            == table.entries[if k < at { k } else { k + 1 }] by {}
        assert forall|k: int|
            0 <= k < table.entries.len() && (#[trigger] table.entries[k]).id != id implies has_id(
            after.entries,
            table.entries[k].id,
        ) by {
            let to = if k < at { k } else { k - 1 };
            assert(after.entries[to] == table.entries[k]);
        }
        assert forall|k: int| 0 <= k < after.entries.len() implies has_id(
            table.entries,
            (#[trigger] after.entries[k]).id,
        ) by {
            let from = if k < at { k } else { k + 1 };
            assert(table.entries[from].id == after.entries[k].id);
        }
        assert forall|k: int, l: int| 0 <= k < l < after.entries.len() implies (
        #[trigger] after.entries[k]).id < (#[trigger] after.entries[l]).id by {
            let kb = if k < at { k } else { k + 1 };
            let lb = if l < at { l } else { l + 1 };
            assert(table.entries[kb].id < table.entries[lb].id);
        }
        assert forall|k: int| 0 <= k < after.entries.len() implies exists_in_calendar(
            #[trigger] after.entries[k],
        ) by {
            let from = if k < at { k } else { k + 1 };
            assert(exists_in_calendar(table.entries[from]));
        }
        assert forall|k: int| 0 <= k < after.entries.len() implies 0 < (
        #[trigger] after.entries[k]).id <= after.last_id by {
            let from = if k < at { k } else { k + 1 };
            assert(0 < table.entries[from].id <= table.last_id);
        }
    } else {
        assert forall|k: int| 0 <= k < table.entries.len() implies has_id(
            after.entries,
            (#[trigger] table.entries[k]).id,
        ) by {}
    }
}

/// The key of a new entry is above zero and was never the key of an entry
/// that the table keeps, and the table stays sound.
pub proof fn lemma_created_key_is_new(
    table: StoreView,
    title: Seq<char>,
    start: DateOrDateTime,
    end: Option<DateOrDateTime>,
    after: StoreView,
)
    requires
        sound(table),
        start.wf(),
        end matches Some(e) ==> e.wf(),
        created(table, title, start, end, after),
    ensures
        sound(after),
        after.last_id > 0,
        !has_id(table.entries, after.last_id),
        after.entries.last() == (EntryView { id: after.last_id, title, start, end }),
{
    assert forall|k: int| 0 <= k < after.entries.len() implies exists_in_calendar(
        #[trigger] after.entries[k],
    ) by {
        if k < table.entries.len() {
            assert(exists_in_calendar(table.entries[k]));
        }
    }
    assert forall|k: int| 0 <= k < after.entries.len() implies 0 < (#[trigger] after.entries[k]).id
        <= after.last_id by {
        if k < table.entries.len() {
            assert(0 < table.entries[k].id <= table.last_id);
        }
    }
    assert forall|k: int, l: int| 0 <= k < l < after.entries.len() implies (
    #[trigger] after.entries[k]).id < (#[trigger] after.entries[l]).id by {
        assert(0 < table.entries[k].id <= table.last_id);
        if l < table.entries.len() {
            assert(table.entries[k].id < table.entries[l].id);
        }
    }
}

/// An entry that was created is in the listing, with what it was created
/// with. Created into an empty table, it is the whole listing.
pub proof fn lemma_created_is_listed(
    table: StoreView,
    title: Seq<char>,
    start: DateOrDateTime,
    end: Option<DateOrDateTime>,
    after: StoreView,
    listing: Seq<EntryView>,
)
    requires
        created(table, title, start, end, after),
        sorted_from(after.entries, listing),
    ensures
        listing.len() == table.entries.len() + 1,
        listing.contains(EntryView { id: table.last_id + 1, title, start, end }),
        table.entries.len() == 0 ==> listing == seq![
            EntryView { id: table.last_id + 1, title, start, end },
        ],
{
    let entry = EntryView { id: table.last_id + 1, title, start, end };
    let perm = choose|perm: Seq<int>| sorted_by(perm, after.entries, listing);
    let n = after.entries.len() as int;
    lemma_takes_from_every_place(perm, n - 1);
    let at = choose|k: int| 0 <= k < n && #[trigger] perm[k] == n - 1;
    assert(listing[at] == after.entries[perm[at]]);
    assert(listing[at] == entry);
    if table.entries.len() == 0 {
        assert(listing =~= seq![entry]);
    }
}

} // verus!
