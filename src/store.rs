//! The in-memory record collection of a session and its CRUD operations.
use crate::error::StoreError;
use crate::parser::WhereClause;
use crate::record::{Record, RecordView, records_view};
use vstd::prelude::*;

verus! {

/// The records of a session, in order, and whether they differ from what
/// was last persisted.
#[derive(Debug)]
pub struct RecordStore {
    pub records: Vec<Record>,
    pub dirty: bool,
}

/// A field after a modification: in merge mode an empty input keeps the
/// old value; otherwise the input replaces it.
pub open spec fn merged_field(old: Seq<char>, input: Seq<char>, merge: bool) -> Seq<char> {
    if merge && input.len() == 0 {
        old
    } else {
        input
    }
}

/// A record after a modification with the given input.
pub open spec fn merged_record(old: RecordView, input: RecordView, merge: bool) -> RecordView {
    RecordView {
        site: merged_field(old.site, input.site, merge),
        username: merged_field(old.username, input.username, merge),
        password: merged_field(old.password, input.password, merge),
        note: merged_field(old.note, input.note, merge),
    }
}

/// The `(index, record)` pairs among the first `n` records that `clause`
/// selects, in order.
pub open spec fn listing(rs: Seq<RecordView>, clause: WhereClause, n: int) -> Seq<(int, RecordView)>
    decreases n,
{
    if n <= 0 {
        seq![]
    } else {
        let before = listing(rs, clause, n - 1);
        if clause.selects(rs[n - 1]) {
            before.push((n - 1, rs[n - 1]))
        } else {
            before
        }
    }
}

/// The views of listed pairs.
pub open spec fn listed_view(l: Seq<(usize, Record)>) -> Seq<(int, RecordView)> {
    l.map_values(|p: (usize, Record)| (p.0 as int, p.1@))
}

impl View for RecordStore {
    type V = Seq<RecordView>;

    open spec fn view(&self) -> Seq<RecordView> {
        records_view(self.records@)
    }
}

impl RecordStore {
    /// An empty store with nothing to persist.
    pub fn new() -> (r: RecordStore)
        ensures
            r@ == Seq::<RecordView>::empty(),
            !r.dirty,
    {
        RecordStore { records: Vec::new(), dirty: false }
    }

    /// A store holding records as they were loaded: nothing to persist yet.
    pub fn from_records(records: Vec<Record>) -> (r: RecordStore)
        ensures
            r.records@ == records@,
            !r.dirty,
    {
        RecordStore { records, dirty: false }
    }

    pub fn len(&self) -> (r: usize)
        ensures
            r == self@.len(),
    {
        self.records.len()
    }

    /// Appends a record.
    pub fn add(&mut self, record: Record)
        ensures
            final(self)@ == old(self)@.push(record@),
            final(self).dirty,
    {
        self.records.push(record);
        self.dirty = true;
        proof {
            assert(final(self)@ =~= old(self)@.push(record@));
        }
    }

    /// Removes the record at `index`; later records move down by one.
    pub fn delete(&mut self, index: usize) -> (r: Result<(), StoreError>)
        ensures
            r is Err <==> index >= old(self)@.len(),
            r matches Err(e) ==> e == StoreError::IndexOutOfRange && *final(self) == *old(self),
            r is Ok ==> final(self)@ == old(self)@.remove(index as int) && final(self).dirty,
    {
        if index >= self.records.len() {
            return Err(StoreError::IndexOutOfRange);
        }
        self.records.remove(index);
        self.dirty = true;
        proof {
            assert(final(self)@ =~= old(self)@.remove(index as int));
        }
        Ok(())
    }

    /// Changes the record at `index`. In overwrite mode every field takes the
    /// input's value, empty or not; in merge mode a field takes the input's
    /// value only where that value is non-empty.
    pub fn modify(&mut self, index: usize, input: Record, merge: bool) -> (r: Result<
        (),
        StoreError,
    >)
        ensures
            r is Err <==> index >= old(self)@.len(),
            r matches Err(e) ==> e == StoreError::IndexOutOfRange && *final(self) == *old(self),
            r is Ok ==> final(self)@ == old(self)@.update(
                index as int,
                merged_record(old(self)@[index as int], input@, merge),
            ) && final(self).dirty,
    {
        if index >= self.records.len() {
            return Err(StoreError::IndexOutOfRange);
        }
        let current = self.records.remove(index);
        let site = if merge && input.site.as_str().is_empty() {
            current.site
        } else {
            input.site
        };
        let username = if merge && input.username.as_str().is_empty() {
            current.username
        } else {
            input.username
        };
        let password = if merge && input.password.as_str().is_empty() {
            current.password
        } else {
            input.password
        };
        let note = if merge && input.note.as_str().is_empty() {
            current.note
        } else {
            input.note
        };
        self.records.insert(index, Record::new(site, username, password, note));
        self.dirty = true;
        proof {
            assert(final(self)@ =~= old(self)@.update(
                index as int,
                merged_record(old(self)@[index as int], input@, merge),
            ));
        }
        Ok(())
    }

    /// Replaces every record, as an import does.
    pub fn replace_all(&mut self, records: Vec<Record>)
        ensures
            final(self).records@ == records@,
            final(self).dirty,
    {
        self.records = records;
        self.dirty = true;
    }

    /// The `(index, record)` pairs that `clause` selects, in store order.
    pub fn list(&self, clause: &WhereClause) -> (r: Vec<(usize, Record)>)
        ensures
            listed_view(r@) == listing(self@, *clause, self@.len() as int),
    {
        let mut out: Vec<(usize, Record)> = Vec::new();
        let mut i: usize = 0;
        while i < self.records.len()
            invariant
                i <= self.records@.len(),
                listed_view(out@) == listing(self@, *clause, i as int),
            decreases self.records@.len() - i,
        {
            let ghost before = out@;
            if clause.check(&self.records[i]) {
                out.push((i, self.records[i].duplicate()));
                proof {
                    assert(listed_view(out@) =~= listed_view(before).push(
                        (i as int, self@[i as int]),
                    ));
                }
            }
            i = i + 1;
        }
        out
    }
}

/// Listing with the match-all clause gives every record, each with its
/// index, in order.
pub proof fn lemma_list_all(rs: Seq<RecordView>, n: int)
    requires
        0 <= n <= rs.len(),
    ensures
        listing(rs, WhereClause::All, n).len() == n,
        forall|i: int|
            0 <= i < n ==> #[trigger] listing(rs, WhereClause::All, n)[i] == (i, rs[i]),
    decreases n,
{
    if n > 0 {
        lemma_list_all(rs, n - 1);
        let before = listing(rs, WhereClause::All, n - 1);
        assert(listing(rs, WhereClause::All, n) == before.push((n - 1, rs[n - 1])));
    }
}

/// After a record is added, the match-all listing ends with it, at the
/// index just past the records that were there before.
pub proof fn lemma_add_then_list(before: Seq<RecordView>, r: RecordView)
    ensures
        ({
            let after = before.push(r);
            let l = listing(after, WhereClause::All, after.len() as int);
            &&& l.len() == after.len()
            &&& l.last() == (before.len() as int, r)
        }),
{
    let after = before.push(r);
    lemma_list_all(after, after.len() as int);
}

/// After the record at `i` is deleted, the record that followed it stands
/// at `i`.
pub proof fn lemma_delete_shifts(before: Seq<RecordView>, i: int)
    requires
        0 <= i,
        i + 1 < before.len(),
    ensures
        before.remove(i)[i] == before[i + 1],
{
}

} // verus!
