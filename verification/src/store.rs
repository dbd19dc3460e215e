//! The record store: an ordered collection of expense records whose 1-based
//! indices stay dense and contiguous across every add and delete.

use vstd::prelude::*;
use crate::date::Date;
use crate::date::date_wf;

verus! {

/// One expense entry.
pub struct ExpenseRecord {
    /// 1-based position in the store; kept equal to position + 1 at all times.
    pub index: u64,
    /// The date the entry was created, not editable afterwards.
    pub date: Date,
    /// Free-form text; no constraint enforced.
    pub description: String,
    /// The amount in minor units; negative amounts stand for refunds.
    pub value: i64,
}

/// The mathematical content of one record.
pub struct RecordView {
    pub index: int,
    pub date: Date,
    pub description: Seq<char>,
    pub value: int,
}

pub open spec fn record_view(index: int, date: Date, description: Seq<char>, value: int) -> RecordView {
    RecordView { index, date, description, value }
}

impl View for ExpenseRecord {
    type V = RecordView;

    open spec fn view(&self) -> RecordView {
        RecordView {
            index: self.index as int,
            date: self.date,
            description: self.description@,
            value: self.value as int,
        }
    }
}

/// The errors the library reports.
#[derive(PartialEq, Eq, Structural, Clone, Copy, Debug)]
pub enum StoreError {
    /// The persisted rows are corrupt: a malformed field, or indices that
    /// are not dense in file order. `row` is the position of the first
    /// unreadable row, so the caller can report the underlying cause.
    PersistenceError { row: usize },
    /// A delete named an index below 1 or above the store's length.
    IndexOutOfRange,
    /// Statistics were requested over zero matching records.
    EmptyAggregationInput,
}

/// Indices are exactly `1..=len` in order, and every date is valid.
pub open spec fn records_wf(s: Seq<RecordView>) -> bool {
    forall|i: int|
        0 <= i < s.len() ==> (#[trigger] s[i]).index == i + 1 && date_wf(s[i].date)
}

/// The ordered collection of expense records.
pub struct RecordStore {
    pub records: Vec<ExpenseRecord>,
}

impl View for RecordStore {
    type V = Seq<RecordView>;

    open spec fn view(&self) -> Seq<RecordView> {
        self.records@.map_values(|r: ExpenseRecord| r@)
    }
}

impl RecordStore {
    pub open spec fn wf(&self) -> bool {
        records_wf(self@)
    }

    /// An empty store.
    pub fn new() -> (s: Self)
        ensures
            s@ == Seq::<RecordView>::empty(),
            s.wf(),
    {
        let s = RecordStore { records: Vec::new() };
        proof {
            assert(s@ =~= Seq::<RecordView>::empty());
        }
        s
    }

    pub fn len(&self) -> (n: usize)
        ensures
            n == self@.len(),
    {
        self.records.len()
    }

    pub fn is_empty(&self) -> (b: bool)
        ensures
            b <==> self@.len() == 0,
    {
        self.records.len() == 0
    }

    /// The records in index order; an empty result is a valid one.
    pub fn list(&self) -> (r: &Vec<ExpenseRecord>)
        ensures
            r@.map_values(|rec: ExpenseRecord| rec@) == self@,
    {
        &self.records
    }

    /// Appends a record dated `date`, assigning it index `length + 1`.
    pub fn add(&mut self, description: String, value: i64, date: Date) -> (idx: u64)
        requires
            old(self).wf(),
            date_wf(date),
            old(self)@.len() < u64::MAX,
        ensures
            final(self).wf(),
            idx == old(self)@.len() + 1,
            final(self)@ == old(self)@.push(
                record_view(old(self)@.len() as int + 1, date, description@, value as int),
            ),
    {
        let idx = self.records.len() as u64 + 1;
        let ghost pushed = record_view(old(self)@.len() as int + 1, date, description@, value as int);
        self.records.push(ExpenseRecord { index: idx, date, description, value });
        proof {
            assert(self@ =~= old(self)@.push(pushed));
            assert forall|i: int|
                0 <= i < self@.len() implies (#[trigger] self@[i]).index == i + 1 && date_wf(
                self@[i].date,
            ) by {
                if i < old(self)@.len() {
                    assert(old(self)@[i].index == i + 1);
                }
            }
        }
        idx
    }

    /// Removes the record with 1-based index `index`; every later record
    /// moves one place down and its index drops by one. Fails with
    /// `IndexOutOfRange`, leaving the store unchanged, exactly when `index`
    /// is 0 or above the length.
    pub fn delete(&mut self, index: usize) -> (r: Result<(), StoreError>)
        requires
            old(self).wf(),
        ensures
            final(self).wf(),
            r is Ok <==> 1 <= index <= old(self)@.len(),
            r is Err ==> final(self)@ == old(self)@ && r == Err::<(), StoreError>(
                StoreError::IndexOutOfRange,
            ),
            r is Ok ==> {
                &&& final(self)@.len() == old(self)@.len() - 1
                &&& forall|i: int| 0 <= i < index - 1 ==> final(self)@[i] == old(self)@[i]
                &&& forall|i: int|
                    index - 1 <= i < final(self)@.len() ==> final(self)@[i] == record_view(
                        old(self)@[i + 1].index - 1,
                        old(self)@[i + 1].date,
                        old(self)@[i + 1].description,
                        old(self)@[i + 1].value,
                    )
            },
    {
        let n = self.records.len();
        if index < 1 || index > n {
            return Err(StoreError::IndexOutOfRange);
        }
        self.records.remove(index - 1);
        proof {
            assert(self@ =~= old(self)@.remove(index - 1));
        }
        let mut j = index - 1;
        while j < self.records.len()
            invariant
                old(self).wf(),
                1 <= index <= old(self)@.len(),
                index - 1 <= j <= self@.len(),
                self@.len() == old(self)@.len() - 1,
                forall|i: int| 0 <= i < index - 1 ==> self@[i] == old(self)@[i],
                forall|i: int|
                    index - 1 <= i < j ==> self@[i] == record_view(
                        old(self)@[i + 1].index - 1,
                        old(self)@[i + 1].date,
                        old(self)@[i + 1].description,
                        old(self)@[i + 1].value,
                    ),
                forall|i: int| j <= i < self@.len() ==> self@[i] == old(self)@[i + 1],
            decreases self@.len() - j,
        {
            let ghost before = self@;
            let ghost recs_before = self.records@;
            let mut rec = self.records.remove(j);
            proof {
                assert(rec@ == before[j as int]);
                assert(before[j as int] == old(self)@[j + 1]);
                assert(old(self)@[j + 1].index == j + 2);
            }
            rec.index = rec.index - 1;
            self.records.insert(j, rec);
            proof {
                let ghost shifted = record_view(
                    old(self)@[j + 1].index - 1,
                    old(self)@[j + 1].date,
                    old(self)@[j + 1].description,
                    old(self)@[j + 1].value,
                );
                assert(rec@ == shifted);
                assert(self.records@ =~= recs_before.update(j as int, rec));
                assert forall|i: int| 0 <= i < self@.len() implies self@[i] == before.update(
                    j as int,
                    shifted,
                )[i] by {
                    assert(self@[i] == self.records@[i]@);
                    if i != j {
                        assert(self.records@[i] == recs_before[i]);
                        assert(before[i] == recs_before[i]@);
                    }
                }
                assert(self@ =~= before.update(j as int, shifted));
            }
            j += 1;
        }
        proof {
            assert forall|i: int|
                0 <= i < self@.len() implies (#[trigger] self@[i]).index == i + 1 && date_wf(
                self@[i].date,
            ) by {
                if i < index - 1 {
                    assert(old(self)@[i].index == i + 1);
                } else {
                    assert(old(self)@[i + 1].index == i + 2);
                }
            }
        }
        Ok(())
    }
}

/// Index density: in a well-formed store the set of indices present is
/// exactly `{1, ..., length}`, with no gaps and no duplicates.
pub proof fn lemma_index_density(s: Seq<RecordView>)
    requires
        records_wf(s),
    ensures
        forall|j: int| 0 <= j < s.len() ==> 1 <= (#[trigger] s[j]).index <= s.len(),
        forall|k: int| 1 <= k <= s.len() ==> (#[trigger] s[k - 1]).index == k,
        forall|j1: int, j2: int|
            0 <= j1 < j2 < s.len() ==> (#[trigger] s[j1]).index != (#[trigger] s[j2]).index,
{
}

} // verus!
