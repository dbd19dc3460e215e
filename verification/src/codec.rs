//! Loading and saving the store as rows of text fields, one header row and
//! one row per record, each row holding index, date, description and value.
//! The persistence collaborator only carries these rows to and from the
//! backing file; every field is printed and parsed here, with a proof that
//! saving and loading reproduce the store exactly.

use vstd::prelude::*;
use vstd::string::*;
use crate::date::Date;
use crate::date::date_of;
use crate::date::date_rep;
use crate::date::date_to_string;
use crate::date::date_wf;
use crate::date::is_date_rep;
use crate::date::lemma_date_round_trip;
use crate::date::parse_date;
use crate::digits::dec_rep;
use crate::digits::digits_val;
use crate::digits::is_canon_dec;
use crate::digits::lemma_dec_rep;
use crate::digits::parse_u64;
use crate::digits::u64_to_string;
use crate::money::is_money_rep;
use crate::money::lemma_money_round_trip;
use crate::money::money_rep;
use crate::money::money_to_string;
use crate::money::money_val;
use crate::money::parse_money;
use crate::store::ExpenseRecord;
use crate::store::RecordStore;
use crate::store::RecordView;
use crate::store::StoreError;
use crate::store::record_view;
use crate::store::records_wf;

verus! {

/// The text fields of one record row: index, date, description, value.
pub open spec fn row_of(r: RecordView) -> Seq<Seq<char>> {
    seq![dec_rep(r.index as nat), date_rep(r.date), r.description, money_rep(r.value)]
}

/// The header row naming the columns.
pub open spec fn header_rep() -> Seq<Seq<char>> {
    seq!["Index"@, "Date"@, "Description"@, "Value"@]
}

/// The full row image of a store: the header, then one row per record.
pub open spec fn rows_of(s: Seq<RecordView>) -> Seq<Seq<Seq<char>>> {
    seq![header_rep()] + s.map_values(|r: RecordView| row_of(r))
}

/// Whether a row is a readable record row for position `pos`: four fields,
/// the index field the canonical decimal for `pos + 1`, a valid date, and a
/// value in range.
pub open spec fn row_ok(row: Seq<Seq<char>>, pos: int) -> bool {
    &&& row.len() == 4
    &&& is_canon_dec(row[0])
    &&& digits_val(row[0]) == pos + 1
    &&& is_date_rep(row[1])
    &&& is_money_rep(row[3])
    &&& i64::MIN <= money_val(row[3]) <= i64::MAX
}

/// The record a readable row stands for.
pub open spec fn rec_of_row(row: Seq<Seq<char>>, pos: int) -> RecordView {
    record_view(pos + 1, date_of(row[1]), row[2], money_val(row[3]))
}

/// Whether a row image is readable: empty (an absent or empty backing file),
/// or any header followed by readable record rows in position order.
pub open spec fn rows_ok(rows: Seq<Seq<Seq<char>>>) -> bool {
    forall|i: int| 1 <= i < rows.len() ==> row_ok(#[trigger] rows[i], i - 1)
}

/// Position `row` holds the first unreadable record row of the image.
pub open spec fn corrupt_at(rows: Seq<Seq<Seq<char>>>, row: int) -> bool {
    &&& 1 <= row < rows.len()
    &&& !row_ok(rows[row], row - 1)
    &&& forall|k: int| 1 <= k < row ==> row_ok(#[trigger] rows[k], k - 1)
}

/// The error names the first unreadable row of the image.
pub open spec fn reports_corrupt_row(e: StoreError, rows: Seq<Seq<Seq<char>>>) -> bool {
    match e {
        StoreError::PersistenceError { row } => corrupt_at(rows, row as int),
        _ => false,
    }
}

/// The records a readable row image stands for.
pub open spec fn records_of_rows(rows: Seq<Seq<Seq<char>>>) -> Seq<RecordView> {
    if rows.len() == 0 {
        Seq::empty()
    } else {
        Seq::new((rows.len() - 1) as nat, |i: int| rec_of_row(rows[i + 1], i))
    }
}

impl RecordStore {
    /// Writes the store as rows of text fields, header first, for the
    /// persistence collaborator to put in the backing file whole.
    pub fn save(&self) -> (rows: Vec<Vec<String>>)
        requires
            self.wf(),
        ensures
            rows.deep_view() == rows_of(self@),
    {
        let mut rows: Vec<Vec<String>> = Vec::new();
        let mut header: Vec<String> = Vec::new();
        header.push("Index".to_owned());
        header.push("Date".to_owned());
        header.push("Description".to_owned());
        header.push("Value".to_owned());
        proof {
            assert(header.deep_view() =~= header_rep());
        }
        rows.push(header);
        let mut i: usize = 0;
        let n = self.records.len();
        while i < n
            invariant
                self.wf(),
                0 <= i <= n,
                n == self@.len(),
                rows.deep_view().len() == i + 1,
                rows.deep_view()[0] == header_rep(),
                forall|k: int| 0 <= k < i ==> rows.deep_view()[k + 1] == row_of(#[trigger] self@[k]),
            decreases n - i,
        {
            let ghost dv = rows.deep_view();
            proof {
                assert(self@[i as int] == self.records@[i as int]@);
                assert(self@[i as int].index == i + 1);
            }
            let rec = &self.records[i];
            let mut row: Vec<String> = Vec::new();
            row.push(u64_to_string(rec.index));
            row.push(date_to_string(&rec.date));
            row.push(rec.description.clone());
            row.push(money_to_string(rec.value));
            proof {
                assert(row.deep_view() =~= row_of(self@[i as int]));
            }
            rows.push(row);
            proof {
                assert(rows.deep_view() =~= dv.push(row_of(self@[i as int])));
            }
            i += 1;
        }
        proof {
            assert(rows.deep_view() =~= rows_of(self@));
        }
        rows
    }

    /// Reads a store back from rows of text fields. An empty row image
    /// yields the empty store; otherwise the first row is skipped as the
    /// header. Fails with `PersistenceError`, naming the first unreadable
    /// row, exactly when some record row is malformed or out of position
    /// order; no rows are skipped and no partial store comes back.
    pub fn load(rows: &Vec<Vec<String>>) -> (r: Result<RecordStore, StoreError>)
        ensures
            match r {
                Result::Ok(store) => {
                    &&& store.wf()
                    &&& rows_ok(rows.deep_view())
                    &&& store@ == records_of_rows(rows.deep_view())
                },
                Result::Err(e) => {
                    &&& !rows_ok(rows.deep_view())
                    &&& reports_corrupt_row(e, rows.deep_view())
                },
            },
    {
        let mut store = RecordStore::new();
        let n = rows.len();
        if n == 0 {
            proof {
                assert(store@ =~= records_of_rows(rows.deep_view()));
            }
            return Ok(store);
        }
        let mut i: usize = 1;
        while i < n
            invariant
                1 <= i <= n,
                n == rows@.len(),
                store.wf(),
                store@.len() == i - 1,
                forall|k: int|
                    1 <= k < i ==> row_ok(#[trigger] rows.deep_view()[k], k - 1) && store@[k - 1]
                        == rec_of_row(rows.deep_view()[k], k - 1),
            decreases n - i,
        {
            let ghost rowv = rows.deep_view()[i as int];
            proof {
                assert(rowv == rows@[i as int].deep_view());
            }
            let row = &rows[i];
            if row.len() != 4 {
                proof {
                    assert(!row_ok(rowv, i - 1));
                }
                return Err(StoreError::PersistenceError { row: i });
            }
            proof {
                assert(rowv[0] == row@[0]@);
                assert(rowv[1] == row@[1]@);
                assert(rowv[2] == row@[2]@);
                assert(rowv[3] == row@[3]@);
            }
            let idx: u64 = match parse_u64(row[0].as_str()) {
                Some(v) => v,
                None => {
                    proof {
                        assert(!row_ok(rowv, i - 1));
                    }
                    return Err(StoreError::PersistenceError { row: i });
                },
            };
            if idx != i as u64 {
                proof {
                    assert(!row_ok(rowv, i - 1));
                }
                return Err(StoreError::PersistenceError { row: i });
            }
            let date: Date = match parse_date(row[1].as_str()) {
                Some(d) => d,
                None => {
                    proof {
                        assert(!row_ok(rowv, i - 1));
                    }
                    return Err(StoreError::PersistenceError { row: i });
                },
            };
            let value: i64 = match parse_money(row[3].as_str()) {
                Some(v) => v,
                None => {
                    proof {
                        assert(!row_ok(rowv, i - 1));
                    }
                    return Err(StoreError::PersistenceError { row: i });
                },
            };
            let description = row[2].clone();
            let ghost before = store@;
            store.records.push(ExpenseRecord { index: idx, date, description, value });
            proof {
                assert(store@ =~= before.push(rec_of_row(rowv, i - 1)));
                assert forall|j: int|
                    0 <= j < store@.len() implies (#[trigger] store@[j]).index == j + 1 && date_wf(
                    store@[j].date,
                ) by {
                    if j < before.len() {
                        assert(before[j].index == j + 1);
                    }
                }
            }
            i += 1;
        }
        proof {
            assert(store@ =~= records_of_rows(rows.deep_view()));
        }
        Ok(store)
    }
}

/// Round trip: the row image of a well-formed record sequence is readable,
/// and reading it back yields the identical ordered sequence — the same
/// index, date, description and value for every record.
pub proof fn lemma_save_load_round_trip(s: Seq<RecordView>)
    requires
        records_wf(s),
        forall|i: int|
            0 <= i < s.len() ==> i64::MIN <= (#[trigger] s[i]).value <= i64::MAX,
    ensures
        rows_ok(rows_of(s)),
        records_of_rows(rows_of(s)) == s,
{
    let rows = rows_of(s);
    assert(rows.len() == s.len() + 1);
    assert forall|i: int| 1 <= i < rows.len() implies row_ok(#[trigger] rows[i], i - 1) by {
        let r = s[i - 1];
        assert(rows[i] == row_of(r));
        assert(r.index == i);
        lemma_dec_rep(r.index as nat);
        lemma_date_round_trip(r.date);
        lemma_money_round_trip(r.value);
    }
    assert forall|i: int| 0 <= i < s.len() implies records_of_rows(rows)[i] == s[i] by {
        let r = s[i];
        assert(rows[i + 1] == row_of(r));
        lemma_dec_rep(r.index as nat);
        lemma_date_round_trip(r.date);
        lemma_money_round_trip(r.value);
        assert(rec_of_row(row_of(r), i) == r);
    }
    assert(records_of_rows(rows) =~= s);
}

} // verus!
