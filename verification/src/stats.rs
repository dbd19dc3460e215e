//! Aggregate statistics over the record store: least and greatest value,
//! total and average, over all records or over the records of one date.
//! Zero matching records is an explicit error, never a division by zero.

use vstd::prelude::*;
use vstd::arithmetic::mul::lemma_mul_inequality;
use crate::date::Date;
use crate::store::RecordStore;
use crate::store::RecordView;
use crate::store::StoreError;

verus! {

/// The sum of a sequence of values.
pub open spec fn sum_of(vs: Seq<int>) -> int
    decreases vs.len(),
{
    if vs.len() == 0 {
        0
    } else {
        sum_of(vs.drop_last()) + vs.last()
    }
}

/// The least of a nonempty sequence of values.
pub open spec fn min_of(vs: Seq<int>) -> int
    recommends
        vs.len() > 0,
    decreases vs.len(),
{
    if vs.len() <= 1 {
        vs[0]
    } else {
        let m = min_of(vs.drop_last());
        if vs.last() < m {
            vs.last()
        } else {
            m
        }
    }
}

/// The greatest of a nonempty sequence of values.
pub open spec fn max_of(vs: Seq<int>) -> int
    recommends
        vs.len() > 0,
    decreases vs.len(),
{
    if vs.len() <= 1 {
        vs[0]
    } else {
        let m = max_of(vs.drop_last());
        if vs.last() > m {
            vs.last()
        } else {
            m
        }
    }
}

/// `min_of` is one of the values and no value is below it.
pub proof fn lemma_min_of_is_least(vs: Seq<int>)
    requires
        vs.len() > 0,
    ensures
        vs.contains(min_of(vs)),
        forall|i: int| 0 <= i < vs.len() ==> min_of(vs) <= #[trigger] vs[i],
    decreases vs.len(),
{
    if vs.len() == 1 {
        assert(vs[0] == min_of(vs));
    } else {
        let t = vs.drop_last();
        lemma_min_of_is_least(t);
        if min_of(vs) == vs.last() {
            assert(vs.contains(min_of(vs)));
        } else {
            let j = choose|j: int| 0 <= j < t.len() && t[j] == min_of(t);
            assert(vs[j] == min_of(vs));
            assert(vs.contains(min_of(vs)));
        }
        assert forall|i: int| 0 <= i < vs.len() implies min_of(vs) <= #[trigger] vs[i] by {
            if i < t.len() {
                assert(t[i] == vs[i]);
            }
        }
    }
}

/// `max_of` is one of the values and no value is above it.
pub proof fn lemma_max_of_is_greatest(vs: Seq<int>)
    requires
        vs.len() > 0,
    ensures
        vs.contains(max_of(vs)),
        forall|i: int| 0 <= i < vs.len() ==> #[trigger] vs[i] <= max_of(vs),
    decreases vs.len(),
{
    if vs.len() == 1 {
        assert(vs[0] == max_of(vs));
    } else {
        let t = vs.drop_last();
        lemma_max_of_is_greatest(t);
        if max_of(vs) == vs.last() {
            assert(vs.contains(max_of(vs)));
        } else {
            let j = choose|j: int| 0 <= j < t.len() && t[j] == max_of(t);
            assert(vs[j] == max_of(vs));
            assert(vs.contains(max_of(vs)));
        }
        assert forall|i: int| 0 <= i < vs.len() implies #[trigger] vs[i] <= max_of(vs) by {
            if i < t.len() {
                assert(t[i] == vs[i]);
            }
        }
    }
}

/// Whether a record falls under a selection: `None` selects every record,
/// `Some(date)` the records of exactly that date.
pub open spec fn selected(r: RecordView, sel: Option<Date>) -> bool {
    match sel {
        Option::None => true,
        Option::Some(d) => r.date == d,
    }
}

/// The values of the selected records, in store order.
pub open spec fn selected_values(s: Seq<RecordView>, sel: Option<Date>) -> Seq<int>
    decreases s.len(),
{
    if s.len() == 0 {
        Seq::empty()
    } else {
        let rest = selected_values(s.drop_last(), sel);
        if selected(s.last(), sel) {
            rest.push(s.last().value)
        } else {
            rest
        }
    }
}

/// Aggregates over a selection of records. The average is `total` over
/// `count`; it is not stored, to keep the exact quotient available.
#[derive(PartialEq, Eq, Structural, Clone, Copy, Debug)]
pub struct Stats {
    /// The least selected value, in minor units.
    pub min: i64,
    /// The greatest selected value, in minor units.
    pub max: i64,
    /// The sum of the selected values, in minor units.
    pub total: i128,
    /// How many records were selected; always at least 1.
    pub count: usize,
}

/// The average of a selection: the total divided by the count, rounded
/// toward zero.
pub open spec fn avg_of(total: int, count: int) -> int
    recommends
        count > 0,
{
    if total >= 0 {
        total / count
    } else {
        -((-total) / count)
    }
}

impl Stats {
    /// The average value in minor units, rounded toward zero.
    pub fn avg(&self) -> (a: i128)
        requires
            self.count > 0,
            i128::MIN < self.total,
        ensures
            a == avg_of(self.total as int, self.count as int),
    {
        if self.total >= 0 {
            ((self.total as u128) / (self.count as u128)) as i128
        } else {
            let m = (-self.total) as u128;
            -((m / (self.count as u128)) as i128)
        }
    }
}

fn aggregate(store: &RecordStore, sel: Option<Date>) -> (r: Result<Stats, StoreError>)
    ensures
        ({
            let vs = selected_values(store@, sel);
            match r {
                Result::Ok(st) => {
                    &&& vs.len() > 0
                    &&& st.count == vs.len()
                    &&& st.total == sum_of(vs)
                    &&& st.min == min_of(vs)
                    &&& st.max == max_of(vs)
                    &&& -(st.count as int) * 0x8000_0000_0000_0000 <= st.total
                    &&& st.total <= (st.count as int) * 0x7fff_ffff_ffff_ffff
                    &&& i128::MIN < st.total
                },
                Result::Err(e) => e == StoreError::EmptyAggregationInput && vs.len() == 0,
            }
        }),
{
    let n = store.records.len();
    let mut count: usize = 0;
    let mut total: i128 = 0;
    let mut min: i64 = 0;
    let mut max: i64 = 0;
    let mut i: usize = 0;
    while i < n
        invariant
            0 <= i <= n,
            n == store@.len(),
            ({
                let vs = selected_values(store@.take(i as int), sel);
                &&& count == vs.len()
                &&& count <= i
                &&& total == sum_of(vs)
                &&& count > 0 ==> min == min_of(vs) && max == max_of(vs)
                &&& -(count as int) * 0x8000_0000_0000_0000 <= total
                &&& total <= (count as int) * 0x7fff_ffff_ffff_ffff
            }),
        decreases n - i,
    {
        let ghost prefix = store@.take(i as int);
        let ghost vs = selected_values(prefix, sel);
        proof {
            assert(store@.take(i as int + 1).drop_last() =~= prefix);
            assert(store@.take(i as int + 1).last() == store@[i as int]);
            assert(store@[i as int] == store.records@[i as int]@);
        }
        let keep = match sel {
            Option::Some(d) => {
                let rd = store.records[i].date;
                rd == d
            },
            Option::None => true,
        };
        if keep {
            let v = store.records[i].value;
            proof {
                let ghost vs2 = selected_values(store@.take(i as int + 1), sel);
                assert(vs2 == vs.push(v as int));
                assert(vs2.drop_last() =~= vs);
                assert(vs2.last() == v as int);
                let ghost c = count as int;
                assert((c + 1) * 0x8000_0000_0000_0000 == c * 0x8000_0000_0000_0000
                    + 0x8000_0000_0000_0000);
                assert((c + 1) * 0x7fff_ffff_ffff_ffff == c * 0x7fff_ffff_ffff_ffff
                    + 0x7fff_ffff_ffff_ffff);
                lemma_mul_inequality(c + 1, usize::MAX as int, 0x8000_0000_0000_0000);
                lemma_mul_inequality(c + 1, usize::MAX as int, 0x7fff_ffff_ffff_ffff);
            }
            if count == 0 {
                min = v;
                max = v;
            } else {
                if v < min {
                    min = v;
                }
                if v > max {
                    max = v;
                }
            }
            total = total + (v as i128);
            count = count + 1;
        } else {
            proof {
                assert(selected_values(store@.take(i as int + 1), sel) == vs);
            }
        }
        i += 1;
    }
    proof {
        assert(store@.take(n as int) =~= store@);
    }
    if count == 0 {
        Err(StoreError::EmptyAggregationInput)
    } else {
        proof {
            lemma_mul_inequality(count as int, usize::MAX as int, 0x8000_0000_0000_0000);
        }
        Ok(Stats { min, max, total, count })
    }
}

/// Statistics over every record of the store; fails with
/// `EmptyAggregationInput` exactly when the store is empty.
pub fn compute_all(store: &RecordStore) -> (r: Result<Stats, StoreError>)
    ensures
        ({
            let vs = selected_values(store@, Option::None);
            match r {
                Result::Ok(st) => {
                    &&& vs.len() > 0
                    &&& st.count == vs.len()
                    &&& st.count == store@.len()
                    &&& st.total == sum_of(vs)
                    &&& st.min == min_of(vs)
                    &&& st.max == max_of(vs)
                    &&& -(st.count as int) * 0x8000_0000_0000_0000 <= st.total
                    &&& st.total <= (st.count as int) * 0x7fff_ffff_ffff_ffff
                    &&& i128::MIN < st.total
                },
                Result::Err(e) => e == StoreError::EmptyAggregationInput && store@.len() == 0,
            }
        }),
{
    proof {
        lemma_selected_all_len(store@);
    }
    aggregate(store, None)
}

/// Statistics over the records dated exactly `date`; fails with
/// `EmptyAggregationInput` exactly when no record has that date.
pub fn compute_for_date(store: &RecordStore, date: Date) -> (r: Result<Stats, StoreError>)
    ensures
        ({
            let vs = selected_values(store@, Option::Some(date));
            match r {
                Result::Ok(st) => {
                    &&& vs.len() > 0
                    &&& st.count == vs.len()
                    &&& st.total == sum_of(vs)
                    &&& st.min == min_of(vs)
                    &&& st.max == max_of(vs)
                    &&& -(st.count as int) * 0x8000_0000_0000_0000 <= st.total
                    &&& st.total <= (st.count as int) * 0x7fff_ffff_ffff_ffff
                    &&& i128::MIN < st.total
                },
                Result::Err(e) => e == StoreError::EmptyAggregationInput && vs.len() == 0,
            }
        }),
{
    aggregate(store, Some(date))
}

/// With no date filter, every record is selected.
proof fn lemma_selected_all_len(s: Seq<RecordView>)
    ensures
        selected_values(s, Option::None).len() == s.len(),
    decreases s.len(),
{
    if s.len() > 0 {
        lemma_selected_all_len(s.drop_last());
    }
}

} // verus!

