//! Element-wise totals of sample sequences.
use vstd::prelude::*;

use crate::text::{is_sample, SAMPLE_BOUND};

verus! {

/// A sequence of `len` valid samples.
pub open spec fn is_sequence(r: Seq<u64>, len: nat) -> bool {
    r.len() == len && forall|k: int| 0 <= k < r.len() ==> is_sample(#[trigger] r[k])
}

/// The contents of each row.
pub open spec fn rows_of(rows: Seq<Vec<u64>>) -> Seq<Seq<u64>> {
    rows.map_values(|r: Vec<u64>| r@)
}

/// The exact sum of position `j` over all rows.
pub open spec fn column_total(rows: Seq<Seq<u64>>, j: int) -> nat
    decreases rows.len(),
{
    if rows.len() == 0 {
        0
    } else {
        column_total(rows.drop_last(), j) + rows.last()[j] as nat
    }
}

proof fn lemma_column_total_bound(rows: Seq<Seq<u64>>, len: nat, j: int)
    requires
        0 <= j < len,
        forall|i: int| 0 <= i < rows.len() ==> is_sequence(#[trigger] rows[i], len),
    ensures
        column_total(rows, j) <= rows.len() * (SAMPLE_BOUND - 1),
    decreases rows.len(),
{
    if rows.len() > 0 {
        let init = rows.drop_last();
        assert forall|i: int| 0 <= i < init.len() implies is_sequence(#[trigger] init[i], len) by {
            assert(init[i] == rows[i]);
        }
        lemma_column_total_bound(init, len, j);
        assert(is_sequence(rows[rows.len() - 1], len));
        assert(rows.last()[j] < SAMPLE_BOUND);
    }
}

/// Adds `row` into `acc` position by position.
pub fn add_row(acc: &mut Vec<u128>, row: &Vec<u64>)
    requires
        old(acc)@.len() == row@.len(),
        forall|j: int| 0 <= j < row@.len() ==> old(acc)@[j] + row@[j] <= u128::MAX,
    ensures
        final(acc)@.len() == old(acc)@.len(),
        forall|j: int|
            0 <= j < row@.len() ==> #[trigger] final(acc)@[j] == old(acc)@[j] + row@[j],
{
    let mut j: usize = 0;
    while j < row.len()
        invariant
            j <= row@.len(),
            acc@.len() == row@.len(),
            old(acc)@.len() == row@.len(),
            forall|k: int| 0 <= k < row@.len() ==> old(acc)@[k] + row@[k] <= u128::MAX,
            forall|k: int| 0 <= k < j ==> #[trigger] acc@[k] == old(acc)@[k] + row@[k],
            forall|k: int| j <= k < row@.len() ==> #[trigger] acc@[k] == old(acc)@[k],
        decreases row@.len() - j,
    {
        let v = acc[j] + row[j] as u128;
        acc.set(j, v);
        j = j + 1;
    }
}

/// The element-wise sum of `count`-long sequences of samples: a vector of
/// `count` totals, the `j`-th being the exact sum of the `j`-th samples.
pub fn sum_sequences(rows: &Vec<Vec<u64>>, count: usize) -> (r: Vec<u128>)
    requires
        forall|i: int| 0 <= i < rows@.len() ==> is_sequence(#[trigger] rows@[i]@, count as nat),
    ensures
        r@.len() == count,
        forall|j: int| 0 <= j < count ==> #[trigger] r@[j] == column_total(rows_of(rows@), j),
{
    let mut sums: Vec<u128> = Vec::new();
    let mut j: usize = 0;
    while j < count
        invariant
            j <= count,
            sums@.len() == j,
            forall|k: int| 0 <= k < j ==> #[trigger] sums@[k] == 0,
        decreases count - j,
    {
        sums.push(0);
        j = j + 1;
    }
    let ghost all = rows_of(rows@);
    let mut i: usize = 0;
    while i < rows.len()
        invariant
            i <= rows@.len(),
            all == rows_of(rows@),
            sums@.len() == count,
            forall|n: int| 0 <= n < rows@.len() ==> is_sequence(#[trigger] rows@[n]@, count as nat),
            forall|k: int|
                0 <= k < count ==> #[trigger] sums@[k] == column_total(all.subrange(0, i as int), k),
        decreases rows@.len() - i,
    {
        let ghost done = all.subrange(0, i as int);
        let ghost next = all.subrange(0, i + 1);
        proof {
            assert(next.drop_last() =~= done);
            assert forall|n: int| 0 <= n < next.len() implies is_sequence(
                #[trigger] next[n],
                count as nat,
            ) by {
                assert(next[n] == rows@[n]@);
            }
            assert forall|k: int| 0 <= k < count implies sums@[k] + rows@[i as int]@[k] <= u128::MAX by {
                lemma_column_total_bound(next, count as nat, k);
                assert(rows@.len() <= usize::MAX);
                assert(next.len() * (SAMPLE_BOUND - 1) <= usize::MAX * (SAMPLE_BOUND - 1))
                    by (nonlinear_arith)
                    requires
                        next.len() <= usize::MAX,
                ;
                assert(column_total(next, k) == sums@[k] + rows@[i as int]@[k]);
            }
        }
        add_row(&mut sums, &rows[i]);
        i = i + 1;
    }
    assert(all.subrange(0, rows@.len() as int) =~= all);
    sums
}

proof fn lemma_column_total_remove(rows: Seq<Seq<u64>>, k: int, j: int)
    requires
        0 <= k < rows.len(),
    ensures
        column_total(rows, j) == column_total(rows.remove(k), j) + rows[k][j],
    decreases rows.len(),
{
    if k == rows.len() - 1 {
        assert(rows.remove(k) =~= rows.drop_last());
    } else {
        let init = rows.drop_last();
        lemma_column_total_remove(init, k, j);
        assert(rows.remove(k).drop_last() =~= init.remove(k));
        assert(rows.remove(k).last() == rows.last());
        assert(init[k] == rows[k]);
    }
}

/// The totals do not depend on the order in which the sequences are added:
/// any two collections that hold the same sequences, each as many times,
/// have equal totals at every position.
pub proof fn lemma_total_order_independent(a: Seq<Seq<u64>>, b: Seq<Seq<u64>>, j: int)
    requires
        a.to_multiset() == b.to_multiset(),
    ensures
        column_total(a, j) == column_total(b, j),
    decreases a.len(),
{
    broadcast use vstd::seq_lib::group_to_multiset_ensures;

    if a.len() == 0 {
        assert(b.to_multiset().len() == 0);
    } else {
        let x = a.last();
        let init = a.drop_last();
        assert(init.push(x) =~= a);
        assert(a.to_multiset().count(x) > 0);
        assert(b.contains(x));
        let k = choose|k: int| 0 <= k < b.len() && b[k] == x;
        lemma_column_total_remove(b, k, j);
        assert(b.remove(k).to_multiset() =~= init.to_multiset());
        lemma_total_order_independent(init, b.remove(k), j);
    }
}

} // verus!
