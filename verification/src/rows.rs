//! Lists of lists, one inner list per field.

use vstd::prelude::*;

verus! {

/// The rows of `rows`, each as a sequence.
pub open spec fn spec_rows<T>(rows: Seq<Vec<T>>) -> Seq<Seq<T>> {
    Seq::new(rows.len(), |i: int| rows[i]@)
}

/// `count` rows with nothing in them.
pub open spec fn spec_empty_rows<T>(count: nat) -> Seq<Seq<T>> {
    Seq::new(count, |i: int| Seq::<T>::empty())
}

/// All rows one after another, the first row first.
pub open spec fn spec_join<T>(rows: Seq<Seq<T>>) -> Seq<T>
    decreases rows.len(),
{
    if rows.len() == 0 {
        Seq::empty()
    } else {
        spec_join(rows.drop_last()) + rows.last()
    }
}

/// Rows with nothing in them hold nothing.
pub proof fn lemma_join_of_empty_rows<T>(count: nat)
    ensures
        spec_join(spec_empty_rows::<T>(count)) == Seq::<T>::empty(),
    decreases count,
{
    if count > 0 {
        lemma_join_of_empty_rows::<T>((count - 1) as nat);
        assert(spec_empty_rows::<T>(count).drop_last() =~= spec_empty_rows::<T>(
            (count - 1) as nat,
        ));
        assert(spec_join(spec_empty_rows::<T>(count)) =~= Seq::<T>::empty());
    }
}

/// Makes `count` rows with nothing in them.
pub fn empty_rows<T>(count: usize) -> (rows: Vec<Vec<T>>)
    ensures
        spec_rows(rows@) == spec_empty_rows::<T>(count as nat),
{
    let mut rows: Vec<Vec<T>> = Vec::new();
    let mut i: usize = 0;
    while i < count
        invariant
            i <= count,
            rows@.len() == i,
            forall|j: int| 0 <= j < i ==> (#[trigger] rows@[j])@ == Seq::<T>::empty(),
        decreases count - i,
    {
        rows.push(Vec::new());
        i += 1;
    }
    assert(spec_rows(rows@) =~= spec_empty_rows::<T>(count as nat));
    rows
}

/// Copies a list.
pub fn copy_row<T: Copy>(row: &Vec<T>) -> (copy: Vec<T>)
    ensures
        copy@ == row@,
{
    let mut copy: Vec<T> = Vec::new();
    let mut i: usize = 0;
    while i < row.len()
        invariant
            i <= row@.len(),
            copy@ == row@.take(i as int),
        decreases row@.len() - i,
    {
        copy.push(row[i]);
        assert(row@.take(i + 1) =~= row@.take(i as int).push(row@[i as int]));
        i += 1;
    }
    assert(row@.take(row@.len() as int) =~= row@);
    copy
}

/// Copies a list of rows.
pub fn copy_rows<T: Copy>(rows: &Vec<Vec<T>>) -> (copy: Vec<Vec<T>>)
    ensures
        spec_rows(copy@) == spec_rows(rows@),
{
    let mut copy: Vec<Vec<T>> = Vec::new();
    let mut i: usize = 0;
    while i < rows.len()
        invariant
            i <= rows@.len(),
            copy@.len() == i,
            forall|j: int| 0 <= j < i ==> (#[trigger] copy@[j])@ == rows@[j]@,
        decreases rows@.len() - i,
    {
        copy.push(copy_row(&rows[i]));
        i += 1;
    }
    assert(spec_rows(copy@) =~= spec_rows(rows@));
    copy
}

/// Compares two lists of integers entry by entry.
pub fn same_row(a: &Vec<usize>, b: &Vec<usize>) -> (same: bool)
    ensures
        same == (a@ == b@),
{
    if a.len() != b.len() {
        return false;
    }
    let mut i: usize = 0;
    while i < a.len()
        invariant
            a@.len() == b@.len(),
            i <= a@.len(),
            forall|j: int| 0 <= j < i ==> a@[j] == b@[j],
        decreases a@.len() - i,
    {
        if a[i] != b[i] {
            return false;
        }
        i += 1;
    }
    assert(a@ =~= b@);
    true
}

/// Compares two lists of rows entry by entry.
pub fn same_rows(a: &Vec<Vec<usize>>, b: &Vec<Vec<usize>>) -> (same: bool)
    ensures
        same == (spec_rows(a@) == spec_rows(b@)),
{
    if a.len() != b.len() {
        assert(spec_rows(a@).len() != spec_rows(b@).len());
        return false;
    }
    let mut i: usize = 0;
    while i < a.len()
        invariant
            a@.len() == b@.len(),
            i <= a@.len(),
            forall|j: int| 0 <= j < i ==> (#[trigger] a@[j])@ == b@[j]@,
        decreases a@.len() - i,
    {
        if !same_row(&a[i], &b[i]) {
            assert(spec_rows(a@)[i as int] != spec_rows(b@)[i as int]);
            return false;
        }
        i += 1;
    }
    assert(spec_rows(a@) =~= spec_rows(b@));
    true
}

/// Lists the entries of all rows, the first row first.
pub fn join_rows(rows: &Vec<Vec<u64>>) -> (all: Vec<u64>)
    ensures
        all@ == spec_join(spec_rows(rows@)),
{
    let ghost model = spec_rows(rows@);
    let mut all: Vec<u64> = Vec::new();
    let mut i: usize = 0;
    while i < rows.len()
        invariant
            model == spec_rows(rows@),
            i <= rows@.len(),
            all@ == spec_join(model.take(i as int)),
        decreases rows@.len() - i,
    {
        let row: &Vec<u64> = &rows[i];
        let ghost before = all@;
        let mut k: usize = 0;
        while k < row.len()
            invariant
                k <= row@.len(),
                all@ == before + row@.take(k as int),
            decreases row@.len() - k,
        {
            all.push(row[k]);
            assert(row@.take(k + 1) =~= row@.take(k as int).push(row@[k as int]));
            assert(before + row@.take(k + 1) =~= (before + row@.take(k as int)).push(
                row@[k as int],
            ));
            k += 1;
        }
        proof {
            assert(row@.take(row@.len() as int) =~= row@);
            assert(model.take(i + 1).drop_last() =~= model.take(i as int));
            assert(model.take(i + 1).last() == row@);
        }
        i += 1;
    }
    assert(model.take(rows@.len() as int) =~= model);
    all
}

} // verus!
