//! Descending insertion sort for the diagnostic view's duration columns.

use vstd::prelude::*;

verus! {

/// `x` inserted into `s` before the first element smaller than it, so that
/// inserting into a descending sequence keeps it descending.
pub open spec fn insert_desc(x: u64, s: Seq<u64>) -> Seq<u64>
    decreases s.len(),
{
    if s.len() == 0 {
        seq![x]
    } else if x >= s[0] {
        seq![x] + s
    } else {
        seq![s[0]] + insert_desc(x, s.drop_first())
    }
}

/// The elements of `s` rearranged in descending order.
pub open spec fn sort_desc(s: Seq<u64>) -> Seq<u64>
    decreases s.len(),
{
    if s.len() == 0 {
        Seq::empty()
    } else {
        insert_desc(s[0], sort_desc(s.drop_first()))
    }
}

/// The insertion point found by a left-to-right scan is the one
/// [`insert_desc`] describes.
proof fn lemma_insert_desc_splits(x: u64, s: Seq<u64>, j: int)
    requires
        0 <= j <= s.len(),
        forall|k: int| 0 <= k < j ==> x < #[trigger] s[k],
        j < s.len() ==> x >= s[j],
    ensures
        insert_desc(x, s) =~= s.take(j) + seq![x] + s.skip(j),
    decreases j,
{
    if j == 0 {
    } else {
        assert(x < s[0]);
        lemma_insert_desc_splits(x, s.drop_first(), j - 1);
        assert(s.drop_first().take(j - 1) =~= s.take(j).drop_first());
        assert(s.drop_first().skip(j - 1) =~= s.skip(j));
    }
}

/// Inserts `x` into the descending list at the position the specification
/// names.
fn insert_descending(list: &mut Vec<u64>, x: u64)
    ensures
        final(list)@ == insert_desc(x, old(list)@),
{
    let mut j: usize = 0;
    while j < list.len() && x < list[j]
        invariant
            j <= list.len(),
            *list == *old(list),
            forall|k: int| 0 <= k < j ==> x < #[trigger] list@[k],
        decreases list.len() - j,
    {
        j = j + 1;
    }
    proof {
        lemma_insert_desc_splits(x, list@, j as int);
    }
    list.insert(j, x);
    proof {
        assert(old(list)@.insert(j as int, x) =~= old(list)@.take(j as int) + seq![x] + old(
            list,
        )@.skip(j as int));
    }
}

/// Returns the values in descending order.
pub fn sort_descending(values: &Vec<u64>) -> (sorted: Vec<u64>)
    ensures
        sorted@ == sort_desc(values@),
{
    let mut sorted: Vec<u64> = Vec::new();
    let mut i: usize = values.len();
    while i > 0
        invariant
            i <= values.len(),
            sorted@ == sort_desc(values@.skip(i as int)),
        decreases i,
    {
        i = i - 1;
        insert_descending(&mut sorted, values[i]);
        proof {
            assert(values@.skip(i as int).drop_first() =~= values@.skip(i + 1));
            assert(values@.skip(i as int)[0] == values@[i as int]);
        }
    }
    proof {
        assert(values@.skip(0) =~= values@);
    }
    sorted
}

} // verus!
