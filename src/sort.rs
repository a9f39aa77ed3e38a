//! Quicksort over a slice, in place: the partition step and the recursion.
use vstd::prelude::*;

use crate::order::{
    lemma_permutes_keeps_all, lemma_permutes_within_refl, lemma_permutes_within_trans,
    lemma_permutes_within_widen, lemma_sorted_permutation_unique, lemma_swap_permutes_within, permutes, permutes_within, sorted,
    swapped,
};

verus! {

/// Exchanges the elements at `i` and `j`.
fn swap(arr: &mut [i64], i: usize, j: usize)
    requires
        i < old(arr)@.len(),
        j < old(arr)@.len(),
    ensures
        final(arr)@ == swapped(old(arr)@, i as int, j as int),
{
    let t = arr[i];
    arr[i] = arr[j];
    arr[j] = t;
    proof {
        assert(arr@ =~= swapped(old(arr)@, i as int, j as int));
    }
}

/// Partitions `arr[lo..hi]` around the element at its middle and returns
/// where that element ends up: everything before it in the range is at most
/// it, everything after it is greater.
fn partition_range(arr: &mut [i64], lo: usize, hi: usize) -> (p: usize)
    requires
        lo < hi <= old(arr)@.len(),
    ensures
        lo <= p < hi,
        permutes_within(old(arr)@, final(arr)@, lo as int, hi as int),
        final(arr)@[p as int] == old(arr)@[lo + (hi - lo) / 2],
        forall|k: int| lo <= k < p ==> final(arr)@[k] <= final(arr)@[p as int],
        forall|k: int| p < k < hi ==> final(arr)@[k] > final(arr)@[p as int],
{
    let ghost s0 = arr@;
    let last = hi - 1;
    let mid = lo + (hi - lo) / 2;
    proof {
        lemma_swap_permutes_within(arr@, lo as int, hi as int, mid as int, last as int);
    }
    swap(arr, mid, last);
    let ghost pivot = arr@[last as int];
    let mut i: usize = lo;
    let mut j: usize = lo;
    while j < last
        invariant
            lo <= i <= j <= last < hi <= arr@.len(),
            pivot == s0[mid as int],
            arr@[last as int] == pivot,
            permutes_within(s0, arr@, lo as int, hi as int),
            forall|k: int| lo <= k < i ==> arr@[k] <= pivot,
            forall|k: int| i <= k < j ==> arr@[k] > pivot,
        decreases last - j,
    {
        if arr[j] <= arr[last] {
            proof {
                lemma_swap_permutes_within(arr@, lo as int, hi as int, i as int, j as int);
                lemma_permutes_within_trans(
                    s0,
                    arr@,
                    swapped(arr@, i as int, j as int),
                    lo as int,
                    hi as int,
                );
            }
            swap(arr, i, j);
            i = i + 1;
        }
        j = j + 1;
    }
    proof {
        lemma_swap_permutes_within(arr@, lo as int, hi as int, i as int, last as int);
        lemma_permutes_within_trans(
            s0,
            arr@,
            swapped(arr@, i as int, last as int),
            lo as int,
            hi as int,
        );
    }
    swap(arr, i, last);
    i
}

/// Sorts `arr[lo..hi]` in place and leaves the rest of `arr` as it was.
fn quick_sort_range(arr: &mut [i64], lo: usize, hi: usize)
    requires
        lo <= hi <= old(arr)@.len(),
    ensures
        permutes_within(old(arr)@, final(arr)@, lo as int, hi as int),
        sorted(final(arr)@.subrange(lo as int, hi as int)),
    decreases hi - lo,
{
    if hi - lo <= 1 {
        proof {
            lemma_permutes_within_refl(arr@, lo as int, hi as int);
        }
        return;
    }
    let ghost s0 = arr@;
    let p = partition_range(arr, lo, hi);
    let ghost s1 = arr@;
    let ghost pivot = s1[p as int];
    quick_sort_range(arr, lo, p);
    let ghost s2 = arr@;
    quick_sort_range(arr, p + 1, hi);
    let ghost s3 = arr@;
    proof {
        lemma_permutes_within_widen(s1, s2, lo as int, lo as int, p as int, hi as int);
        lemma_permutes_within_widen(s2, s3, lo as int, p + 1, hi as int, hi as int);
        lemma_permutes_within_trans(s0, s1, s2, lo as int, hi as int);
        lemma_permutes_within_trans(s0, s2, s3, lo as int, hi as int);

        let left1 = s1.subrange(lo as int, p as int);
        let left2 = s2.subrange(lo as int, p as int);
        let right2 = s2.subrange(p + 1, hi as int);
        let right3 = s3.subrange(p + 1, hi as int);
        let at_most = |x: i64| x <= pivot;
        let above = |x: i64| x > pivot;
        assert forall|k: int| 0 <= k < left1.len() implies at_most(#[trigger] left1[k]) by {
            assert(left1[k] == s1[lo + k]);
        }
        lemma_permutes_keeps_all(left1, left2, at_most);
        assert forall|k: int| 0 <= k < right2.len() implies above(#[trigger] right2[k]) by {
            assert(right2[k] == s2[p + 1 + k]);
        }
        lemma_permutes_keeps_all(right2, right3, above);

        let whole = s3.subrange(lo as int, hi as int);
        assert forall|a: int, b: int| 0 <= a < b < whole.len() implies whole[a] <= whole[b] by {
            let (x, y) = (lo + a, lo + b);
            if y < p {
                assert(left2[a] == s3[x] && left2[b] == s3[y]);
            } else if x > p {
                assert(right3[x - p - 1] == s3[x] && right3[y - p - 1] == s3[y]);
            } else {
                if x < p {
                    assert(left2[a] == s3[x]);
                }
                if y > p {
                    assert(right3[y - p - 1] == s3[y]);
                }
                assert(s3[p as int] == pivot);
            }
        }
    }
}

/// Sorts `arr` in place into non-decreasing order, keeping its elements.
pub fn quick_sort(arr: &mut [i64])
    ensures
        sorted(final(arr)@),
        permutes(old(arr)@, final(arr)@),
{
    let len = arr.len();
    quick_sort_range(arr, 0, len);
    proof {
        assert(old(arr)@.subrange(0, len as int) =~= old(arr)@);
        assert(arr@.subrange(0, len as int) =~= arr@);
    }
}

/// Partitions the whole of `arr` around its middle element (index
/// `len / 2`) and returns that element's new index. The elements before it
/// are at most it; those after it are greater.
pub fn partition(arr: &mut [i64]) -> (p: usize)
    requires
        old(arr)@.len() > 0,
    ensures
        p < final(arr)@.len(),
        final(arr)@.len() == old(arr)@.len(),
        permutes(old(arr)@, final(arr)@),
        final(arr)@[p as int] == old(arr)@[old(arr)@.len() as int / 2],
        forall|k: int| 0 <= k < p ==> final(arr)@[k] <= final(arr)@[p as int],
        forall|k: int| p < k < final(arr)@.len() ==> final(arr)@[k] > final(arr)@[p as int],
{
    let len = arr.len();
    let p = partition_range(arr, 0, len);
    proof {
        assert(old(arr)@.subrange(0, len as int) =~= old(arr)@);
        assert(arr@.subrange(0, len as int) =~= arr@);
    }
    p
}

/// Sorting a sequence that is already sorted gives back the same sequence:
/// whatever `quick_sort` leaves (sorted, with the same elements) is the input.
pub proof fn law_sort_of_sorted_is_identity(input: Seq<i64>, output: Seq<i64>)
    requires
        sorted(input),
        sorted(output),
        permutes(input, output),
    ensures
        output == input,
{
    lemma_sorted_permutation_unique(input, output);
}

/// Sorting a sequence of length zero or one leaves it as it is.
pub proof fn law_sort_of_short_is_identity(input: Seq<i64>, output: Seq<i64>)
    requires
        input.len() <= 1,
        sorted(output),
        permutes(input, output),
    ensures
        output == input,
{
    lemma_sorted_permutation_unique(input, output);
}

} // verus!
