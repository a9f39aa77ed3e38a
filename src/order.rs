//! What it means for a sequence to be sorted, or to be a rearrangement of
//! another, and the facts about swaps and sub-ranges that the sort relies on.
use vstd::prelude::*;
use vstd::seq_lib::*;

verus! {

/// Each element is at most every element after it.
pub open spec fn sorted(s: Seq<i64>) -> bool {
    forall|i: int, j: int| 0 <= i < j < s.len() ==> s[i] <= s[j]
}

/// `t` holds the same elements as `s`, each as many times.
pub open spec fn permutes(s: Seq<i64>, t: Seq<i64>) -> bool {
    s.to_multiset() == t.to_multiset()
}

/// `s` with the elements at `i` and `j` exchanged.
pub open spec fn swapped(s: Seq<i64>, i: int, j: int) -> Seq<i64> {
    s.update(i, s[j]).update(j, s[i])
}

/// `t` agrees with `s` outside `[lo, hi)` and rearranges what lies inside.
pub open spec fn permutes_within(s: Seq<i64>, t: Seq<i64>, lo: int, hi: int) -> bool {
    &&& t.len() == s.len()
    &&& forall|k: int| 0 <= k < s.len() && !(lo <= k < hi) ==> t[k] == s[k]
    &&& permutes(s.subrange(lo, hi), t.subrange(lo, hi))
}

/// Exchanging two elements keeps the multiset of the sequence.
pub proof fn lemma_swap_permutes(s: Seq<i64>, i: int, j: int)
    requires
        0 <= i < s.len(),
        0 <= j < s.len(),
    ensures
        permutes(s, swapped(s, i, j)),
{
    broadcast use vstd::multiset::group_multiset_axioms;

    let s1 = s.update(i, s[j]);
    to_multiset_update(s, i, s[j]);
    to_multiset_update(s1, j, s[i]);
    s.to_multiset_ensures();
    assert(s.to_multiset().count(s[i]) > 0) by {
        to_multiset_contains(s, s[i]);
        assert(s[i] == s[i]);
    }
    if i != j {
        assert(s1[j] == s[j]);
    }
    assert(swapped(s, i, j).to_multiset() =~= s.to_multiset());
}

/// Exchanging two elements inside `[lo, hi)` rearranges only that range.
pub proof fn lemma_swap_permutes_within(s: Seq<i64>, lo: int, hi: int, i: int, j: int)
    requires
        0 <= lo <= i < hi <= s.len(),
        lo <= j < hi,
    ensures
        permutes_within(s, swapped(s, i, j), lo, hi),
{
    let t = swapped(s, i, j);
    assert(t.subrange(lo, hi) =~= swapped(s.subrange(lo, hi), i - lo, j - lo));
    lemma_swap_permutes(s.subrange(lo, hi), i - lo, j - lo);
}

/// Every sequence rearranges itself within any range.
pub proof fn lemma_permutes_within_refl(s: Seq<i64>, lo: int, hi: int)
    ensures
        permutes_within(s, s, lo, hi),
{
}

/// Two rearrangements within one range make one.
pub proof fn lemma_permutes_within_trans(a: Seq<i64>, b: Seq<i64>, c: Seq<i64>, lo: int, hi: int)
    requires
        permutes_within(a, b, lo, hi),
        permutes_within(b, c, lo, hi),
    ensures
        permutes_within(a, c, lo, hi),
{
}

/// A rearrangement within `[lo2, hi2)` is one within any range around it.
pub proof fn lemma_permutes_within_widen(a: Seq<i64>, b: Seq<i64>, lo: int, lo2: int, hi2: int, hi: int)
    requires
        0 <= lo <= lo2 <= hi2 <= hi <= a.len(),
        permutes_within(a, b, lo2, hi2),
    ensures
        permutes_within(a, b, lo, hi),
{
    broadcast use vstd::multiset::group_multiset_axioms;

    let (a1, a2, a3) = (a.subrange(lo, lo2), a.subrange(lo2, hi2), a.subrange(hi2, hi));
    let (b1, b2, b3) = (b.subrange(lo, lo2), b.subrange(lo2, hi2), b.subrange(hi2, hi));
    assert(a1 =~= b1);
    assert(a3 =~= b3);
    assert(a.subrange(lo, hi) =~= a1 + a2 + a3);
    assert(b.subrange(lo, hi) =~= b1 + b2 + b3);
    lemma_multiset_commutative(a1 + a2, a3);
    lemma_multiset_commutative(a1, a2);
    lemma_multiset_commutative(b1 + b2, b3);
    lemma_multiset_commutative(b1, b2);
}

/// What holds of every element of `s` holds of every element of a
/// rearrangement of it.
pub proof fn lemma_permutes_keeps_all(s: Seq<i64>, t: Seq<i64>, f: spec_fn(i64) -> bool)
    requires
        permutes(s, t),
        forall|k: int| 0 <= k < s.len() ==> f(#[trigger] s[k]),
    ensures
        forall|k: int| 0 <= k < t.len() ==> f(#[trigger] t[k]),
{
    assert forall|k: int| 0 <= k < t.len() implies f(#[trigger] t[k]) by {
        to_multiset_contains(t, t[k]);
        assert(t.contains(t[k]));
        to_multiset_contains(s, t[k]);
        let m = choose|m: int| 0 <= m < s.len() && s[m] == t[k];
        assert(f(s[m]));
    }
}

/// Two sorted sequences with the same elements are the same sequence.
pub proof fn lemma_sorted_permutation_unique(s: Seq<i64>, t: Seq<i64>)
    requires
        sorted(s),
        sorted(t),
        permutes(s, t),
    ensures
        s == t,
    decreases s.len(),
{
    s.to_multiset_ensures();
    t.to_multiset_ensures();
    if s.len() == 0 {
        assert(t.len() == 0);
        assert(s =~= t);
    } else {
        assert(t.len() > 0);
        to_multiset_contains(s, t[0]);
        to_multiset_contains(t, t[0]);
        assert(t.contains(t[0]));
        let m = choose|m: int| 0 <= m < s.len() && s[m] == t[0];
        assert(s[0] <= t[0]);
        to_multiset_contains(t, s[0]);
        to_multiset_contains(s, s[0]);
        assert(s.contains(s[0]));
        let n = choose|n: int| 0 <= n < t.len() && t[n] == s[0];
        assert(t[0] <= s[0]);
        to_multiset_remove(s, 0);
        to_multiset_remove(t, 0);
        assert(s.remove(0) =~= s.drop_first());
        assert(t.remove(0) =~= t.drop_first());
        lemma_sorted_permutation_unique(s.drop_first(), t.drop_first());
        assert(s =~= t) by {
            assert forall|k: int| 0 <= k < s.len() implies s[k] == t[k] by {
                if k > 0 {
                    assert(s[k] == s.drop_first()[k - 1]);
                    assert(t[k] == t.drop_first()[k - 1]);
                }
            }
        }
    }
}

} // verus!
