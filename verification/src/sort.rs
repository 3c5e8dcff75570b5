//! An in-place ascending sort for effort vectors.
//!
//! The contract pins the result down completely: the output is sorted and is
//! a permutation of the input, and any two sorted permutations of the same
//! multiset are equal.  As a consequence, sorting an already-sorted vector
//! leaves it unchanged, which is stated as its own `ensures` clause.

use vstd::prelude::*;

verus! {

/// A sequence is sorted when every earlier element is at most every later one.
pub open spec fn sorted(s: Seq<u64>) -> bool {
    forall|i: int, j: int| 0 <= i <= j < s.len() ==> s[i] <= s[j]
}

/// Two sorted sequences holding the same multiset of values are equal.
///
/// This is the uniqueness half of the sorting specification: together with
/// sortedness and multiset equality it makes the result of a sort a function
/// of its input alone, and it is what makes re-sorting sorted data a no-op.
pub proof fn lemma_sorted_same_multiset_equal(a: Seq<u64>, b: Seq<u64>)
    requires
        sorted(a),
        sorted(b),
        a.to_multiset() == b.to_multiset(),
    ensures
        a == b,
{
    let leq = (|x: u64, y: u64| x <= y);
    assert(vstd::relations::total_ordering(leq));
    assert(vstd::relations::sorted_by(a, leq));
    assert(vstd::relations::sorted_by(b, leq));
    vstd::seq_lib::lemma_sorted_unique(a, b, leq);
    assert(a =~= b);
}

/// Sorts `v` ascending, in place, by insertion.
pub fn sort_u64(v: &mut Vec<u64>)
    ensures
        sorted(final(v)@),
        final(v)@.to_multiset() == old(v)@.to_multiset(),
        final(v)@.len() == old(v)@.len(),
        sorted(old(v)@) ==> final(v)@ == old(v)@,
{
    let ghost orig: Seq<u64> = v@;
    proof {
        broadcast use vstd::seq_lib::group_to_multiset_ensures;
    }
    let n = v.len();
    if n >= 2 {
        let mut i: usize = 1;
        while i < n
            invariant
                n == v@.len(),
                1 <= i <= n,
                forall|k: int, l: int| 0 <= k <= l < i ==> v@[k] <= v@[l],
                v@.to_multiset() == orig.to_multiset(),
            decreases n - i,
        {
            let mut j: usize = i;
            while j > 0 && v[j - 1] > v[j]
                invariant
                    0 <= j <= i < n == v@.len(),
                    v@.to_multiset() == orig.to_multiset(),
                    forall|k: int, l: int|
                        0 <= k <= l <= i && k != j && l != j ==> v@[k] <= v@[l],
                    forall|l: int| j < l <= i ==> v@[j as int] <= v@[l],
                decreases j,
            {
                let x = v[j - 1];
                let y = v[j];
                let ghost pre: Seq<u64> = v@;
                v[j - 1] = y;
                v[j] = x;
                proof {
                    broadcast use vstd::seq_lib::to_multiset_update;
                    broadcast use vstd::multiset::group_multiset_axioms;
                    broadcast use vstd::seq_lib::group_to_multiset_ensures;

                    assert(v@ == pre.update(j - 1, y).update(j as int, x));
                    assert(pre.update(j - 1, y)[j as int] == y);
                    assert(pre.contains(x));
                    assert(pre.update(j - 1, y).contains(y));
                    assert(v@.to_multiset() =~= pre.to_multiset());
                }
                j -= 1;
            }
            proof {
                assert forall|k: int, l: int| 0 <= k <= l <= i implies v@[k] <= v@[l] by {
                    if k != l {
                        if l == j && k != j {
                            assert(j >= 1);
                            if k != j - 1 {
                                assert(v@[k] <= v@[j - 1]);
                            }
                            assert(v@[j - 1] <= v@[j as int]);
                        }
                    }
                }
            }
            i += 1;
        }
    }
    proof {
        assert(v@.len() == v@.to_multiset().len());
        assert(orig.len() == orig.to_multiset().len());
        if sorted(orig) {
            lemma_sorted_same_multiset_equal(v@, orig);
        }
    }
}

} // verus!
