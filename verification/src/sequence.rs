use vstd::prelude::*;
use crate::order::{
    equiv, gt, le, lemma_antisymmetric, lemma_flip, lemma_le_transitive, lemma_reflexive,
    total_order,
};

verus! {

/// `s` is non-decreasing under the element ordering.
pub open spec fn sorted<T: Ord>(s: Seq<T>) -> bool {
    forall|i: int, j: int| 0 <= i < j < s.len() ==> le(#[trigger] s[i], #[trigger] s[j])
}

/// The elements at each place of the two sequences are equal under the
/// ordering.
pub open spec fn equal_in_order<T: Ord>(a: Seq<T>, b: Seq<T>) -> bool {
    &&& a.len() == b.len()
    &&& forall|i: int| 0 <= i < a.len() ==> equiv(#[trigger] a[i], b[i])
}

/// Every element of `s` is at most `p`.
pub open spec fn all_le<T: Ord>(s: Seq<T>, p: T) -> bool {
    forall|i: int| 0 <= i < s.len() ==> le(#[trigger] s[i], p)
}

/// Every element of `s` is greater than `p`.
pub open spec fn all_gt<T: Ord>(s: Seq<T>, p: T) -> bool {
    forall|i: int| 0 <= i < s.len() ==> gt(#[trigger] s[i], p)
}

/// `s` with the elements at positions `a` and `b` exchanged.
pub open spec fn swapped<T>(s: Seq<T>, a: int, b: int) -> Seq<T> {
    s.update(a, s[b]).update(b, s[a])
}

/// Exchanging two elements keeps the length and the elements as a multiset.
pub proof fn lemma_swapped_permutes<T>(s: Seq<T>, a: int, b: int)
    requires
        0 <= a < s.len(),
        0 <= b < s.len(),
    ensures
        swapped(s, a, b).len() == s.len(),
        swapped(s, a, b).to_multiset() == s.to_multiset(),
{
    broadcast use vstd::seq_lib::group_to_multiset_ensures;

    let mid = s.update(a, s[b]);
    assert(mid.to_multiset() == s.to_multiset().insert(s[b]).remove(s[a]));
    assert(swapped(s, a, b).to_multiset() == mid.to_multiset().insert(s[a]).remove(mid[b]));
    assert(mid[b] == s[b]);
    assert(s.to_multiset().count(s[a]) > 0);
    assert(swapped(s, a, b).to_multiset() =~= s.to_multiset());
}

/// Rearrangements of one another hold the same elements.
pub proof fn lemma_permutation_contains<T>(s: Seq<T>, t: Seq<T>, x: T)
    requires
        s.to_multiset() == t.to_multiset(),
        s.contains(x),
    ensures
        t.contains(x),
{
    s.to_multiset_ensures();
    t.to_multiset_ensures();
    assert(s.to_multiset().count(x) > 0);
    assert(t.to_multiset().count(x) > 0);
}

/// A bound that holds of every element of a sequence holds of every
/// rearrangement of it.
pub proof fn lemma_bounds_of_permutation<T: Ord>(s: Seq<T>, t: Seq<T>, p: T)
    requires
        s.to_multiset() == t.to_multiset(),
    ensures
        all_le(s, p) ==> all_le(t, p),
        all_gt(s, p) ==> all_gt(t, p),
{
    assert forall|i: int| 0 <= i < t.len() implies s.contains(#[trigger] t[i]) by {
        assert(t.contains(t[i]));
        lemma_permutation_contains(t, s, t[i]);
    }
}

/// A sequence that repeats one value is sorted, so sorting it keeps its values
/// place by place.
pub proof fn lemma_constant_is_sorted<T: Ord>(s: Seq<T>, x: T)
    requires
        total_order::<T>(),
        forall|i: int| 0 <= i < s.len() ==> s[i] == x,
    ensures
        sorted(s),
{
    lemma_reflexive(x);
}

/// No element of a sorted sequence is greater than its last element.
pub proof fn lemma_last_is_greatest<T: Ord>(s: Seq<T>, x: T)
    requires
        total_order::<T>(),
        sorted(s),
        s.contains(x),
    ensures
        le(x, s.last()),
{
    let m = choose|m: int| 0 <= m < s.len() && s[m] == x;
    if m == s.len() - 1 {
        lemma_reflexive(x);
    } else {
        assert(le(s[m], s[s.len() - 1]));
    }
}

/// Two sorted arrangements of the same elements agree place by place: the
/// elements at each place are equal under the ordering. So a sort leaves a
/// sorted sequence, and one of equal elements, as it is, value for value.
pub proof fn lemma_sorted_arrangement_is_unique<T: Ord>(a: Seq<T>, b: Seq<T>)
    requires
        total_order::<T>(),
        sorted(a),
        sorted(b),
        a.to_multiset() == b.to_multiset(),
    ensures
        a.len() == b.len(),
        forall|i: int| 0 <= i < a.len() ==> equiv(#[trigger] a[i], b[i]),
    decreases a.len(),
{
    a.to_multiset_ensures();
    b.to_multiset_ensures();
    if a.len() > 0 {
        let n = a.len() as int;
        let x = a.last();
        assert(a.contains(x)) by {
            assert(a[n - 1] == x);
        }
        lemma_permutation_contains(a, b, x);
        let k = choose|k: int| 0 <= k < b.len() && b[k] == x;
        let a1 = a.drop_last();
        let b1 = b.remove(k);
        assert(a1 =~= a.remove(n - 1));
        assert(sorted(a1)) by {
            assert forall|i: int, j: int| 0 <= i < j < a1.len() implies le(
                #[trigger] a1[i],
                #[trigger] a1[j],
            ) by {
                assert(a1[i] == a[i] && a1[j] == a[j]);
            }
        }
        assert(sorted(b1)) by {
            assert forall|i: int, j: int| 0 <= i < j < b1.len() implies le(
                #[trigger] b1[i],
                #[trigger] b1[j],
            ) by {
                let bi = if i < k { i } else { i + 1 };
                let bj = if j < k { j } else { j + 1 };
                assert(b1[i] == b[bi] && b1[j] == b[bj]);
            }
        }
        lemma_sorted_arrangement_is_unique(a1, b1);
        assert forall|i: int| 0 <= i < a.len() implies equiv(#[trigger] a[i], b[i]) by {
            if i < k {
                assert(a1[i] == a[i] && b1[i] == b[i]);
            } else {
                // From place k on, every element of b is equal to x under the ordering.
                assert(le(x, b[i]) && le(b[i], x)) by {
                    if i == k {
                        lemma_reflexive(x);
                    } else {
                        assert(le(b[k], b[i]));
                    }
                    assert(b.contains(b[i]));
                    lemma_permutation_contains(b, a, b[i]);
                    lemma_last_is_greatest(a, b[i]);
                }
                if i < n - 1 {
                    let y = b[i + 1];
                    assert(a1[i] == a[i] && b1[i] == y);
                    assert(le(x, y) && le(y, x)) by {
                        assert(le(b[k], b[i + 1]));
                        assert(b.contains(y));
                        lemma_permutation_contains(b, a, y);
                        lemma_last_is_greatest(a, y);
                    }
                    lemma_flip(a[i], y);
                    lemma_le_transitive(a[i], y, x);
                    lemma_le_transitive(a[i], x, b[i]);
                    lemma_le_transitive(b[i], x, y);
                    lemma_le_transitive(b[i], y, a[i]);
                }
                lemma_antisymmetric(a[i], b[i]);
            }
        }
    }
}

} // verus!
