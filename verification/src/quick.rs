use vstd::prelude::*;
use crate::order::{
    gt, le, lemma_comparable, lemma_flip, lemma_le_below_gt, lemma_reflexive, total_order,
};
use crate::sequence::{
    all_gt, all_le, equal_in_order, lemma_bounds_of_permutation,
    lemma_sorted_arrangement_is_unique, lemma_swapped_permutes, sorted, swapped,
};

verus! {

/// The two ways of rearranging a slice around a pivot.
#[derive(Clone, Copy, Debug, PartialEq, Eq, Structural)]
pub enum PartitionScheme {
    /// Two cursors that move towards each other from both ends.
    Hoare,
    /// One forward scan with a single boundary cursor.
    Lomuto,
}

/// `s` is split around position `r`: nothing before `r` is greater than
/// `s[r]`, and everything after `r` is greater than `s[r]`.
pub open spec fn partitioned<T: Ord>(s: Seq<T>, r: int) -> bool {
    &&& 0 <= r < s.len()
    &&& forall|i: int| 0 <= i < r ==> le(#[trigger] s[i], s[r])
    &&& forall|i: int| r < i < s.len() ==> gt(#[trigger] s[i], s[r])
}

/// `after` is `before` rearranged around the element that was at `pivot_idx`
/// and now rests at `r`.
pub open spec fn partitioned_from<T: Ord>(
    before: Seq<T>,
    pivot_idx: int,
    after: Seq<T>,
    r: int,
) -> bool {
    &&& after.len() == before.len()
    &&& after.to_multiset() == before.to_multiset()
    &&& partitioned(after, r)
    &&& after[r] == before[pivot_idx]
}

/// `<[T]>::swap` exchanges the elements at the two positions and leaves every
/// other element where it was. It panics on an index out of bounds, which the
/// precondition leaves out.
#[verifier::external_body]
fn swap_at<T>(slice: &mut [T], a: usize, b: usize)
    requires
        a < old(slice)@.len(),
        b < old(slice)@.len(),
    ensures
        final(slice)@ == swapped(old(slice)@, a as int, b as int),
{
    slice.swap(a, b)
}

/// The pivot position of the center policy: the middle index of the slice.
pub fn pivot_center<T>(arr: &[T]) -> (idx: usize)
    ensures
        idx == arr@.len() / 2,
        arr@.len() > 0 ==> idx < arr@.len(),
{
    arr.len() / 2
}

/// Rearranges `arr` around the element at `pivot_idx` with two converging
/// cursors and returns the position at which that element comes to rest.
pub fn partition_hoare<T: Ord>(arr: &mut [T], pivot_idx: usize) -> (r: usize)
    requires
        total_order::<T>(),
        old(arr)@.len() >= 1,
        pivot_idx < old(arr)@.len(),
    ensures
        partitioned_from(old(arr)@, pivot_idx as int, final(arr)@, r as int),
{
    let ghost before = arr@;
    let len = arr.len();
    swap_at(arr, 0, pivot_idx);
    let ghost pivot = arr@[0];
    proof {
        lemma_swapped_permutes(before, 0, pivot_idx as int);
        lemma_reflexive(pivot);
    }
    let mut l: usize = 1;
    let mut r: usize = len - 1;
    let ghost mut just_swapped = false;
    loop
        invariant_except_break
            just_swapped ==> l < r && le(arr@[l as int], pivot) && gt(arr@[r as int], pivot),
        invariant
            total_order::<T>(),
            arr@.len() == len,
            len >= 1,
            arr@.to_multiset() == before.to_multiset(),
            arr@[0] == pivot,
            pivot_idx < before.len(),
            pivot == before[pivot_idx as int],
            1 <= l,
            l <= len - 1 || l == 1,
            r < len,
            forall|i: int| 1 <= i < l ==> le(#[trigger] arr@[i], pivot),
            forall|i: int| r < i < len ==> gt(#[trigger] arr@[i], pivot),
        ensures
            l >= r,
            le(arr@[r as int], pivot),
        decreases 2 * (r as int - l as int) + (if just_swapped { 0int } else { 1int }),
    {
        let ghost l0 = l;
        while l < len - 1 && arr[l] <= arr[0]
            invariant
                total_order::<T>(),
                arr@.len() == len,
                len >= 1,
                arr@[0] == pivot,
                1 <= l,
                l <= len - 1 || l == 1,
                forall|i: int| 1 <= i < l ==> le(#[trigger] arr@[i], pivot),
                l >= l0,
                just_swapped && l == l0 ==> l < len - 1 && le(arr@[l as int], pivot),
            decreases len - l,
        {
            proof {
                lemma_comparable(arr@[l as int], pivot);
            }
            l += 1;
        }
        proof {
            if l < len - 1 {
                lemma_comparable(arr@[l as int], pivot);
            }
        }
        assert(just_swapped ==> l > l0);
        assert(l < len - 1 ==> gt(arr@[l as int], pivot));
        while arr[r] > arr[0]
            invariant
                total_order::<T>(),
                arr@.len() == len,
                len >= 1,
                arr@[0] == pivot,
                r < len,
                forall|i: int| r < i < len ==> gt(#[trigger] arr@[i], pivot),
            decreases r,
        {
            proof {
                lemma_comparable(arr@[r as int], pivot);
                lemma_reflexive(pivot);
            }
            r -= 1;
        }
        proof {
            lemma_comparable(arr@[r as int], pivot);
        }
        assert(le(arr@[r as int], pivot));

        if l < r {
            proof {
                lemma_swapped_permutes(arr@, l as int, r as int);
                just_swapped = true;
            }
            swap_at(arr, l, r);
        } else {
            break;
        }
    }

    if r != 0 {
        proof {
            lemma_swapped_permutes(arr@, 0, r as int);
        }
        swap_at(arr, 0, r);
    }
    r
}

/// Rearranges `arr` around the element at `pivot_idx` with one forward scan
/// and returns the position at which that element comes to rest.
pub fn partition_lomuto<T: Ord>(arr: &mut [T], pivot_idx: usize) -> (r: usize)
    requires
        total_order::<T>(),
        old(arr)@.len() >= 1,
        pivot_idx < old(arr)@.len(),
    ensures
        partitioned_from(old(arr)@, pivot_idx as int, final(arr)@, r as int),
{
    let ghost before = arr@;
    let len = arr.len();
    swap_at(arr, 0, pivot_idx);
    let ghost pivot = arr@[0];
    proof {
        lemma_swapped_permutes(before, 0, pivot_idx as int);
        lemma_reflexive(pivot);
    }
    let mut start_upper: usize = 1;
    let mut start_rest: usize = 1;
    while start_rest < len
        invariant
            total_order::<T>(),
            arr@.len() == len,
            arr@.to_multiset() == before.to_multiset(),
            arr@[0] == pivot,
            1 <= start_upper <= start_rest,
            start_rest <= len || start_rest == 1,
            forall|i: int| 1 <= i < start_upper ==> le(#[trigger] arr@[i], pivot),
            forall|i: int| start_upper <= i < start_rest ==> gt(#[trigger] arr@[i], pivot),
        decreases len - start_rest,
    {
        proof {
            lemma_comparable(arr@[start_rest as int], pivot);
        }
        if arr[start_rest] <= arr[0] {
            proof {
                lemma_swapped_permutes(arr@, start_upper as int, start_rest as int);
            }
            swap_at(arr, start_upper, start_rest);
            start_upper += 1;
        }
        start_rest += 1;
    }

    let new_pivot_index = start_upper - 1;
    proof {
        lemma_swapped_permutes(arr@, 0, new_pivot_index as int);
    }
    swap_at(arr, 0, new_pivot_index);
    new_pivot_index
}

/// Rearranges `arr` around the element at `pivot_idx` by the chosen scheme.
pub fn partition<T: Ord>(arr: &mut [T], pivot_idx: usize, scheme: PartitionScheme) -> (r: usize)
    requires
        total_order::<T>(),
        old(arr)@.len() >= 1,
        pivot_idx < old(arr)@.len(),
    ensures
        partitioned_from(old(arr)@, pivot_idx as int, final(arr)@, r as int),
{
    match scheme {
        PartitionScheme::Hoare => partition_hoare(arr, pivot_idx),
        PartitionScheme::Lomuto => partition_lomuto(arr, pivot_idx),
    }
}

/// Sorted parts put back around the pivot of a partitioned sequence give a
/// sorted rearrangement of that sequence.
pub proof fn lemma_sorted_parts<T: Ord>(s: Seq<T>, center: int, left: Seq<T>, right: Seq<T>)
    requires
        total_order::<T>(),
        partitioned(s, center),
        left.to_multiset() == s.subrange(0, center).to_multiset(),
        right.to_multiset() == s.subrange(center + 1, s.len() as int).to_multiset(),
        sorted(left),
        sorted(right),
    ensures
        sorted(left + seq![s[center]] + right),
        (left + seq![s[center]] + right).to_multiset() == s.to_multiset(),
        (left + seq![s[center]] + right).len() == s.len(),
{
    let p = s[center];
    let lo = s.subrange(0, center);
    let hi = s.subrange(center + 1, s.len() as int);
    let out = left + seq![p] + right;
    assert(all_le(lo, p)) by {
        assert forall|i: int| 0 <= i < lo.len() implies le(#[trigger] lo[i], p) by {
            assert(lo[i] == s[i]);
        }
    }
    assert(all_gt(hi, p)) by {
        assert forall|i: int| 0 <= i < hi.len() implies gt(#[trigger] hi[i], p) by {
            assert(hi[i] == s[center + 1 + i]);
        }
    }
    lemma_bounds_of_permutation(lo, left, p);
    lemma_bounds_of_permutation(hi, right, p);
    left.to_multiset_ensures();
    lo.to_multiset_ensures();
    right.to_multiset_ensures();
    hi.to_multiset_ensures();
    assert(left.len() == lo.len());
    assert(right.len() == hi.len());
    assert forall|i: int, j: int| 0 <= i < j < out.len() implies le(
        #[trigger] out[i],
        #[trigger] out[j],
    ) by {
        let c = left.len() as int;
        if j < c {
            assert(out[i] == left[i] && out[j] == left[j]);
        } else if j == c {
            assert(out[i] == left[i] && out[j] == p);
        } else if i < c {
            assert(out[i] == left[i] && out[j] == right[j - c - 1]);
            lemma_le_below_gt(left[i], p, right[j - c - 1]);
        } else if i == c {
            assert(out[i] == p && out[j] == right[j - c - 1]);
            lemma_comparable(p, right[j - c - 1]);
            lemma_flip(right[j - c - 1], p);
        } else {
            assert(out[i] == right[i - c - 1] && out[j] == right[j - c - 1]);
        }
    }
    assert(s =~= lo + seq![p] + hi);
    vstd::seq_lib::lemma_multiset_commutative(left, seq![p]);
    vstd::seq_lib::lemma_multiset_commutative(left + seq![p], right);
    vstd::seq_lib::lemma_multiset_commutative(lo, seq![p]);
    vstd::seq_lib::lemma_multiset_commutative(lo + seq![p], hi);
}

/// `after` is what sorting makes of `before`: a sorted rearrangement of it.
/// A sequence of at most one element is not touched, and a sorted one keeps
/// its values place by place.
pub open spec fn sorted_from<T: Ord>(before: Seq<T>, after: Seq<T>) -> bool {
    &&& after.len() == before.len()
    &&& after.to_multiset() == before.to_multiset()
    &&& sorted(after)
    &&& before.len() <= 1 ==> after == before
    &&& sorted(before) ==> equal_in_order(after, before)
}

/// Sorts `arr` in place: partitions it around its center element by the
/// chosen scheme, then sorts what lies on either side of the pivot.
pub fn quick_sort<T: Ord>(arr: &mut [T], scheme: PartitionScheme)
    requires
        total_order::<T>(),
    ensures
        sorted_from(old(arr)@, final(arr)@),
    decreases old(arr)@.len(),
{
    let ghost before = arr@;
    if arr.len() <= 1 {
        proof {
            if sorted(before) {
                lemma_sorted_arrangement_is_unique(before, before);
            }
        }
        return ;
    }
    let pivot_idx = pivot_center(arr);
    let center = partition(arr, pivot_idx, scheme);
    let ghost parted = arr@;
    let (left, rest) = arr.split_at_mut(center);
    let (mid, right) = rest.split_at_mut(1);
    assert(mid@ =~= seq![parted[center as int]]);
    assert(right@ =~= parted.subrange(center + 1, parted.len() as int));
    quick_sort(left, scheme);
    quick_sort(right, scheme);
    let ghost low = left@;
    let ghost high = right@;
    proof {
        lemma_sorted_parts(parted, center as int, low, high);
    }
    assert(arr@ =~= low + seq![parted[center as int]] + high);
    proof {
        if sorted(before) {
            lemma_sorted_arrangement_is_unique(arr@, before);
        }
    }
}

/// Quicksort with the center pivot and the two-cursor partitioning scheme.
pub fn quick_sort_hoare_center<T: Ord>(arr: &mut [T])
    requires
        total_order::<T>(),
    ensures
        sorted_from(old(arr)@, final(arr)@),
{
    quick_sort(arr, PartitionScheme::Hoare)
}

/// Quicksort with the center pivot and the forward-scan partitioning scheme.
pub fn quick_sort_lomuto_center<T: Ord>(arr: &mut [T])
    requires
        total_order::<T>(),
    ensures
        sorted_from(old(arr)@, final(arr)@),
{
    quick_sort(arr, PartitionScheme::Lomuto)
}

} // verus!
