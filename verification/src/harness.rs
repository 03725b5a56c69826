use vstd::prelude::*;
use crate::order::{decides_same, lemma_equiv_is_same, same, total_order};
use crate::quick::sorted_from;
use crate::sequence::lemma_sorted_arrangement_is_unique;

verus! {

/// What a run of a candidate sorter on one input showed.
#[derive(Debug, Clone, PartialEq, Eq)]
pub enum TestVerdict<T> {
    /// The result is the expected one.
    Passed,
    /// The sorter did not return.
    AbnormalTermination,
    /// The sorter returned a sequence of another length.
    LengthMismatch { before: usize, after: usize },
    /// The sorter returned a sequence that is not the expected one.
    OrderingViolation { original: Vec<T>, result: Vec<T> },
}

/// The two sequences have the same length and equal elements at every place.
pub open spec fn agree<T: PartialEq>(a: Seq<T>, b: Seq<T>) -> bool {
    &&& a.len() == b.len()
    &&& forall|i: int| 0 <= i < a.len() ==> same(#[trigger] a[i], b[i])
}

/// The verdict on a sorter that, given `original`, came to `outcome` (`None`
/// if it did not return), where a correct sorter gives `expected`.
pub open spec fn verdict_of<T: PartialEq>(
    original: Vec<T>,
    outcome: Option<Vec<T>>,
    expected: Seq<T>,
) -> TestVerdict<T> {
    match outcome {
        None => TestVerdict::AbnormalTermination,
        Some(result) => if result@.len() != original@.len() {
            TestVerdict::LengthMismatch { before: original.len(), after: result.len() }
        } else if !agree(result@, expected) {
            TestVerdict::OrderingViolation { original, result }
        } else {
            TestVerdict::Passed
        },
    }
}

/// Tells whether the two slices have the same length and equal elements at
/// every place.
pub fn slices_agree<T: PartialEq>(a: &[T], b: &[T]) -> (r: bool)
    requires
        decides_same::<T>(),
    ensures
        r == agree(a@, b@),
{
    if a.len() != b.len() {
        return false;
    }
    let mut i: usize = 0;
    while i < a.len()
        invariant
            decides_same::<T>(),
            a@.len() == b@.len(),
            i <= a@.len(),
            forall|k: int| 0 <= k < i ==> same(#[trigger] a@[k], b@[k]),
        decreases a@.len() - i,
    {
        if a[i] != b[i] {
            return false;
        }
        i += 1;
    }
    true
}

/// Judges what a candidate sorter made of `original`: first whether it
/// returned at all, then the length of what it returned, then each element
/// against the expected result.
pub fn judge<T: PartialEq>(original: Vec<T>, outcome: Option<Vec<T>>, expected: &[T]) -> (v:
    TestVerdict<T>)
    requires
        decides_same::<T>(),
    ensures
        v == verdict_of(original, outcome, expected@),
{
    match outcome {
        None => TestVerdict::AbnormalTermination,
        Some(result) => {
            if result.len() != original.len() {
                TestVerdict::LengthMismatch { before: original.len(), after: result.len() }
            } else if !slices_agree(result.as_slice(), expected) {
                TestVerdict::OrderingViolation { original, result }
            } else {
                TestVerdict::Passed
            }
        },
    }
}

/// A sorter that returns a sorted rearrangement of its input passes, whenever
/// the expected result is a sorted rearrangement of that input too.
pub proof fn lemma_sorted_result_passes<T: Ord>(
    original: Vec<T>,
    result: Vec<T>,
    expected: Seq<T>,
)
    requires
        total_order::<T>(),
        sorted_from(original@, result@),
        sorted_from(original@, expected),
    ensures
        verdict_of(original, Some(result), expected) == TestVerdict::<T>::Passed,
{
    lemma_sorted_arrangement_is_unique(result@, expected);
    assert forall|i: int| 0 <= i < result@.len() implies same(#[trigger] result@[i], expected[i]) by {
        lemma_equiv_is_same(result@[i], expected[i]);
    }
}

/// A sorter that returns a sequence of another length is charged with the
/// length, whatever the sequence holds.
pub proof fn lemma_other_length_is_mismatch<T: PartialEq>(
    original: Vec<T>,
    result: Vec<T>,
    expected: Seq<T>,
)
    requires
        result@.len() != original@.len(),
    ensures
        verdict_of(original, Some(result), expected) == (TestVerdict::<T>::LengthMismatch {
            before: original.len(),
            after: result.len(),
        }),
{
}

} // verus!
