use sort_suite::harness::{judge, slices_agree, TestVerdict};

#[test]
fn truncating_sorter_gives_length_mismatch() {
    let input = vec![3u32, 1, 2];
    let mut result = input.clone();
    result.sort();
    result.truncate(2);
    let mut expected = input.clone();
    expected.sort();
    let verdict = judge(input, Some(result), &expected);
    assert_eq!(verdict, TestVerdict::LengthMismatch { before: 3, after: 2 });
}

#[test]
fn unsorted_result_gives_ordering_violation() {
    let input = vec![3u32, 1, 2];
    let verdict = judge(input.clone(), Some(vec![1, 3, 2]), &[1, 2, 3]);
    assert_eq!(
        verdict,
        TestVerdict::OrderingViolation { original: vec![3, 1, 2], result: vec![1, 3, 2] }
    );
}

#[test]
fn changed_elements_give_ordering_violation() {
    let verdict = judge(vec![3u32, 1, 2], Some(vec![1, 2, 4]), &[1, 2, 3]);
    assert_eq!(
        verdict,
        TestVerdict::OrderingViolation { original: vec![3, 1, 2], result: vec![1, 2, 4] }
    );
}

#[test]
fn no_outcome_gives_abnormal_termination() {
    let verdict = judge(vec![3u32, 1, 2], None, &[1, 2, 3]);
    assert_eq!(verdict, TestVerdict::AbnormalTermination);
}

#[test]
fn expected_result_passes() {
    assert_eq!(judge(vec![3u32, 1, 2], Some(vec![1, 2, 3]), &[1, 2, 3]), TestVerdict::Passed);
    assert_eq!(judge(Vec::<u32>::new(), Some(vec![]), &[]), TestVerdict::Passed);
}

#[test]
fn slices_agree_compares_place_by_place() {
    assert!(slices_agree::<u32>(&[], &[]));
    assert!(slices_agree(&[1u32, 2], &[1, 2]));
    assert!(!slices_agree(&[1u32, 2], &[2, 1]));
    assert!(!slices_agree(&[1u32, 2], &[1, 2, 3]));
}
