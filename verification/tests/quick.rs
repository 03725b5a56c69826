use sort_suite::gen::{one_element, random, simple_decreasing, simple_increasing};
use sort_suite::harness::{judge, TestVerdict};
use sort_suite::quick::{
    partition, partition_hoare, partition_lomuto, pivot_center, quick_sort,
    quick_sort_hoare_center, quick_sort_lomuto_center, PartitionScheme,
};

const LENS: [usize; 8] = [1, 2, 3, 4, 10, 23, 77, 100];

fn check_sorter(sorter: fn(&mut [u32]), v: Vec<u32>) {
    let orig = v.clone();
    let mut result = v.clone();
    let mut correct = v;
    sorter(&mut result);
    correct.sort();
    let verdict = judge(orig, Some(result), &correct);
    assert_eq!(verdict, TestVerdict::Passed);
}

fn check_partition(part: fn(&mut [u32], usize) -> usize, input: &[u32]) {
    for pivot_idx in 0..input.len() {
        let mut arr = input.to_vec();
        let pivot = arr[pivot_idx];
        let r = part(&mut arr, pivot_idx);
        assert!(r < arr.len());
        assert_eq!(arr[r], pivot);
        for i in 0..r {
            assert!(arr[i] <= arr[r]);
        }
        for i in r + 1..arr.len() {
            assert!(arr[i] > arr[r]);
        }
        let mut a = arr.clone();
        let mut b = input.to_vec();
        a.sort();
        b.sort();
        assert_eq!(a, b);
    }
}

#[test]
fn hoare_test_empty() {
    check_sorter(quick_sort_hoare_center, vec![]);
}

#[test]
fn hoare_test_random() {
    for &len in &LENS {
        check_sorter(quick_sort_hoare_center, random::<u32>(len));
    }
}

#[test]
fn hoare_test_simple_incr() {
    for &len in &LENS {
        check_sorter(quick_sort_hoare_center, simple_increasing::<u32>(len));
    }
}

#[test]
fn hoare_test_simple_decr() {
    for &len in &LENS {
        check_sorter(quick_sort_hoare_center, simple_decreasing::<u32>(len));
    }
}

#[test]
fn hoare_test_zeroes() {
    for &len in &LENS {
        check_sorter(quick_sort_hoare_center, one_element::<u32>(len, 0));
    }
}

#[test]
fn lomuto_test_empty() {
    check_sorter(quick_sort_lomuto_center, vec![]);
}

#[test]
fn lomuto_test_random() {
    for &len in &LENS {
        check_sorter(quick_sort_lomuto_center, random::<u32>(len));
    }
}

#[test]
fn lomuto_test_simple_incr() {
    for &len in &LENS {
        check_sorter(quick_sort_lomuto_center, simple_increasing::<u32>(len));
    }
}

#[test]
fn lomuto_test_simple_decr() {
    for &len in &LENS {
        check_sorter(quick_sort_lomuto_center, simple_decreasing::<u32>(len));
    }
}

#[test]
fn lomuto_test_zeroes() {
    for &len in &LENS {
        check_sorter(quick_sort_lomuto_center, one_element::<u32>(len, 0));
    }
}

#[test]
fn hoare_sorts_six_values() {
    let mut v = vec![9, 3, 6, 1, 4, 2];
    quick_sort_hoare_center(&mut v);
    assert_eq!(v, vec![1, 2, 3, 4, 6, 9]);
}

#[test]
fn lomuto_sorts_six_values() {
    let mut v = vec![9, 3, 6, 1, 4, 2];
    quick_sort_lomuto_center(&mut v);
    assert_eq!(v, vec![1, 2, 3, 4, 6, 9]);
}

#[test]
fn quick_sort_by_either_scheme() {
    for scheme in [PartitionScheme::Hoare, PartitionScheme::Lomuto] {
        let mut v = vec![9, 3, 6, 1, 4, 2];
        quick_sort(&mut v, scheme);
        assert_eq!(v, vec![1, 2, 3, 4, 6, 9]);
    }
}

#[test]
fn sorted_input_is_a_fixed_point() {
    for scheme in [PartitionScheme::Hoare, PartitionScheme::Lomuto] {
        let mut v: Vec<u32> = vec![1, 2, 2, 3, 5, 8, 13];
        quick_sort(&mut v, scheme);
        assert_eq!(v, vec![1, 2, 2, 3, 5, 8, 13]);
    }
}

#[test]
fn constant_input_is_a_fixed_point() {
    for scheme in [PartitionScheme::Hoare, PartitionScheme::Lomuto] {
        let mut v: Vec<u32> = vec![7; 9];
        quick_sort(&mut v, scheme);
        assert_eq!(v, vec![7; 9]);
    }
}

#[test]
fn empty_and_single_inputs_are_left_alone() {
    for scheme in [PartitionScheme::Hoare, PartitionScheme::Lomuto] {
        let mut e: Vec<u32> = vec![];
        quick_sort(&mut e, scheme);
        assert!(e.is_empty());
        let mut one: Vec<u32> = vec![42];
        quick_sort(&mut one, scheme);
        assert_eq!(one, vec![42]);
    }
}

#[test]
fn sorts_strings_too() {
    let mut v = vec!["pear".to_string(), "apple".to_string(), "fig".to_string()];
    quick_sort_hoare_center(&mut v);
    assert_eq!(v, vec!["apple".to_string(), "fig".to_string(), "pear".to_string()]);
}

#[test]
fn pivot_center_is_the_middle() {
    assert_eq!(pivot_center(&[1u32]), 0);
    assert_eq!(pivot_center(&[1u32, 2]), 1);
    assert_eq!(pivot_center(&[1u32, 2, 3]), 1);
    assert_eq!(pivot_center(&[0u32; 10]), 5);
    assert_eq!(pivot_center::<u32>(&[]), 0);
}

#[test]
fn hoare_partitions_around_every_pivot() {
    check_partition(partition_hoare, &[9, 3, 6, 1, 4, 2]);
    check_partition(partition_hoare, &[5]);
    check_partition(partition_hoare, &[2, 2, 2, 2]);
    check_partition(partition_hoare, &[1, 2, 3, 4, 5]);
    check_partition(partition_hoare, &[5, 4, 3, 2, 1]);
}

#[test]
fn lomuto_partitions_around_every_pivot() {
    check_partition(partition_lomuto, &[9, 3, 6, 1, 4, 2]);
    check_partition(partition_lomuto, &[5]);
    check_partition(partition_lomuto, &[2, 2, 2, 2]);
    check_partition(partition_lomuto, &[1, 2, 3, 4, 5]);
    check_partition(partition_lomuto, &[5, 4, 3, 2, 1]);
}

#[test]
fn hoare_partition_exact_result() {
    let mut v = vec![9, 3, 6, 1, 4, 2];
    let r = partition_hoare(&mut v, 3);
    assert_eq!(r, 0);
    assert_eq!(v[0], 1);
    let mut w = vec![9, 3, 6, 1, 4, 2];
    let r = partition_hoare(&mut w, 0);
    assert_eq!(r, 5);
    assert_eq!(w[5], 9);
}

#[test]
fn lomuto_partition_exact_result() {
    let mut v = vec![9, 3, 6, 1, 4, 2];
    let r = partition_lomuto(&mut v, 2);
    assert_eq!(r, 4);
    assert_eq!(v, vec![2, 3, 1, 4, 6, 9]);
}

#[test]
fn equal_elements_go_left_of_the_pivot() {
    for scheme in [PartitionScheme::Hoare, PartitionScheme::Lomuto] {
        let mut v = vec![4, 4, 4];
        let r = partition(&mut v, 1, scheme);
        assert_eq!(r, 2);
    }
}
