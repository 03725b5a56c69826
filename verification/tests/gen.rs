use sort_suite::gen::{one_element, random, simple_decreasing, simple_increasing, FromUsize};

#[test]
fn simple_increasing_counts_up() {
    assert_eq!(simple_increasing::<u32>(4), vec![0, 1, 2, 3]);
    assert_eq!(simple_increasing::<i64>(0), Vec::<i64>::new());
}

#[test]
fn simple_decreasing_counts_down() {
    assert_eq!(simple_decreasing::<u32>(4), vec![3, 2, 1, 0]);
    assert_eq!(simple_decreasing::<u8>(1), vec![0]);
    assert_eq!(simple_decreasing::<u8>(0), Vec::<u8>::new());
}

#[test]
fn one_element_repeats() {
    assert_eq!(one_element::<u32>(3, 7), vec![7, 7, 7]);
    assert_eq!(one_element::<u32>(0, 7), Vec::<u32>::new());
    assert_eq!(one_element(2, "a".to_string()), vec!["a".to_string(), "a".to_string()]);
}

#[test]
fn random_values_stay_below_the_count() {
    let v = random::<u32>(100);
    assert_eq!(v.len(), 100);
    for x in &v {
        assert!(*x < 100);
    }
    let one = random::<u64>(1);
    assert_eq!(one, vec![0]);
    assert!(random::<u16>(0).is_empty());
}

#[test]
fn from_usize_keeps_the_low_bits() {
    assert_eq!(<u8 as FromUsize>::from_usize(300), 44);
    assert_eq!(<i8 as FromUsize>::from_usize(255), -1);
    assert_eq!(<u16 as FromUsize>::from_usize(65_537), 1);
    assert_eq!(<i16 as FromUsize>::from_usize(7), 7);
    assert_eq!(<u32 as FromUsize>::from_usize(12), 12);
    assert_eq!(<i32 as FromUsize>::from_usize(12), 12);
    assert_eq!(<u64 as FromUsize>::from_usize(12), 12);
    assert_eq!(<i64 as FromUsize>::from_usize(12), 12);
}
