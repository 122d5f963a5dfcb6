use eva_rt_common::taskset::RTUtils;

fn key(x: f64) -> i64 {
    x.to_bits() as i64
}

#[test]
fn hyperperiod_of_two_periods() {
    assert_eq!(RTUtils::hyperperiod_ns(&vec![2000, 3000]), Some(6000));
}

#[test]
fn hyperperiod_of_empty_taskset_is_one() {
    assert_eq!(RTUtils::hyperperiod_ns(&vec![]), Some(1));
}

#[test]
fn hyperperiod_of_one_period() {
    assert_eq!(RTUtils::hyperperiod_ns(&vec![7]), Some(7));
}

#[test]
fn hyperperiod_uses_absolute_values() {
    assert_eq!(RTUtils::hyperperiod_ns(&vec![-4, 6]), Some(12));
}

#[test]
fn hyperperiod_with_zero_period_is_zero() {
    assert_eq!(RTUtils::hyperperiod_ns(&vec![5, 0, 3]), Some(0));
}

#[test]
fn hyperperiod_of_divisors() {
    assert_eq!(RTUtils::hyperperiod_ns(&vec![10, 5, 2, 20]), Some(20));
}

#[test]
fn hyperperiod_overflow_is_none() {
    assert_eq!(RTUtils::hyperperiod_ns(&vec![i64::MAX, i64::MAX - 1]), None);
}

#[test]
fn hyperperiod_of_min_period_is_none() {
    assert_eq!(RTUtils::hyperperiod_ns(&vec![2, i64::MIN]), None);
}

#[test]
fn hyperperiod_of_largest_period() {
    assert_eq!(RTUtils::hyperperiod_ns(&vec![i64::MAX, 1]), Some(i64::MAX));
}

#[test]
fn sorted_by_period_keys() {
    let keys = vec![key(5.0), key(5.0), key(10.0)];
    assert!(RTUtils::is_sorted_by_key(&keys));
}

#[test]
fn unsorted_by_period_keys() {
    let keys = vec![key(10.0), key(5.0)];
    assert!(!RTUtils::is_sorted_by_key(&keys));
}

#[test]
fn sorted_trivially_for_zero_or_one_key() {
    assert!(RTUtils::is_sorted_by_key(&vec![]));
    assert!(RTUtils::is_sorted_by_key(&vec![42]));
}

#[test]
fn unsorted_late_in_sequence() {
    assert!(!RTUtils::is_sorted_by_key(&vec![1, 2, 3, 9, 4]));
}

#[test]
fn last_max_index_of_empty_is_none() {
    assert_eq!(RTUtils::last_max_index(&vec![]), None);
}

#[test]
fn last_max_index_picks_last_of_ties() {
    assert_eq!(RTUtils::last_max_index(&vec![3, 7, 7, 1]), Some(2));
}

#[test]
fn last_max_index_of_negative_keys() {
    assert_eq!(RTUtils::last_max_index(&vec![-3, -1, -8]), Some(1));
}

#[test]
fn hyperperiod_is_common_multiple() {
    let periods = vec![4, 6, 10, 15];
    let h = RTUtils::hyperperiod_ns(&periods).unwrap();
    assert_eq!(h, 60);
    for p in periods {
        assert_eq!(h % p, 0);
    }
}
