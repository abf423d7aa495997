use oracle_core::external_value::{get_median, mean_of_pair, ExternalValue, Median};

#[test]
fn simple() {
    let array: Vec<u128> = (0..=10).collect();
    let median = array[5];
    assert_eq!(get_median(array), Some(Median::Value(median)));
}

#[test]
fn median_of_unordered_odd_count() {
    assert_eq!(get_median(vec![5, 1, 3]), Some(Median::Value(3)));
    assert_eq!(get_median(vec![9, 2, 7, 1, 8]), Some(Median::Value(7)));
}

#[test]
fn median_of_unordered_even_count() {
    assert_eq!(get_median(vec![126, 124, 128, 123]), Some(Median::Pair(124, 126)));
    assert_eq!(get_median(vec![4, 4]), Some(Median::Pair(4, 4)));
}

#[test]
fn median_undefined_below_two_values() {
    assert_eq!(get_median(vec![]), None);
    assert_eq!(get_median(vec![7]), None);
}

#[test]
fn mean_of_pair_floors_without_overflow() {
    assert_eq!(mean_of_pair(124, 126), 125);
    assert_eq!(mean_of_pair(5476378, 5476387), 5476382);
    assert_eq!(mean_of_pair(3, 4), 3);
    assert_eq!(mean_of_pair(u128::MAX, u128::MAX), u128::MAX);
    assert_eq!(mean_of_pair(u128::MAX, u128::MAX - 1), u128::MAX - 1);
}

#[test]
fn external_value_lifecycle() {
    let mut value = ExternalValue::default();
    assert!(value.is_clean());
    assert_eq!(value.get(), None);
    value.update(10, 106);
    assert!(!value.is_clean());
    assert_eq!(value.get(), Some((10, 106)));
    assert_eq!(value, ExternalValue::new(10, 106));
    value.clean();
    assert!(value.is_clean());
    assert_eq!(value, ExternalValue::clean_value());
}

#[test]
fn external_value_order_is_by_value_then_moment() {
    let clean = ExternalValue::clean_value();
    assert!(clean < ExternalValue::new(0, 0));
    assert!(ExternalValue::new(1, 9) < ExternalValue::new(2, 0));
    assert!(ExternalValue::new(2, 1) < ExternalValue::new(2, 3));
}

#[test]
fn external_value_order_breaks_ties_by_moment() {
    let undated = ExternalValue { value: Some(2), last_changed: None };
    assert!(undated < ExternalValue::new(2, 0));
    assert_eq!(ExternalValue::new(2, 5).partial_cmp(&ExternalValue::new(2, 5)), Some(std::cmp::Ordering::Equal));
    assert!(ExternalValue::new(3, 0) > ExternalValue::new(2, 9));
}

#[test]
fn external_value_cmp_agrees_with_partial_cmp() {
    let values = [
        ExternalValue::clean_value(),
        ExternalValue { value: Some(1), last_changed: None },
        ExternalValue::new(1, 4),
        ExternalValue::new(1, 7),
        ExternalValue::new(6, 0),
    ];
    for a in values.iter() {
        for b in values.iter() {
            assert_eq!(Some(a.cmp(b)), a.partial_cmp(b));
        }
    }
    let mut sorted = values.to_vec();
    sorted.reverse();
    sorted.sort();
    assert_eq!(sorted, values.to_vec());
}
