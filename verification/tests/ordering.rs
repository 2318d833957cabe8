use txbase::query::filter::JsonValue;
use txbase::query::join_merge::KeyOrder;
use txbase::query::ordering::{compare_for_sort, compare_sorted, type_rank};

#[test]
fn first_differing_key_decides_under_its_direction() {
    let orders = vec![KeyOrder::Equal, KeyOrder::Less];
    assert_eq!(compare_sorted(&orders, &vec![1, 1], 9, 2), KeyOrder::Less);
    assert_eq!(compare_sorted(&orders, &vec![1, -1], 9, 2), KeyOrder::Greater);
    assert_eq!(compare_sorted(&vec![KeyOrder::Greater, KeyOrder::Less], &vec![-1, 1], 1, 2), KeyOrder::Less);
}

#[test]
fn equal_keys_fall_back_to_the_record_number() {
    let orders = vec![KeyOrder::Equal, KeyOrder::Equal];
    let directions = vec![1, -1];
    assert_eq!(compare_sorted(&orders, &directions, 3, 5), KeyOrder::Less);
    assert_eq!(compare_sorted(&orders, &directions, 5, 3), KeyOrder::Greater);
    assert_eq!(compare_sorted(&orders, &directions, 4, 4), KeyOrder::Equal);
    assert_eq!(compare_sorted(&vec![], &vec![], 7, 1), KeyOrder::Greater);
}

#[test]
fn keys_beyond_the_declared_directions_are_ignored() {
    let orders = vec![KeyOrder::Equal, KeyOrder::Greater];
    assert_eq!(compare_sorted(&orders, &vec![1], 1, 2), KeyOrder::Less);
}

#[test]
fn swapping_the_records_reverses_the_order() {
    let orders = vec![KeyOrder::Equal, KeyOrder::Greater, KeyOrder::Less];
    let swapped = vec![KeyOrder::Equal, KeyOrder::Less, KeyOrder::Greater];
    let directions = vec![1, -1, 1];
    assert_eq!(compare_sorted(&orders, &directions, 2, 8), KeyOrder::Less);
    assert_eq!(compare_sorted(&swapped, &directions, 8, 2), KeyOrder::Greater);
}

#[test]
fn absent_sort_values_come_first() {
    let one = JsonValue::Number("1".to_string());
    assert_eq!(compare_for_sort(None, None, None, KeyOrder::Greater), KeyOrder::Equal);
    assert_eq!(compare_for_sort(None, Some(&one), None, KeyOrder::Greater), KeyOrder::Less);
    assert_eq!(compare_for_sort(Some(&one), None, None, KeyOrder::Less), KeyOrder::Greater);
}

#[test]
fn values_that_do_not_compare_fall_back_to_kind_then_text() {
    let null = JsonValue::Null;
    let flag = JsonValue::Bool(true);
    let text = JsonValue::String("a".to_string());
    let list = JsonValue::Array(vec![]);
    assert_eq!(compare_for_sort(Some(&text), Some(&flag), None, KeyOrder::Less), KeyOrder::Greater);
    assert_eq!(compare_for_sort(Some(&null), Some(&list), None, KeyOrder::Greater), KeyOrder::Less);
    assert_eq!(compare_for_sort(Some(&text), Some(&text), None, KeyOrder::Less), KeyOrder::Less);
    assert_eq!(compare_for_sort(Some(&text), Some(&flag), Some(KeyOrder::Equal), KeyOrder::Less), KeyOrder::Equal);
}

#[test]
fn kinds_rank_from_null_to_object() {
    let ranks = [
        type_rank(&JsonValue::Null),
        type_rank(&JsonValue::Bool(false)),
        type_rank(&JsonValue::Number("0".to_string())),
        type_rank(&JsonValue::String(String::new())),
        type_rank(&JsonValue::Array(vec![])),
        type_rank(&JsonValue::Object(vec![])),
    ];
    assert_eq!(ranks, [0, 1, 2, 3, 4, 5]);
}
