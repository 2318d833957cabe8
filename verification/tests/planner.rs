use txbase::query::filter::JsonValue;
use txbase::query::join_pipeline::{key_values, merge_key_values};
use txbase::query::path::PathMatch;
use txbase::query::planner::{equality_fields, equality_value, range_bounds, range_fields, IndexStatistics};

fn num(n: &str) -> JsonValue {
    JsonValue::Number(n.to_owned())
}

fn ops(entries: &[(&str, JsonValue)]) -> JsonValue {
    JsonValue::Object(entries.iter().map(|(k, v)| (k.to_string(), clone(v))).collect())
}

fn clone(v: &JsonValue) -> JsonValue {
    match v {
        JsonValue::Null => JsonValue::Null,
        JsonValue::Bool(b) => JsonValue::Bool(*b),
        JsonValue::Number(n) => JsonValue::Number(n.clone()),
        JsonValue::String(s) => JsonValue::String(s.clone()),
        JsonValue::Array(items) => JsonValue::Array(items.iter().map(clone).collect()),
        JsonValue::Object(members) => JsonValue::Object(members.iter().map(|(k, v)| (k.clone(), clone(v))).collect()),
    }
}

#[test]
fn equality_conditions_fix_scalars_and_eq_operands() {
    let alice = JsonValue::String("Alice".to_owned());
    assert_eq!(equality_value(&alice), Some(&alice));
    assert_eq!(equality_value(&ops(&[("$gt", num("1")), ("$eq", num("7"))])), Some(&num("7")));
    assert_eq!(equality_value(&ops(&[("$gt", num("1"))])), None);
    assert_eq!(equality_value(&JsonValue::Array(vec![num("1")])), None);
    assert_eq!(equality_value(&JsonValue::Null), Some(&JsonValue::Null));
}

#[test]
fn range_conditions_set_each_end_once() {
    let both = ops(&[("$gt", num("1")), ("$ne", num("3")), ("$lte", num("5"))]);
    assert_eq!(range_bounds(&both), Some((Some((&num("1"), false)), Some((&num("5"), true)))));
    let upper = ops(&[("$lt", num("9"))]);
    assert_eq!(range_bounds(&upper), Some((None, Some((&num("9"), false)))));
    assert_eq!(range_bounds(&ops(&[("$gt", num("1")), ("$gte", num("2"))])), None);
    assert_eq!(range_bounds(&ops(&[("$eq", num("1"))])), None);
    assert_eq!(range_bounds(&num("4")), None);
}

#[test]
fn equality_indexes_are_tried_by_their_estimates() {
    let filter = vec![
        ("NAME".to_owned(), JsonValue::String("Alice".to_owned())),
        ("AGE".to_owned(), ops(&[("$gt", num("3"))])),
        ("ID".to_owned(), ops(&[("$eq", num("7"))])),
        ("ACTIVE".to_owned(), JsonValue::Bool(true)),
        ("CITY".to_owned(), JsonValue::String("Oslo".to_owned())),
    ];
    let stats = IndexStatistics {
        traversal_costs: Vec::new(),
        equality_selectivity: vec![("ID".to_owned(), 5), ("NAME".to_owned(), 9), ("CITY".to_owned(), 5)],
        estimated_page_count: 1,
        table_page_count: 1,
    };
    assert_eq!(equality_fields(&filter, &stats), vec![2, 4, 0, 3]);
}

#[test]
fn range_indexes_are_tried_by_their_estimates() {
    let filter = vec![
        ("AGE".to_owned(), ops(&[("$gte", num("0"))])),
        ("NAME".to_owned(), ops(&[("$gte", JsonValue::String("C".to_owned()))])),
        ("ID".to_owned(), num("4")),
    ];
    assert_eq!(range_fields(&filter, &vec![42, 2, 0]), vec![1, 0]);
    assert_eq!(range_fields(&filter, &vec![7, 7, 0]), vec![0, 1]);
}

fn joined_row() -> Vec<(String, JsonValue)> {
    vec![
        ("users.ID".to_owned(), num("1")),
        ("users.NAME".to_owned(), JsonValue::String("Alice".to_owned())),
        ("users.NOTE".to_owned(), JsonValue::Null),
        (
            "users.TAGS".to_owned(),
            JsonValue::Array(vec![
                ops(&[("NAME", JsonValue::String("a".to_owned()))]),
                ops(&[("NAME", JsonValue::String("b".to_owned()))]),
            ]),
        ),
    ]
}

#[test]
fn join_keys_need_every_field_present_and_not_null() {
    let row = joined_row();
    let fields = vec!["users.ID".to_owned(), "users.TAGS.NAME".to_owned()];
    let found = key_values(&row, &fields).unwrap();
    assert_eq!(found.len(), 2);
    assert!(matches!(found[0], PathMatch::One(JsonValue::Number(ref n)) if n == "1"));
    assert!(matches!(&found[1], PathMatch::Many(values) if values.len() == 2));
    assert!(key_values(&row, &vec!["users.ID".to_owned(), "users.NOTE".to_owned()]).is_none());
    assert!(key_values(&row, &vec!["users.AGE".to_owned()]).is_none());
    assert_eq!(key_values(&row, &Vec::new()).map(|v| v.len()), Some(0));
}

#[test]
fn merge_keys_need_one_scalar_per_field() {
    let row = joined_row();
    let found = merge_key_values(&row, &vec!["users.NAME".to_owned(), "users.ID".to_owned()]).unwrap();
    assert_eq!(found, vec![&JsonValue::String("Alice".to_owned()), &num("1")]);
    assert!(merge_key_values(&row, &vec!["users.TAGS.NAME".to_owned()]).is_none());
    assert!(merge_key_values(&row, &vec!["users.NOTE".to_owned()]).is_none());
    assert!(merge_key_values(&row, &vec!["users.TAGS".to_owned()]).is_none());
}
