use txbase::query::filter::JsonValue;
use txbase::query::join_merge::KeyOrder;
use txbase::query::request::{CursorText, QueryError, QueryProblem, QueryRequest, SortedCursorDoc};
use txbase::query::sorted_page::{apply_sorted_page, SortedRecord};

fn text(s: &str) -> JsonValue {
    JsonValue::String(s.to_owned())
}

fn by_name(a: Option<&JsonValue>, b: Option<&JsonValue>) -> KeyOrder {
    match (a, b) {
        (None, None) => KeyOrder::Equal,
        (None, Some(_)) => KeyOrder::Less,
        (Some(_), None) => KeyOrder::Greater,
        (Some(JsonValue::String(x)), Some(JsonValue::String(y))) => {
            if x < y {
                KeyOrder::Less
            } else if x == y {
                KeyOrder::Equal
            } else {
                KeyOrder::Greater
            }
        }
        _ => KeyOrder::Equal,
    }
}

fn request(page_size: u64, cursor: Option<SortedCursorDoc>) -> QueryRequest {
    QueryRequest {
        filter: Vec::new(),
        sort: vec![("NAME".to_owned(), 1)],
        projection: Vec::new(),
        skip: None,
        limit: None,
        page_size: Some(page_size),
        cursor: cursor.map(|doc| CursorText { text: String::new(), physical: Err("not physical".to_owned()), sorted: Ok(doc) }),
        collation: None,
        aggregate: false,
    }
}

// In sort order: Ann (record 3), Bob (record 1), Bob (record 2), Cid (record 0).
fn records() -> Vec<SortedRecord> {
    vec![
        SortedRecord { number: 3, keys: vec![Some(text("Ann"))] },
        SortedRecord { number: 1, keys: vec![Some(text("Bob"))] },
        SortedRecord { number: 2, keys: vec![Some(text("Bob"))] },
        SortedRecord { number: 0, keys: vec![Some(text("Cid"))] },
    ]
}

#[test]
fn sorted_pages_resume_after_the_last_record_with_the_record_number_breaking_ties() {
    let (page, next) = apply_sorted_page(&records(), &request(2, None), 7, &by_name).unwrap();
    assert_eq!(page, vec![0, 1]);
    let cursor = next.unwrap();
    assert_eq!(cursor.version, 2);
    assert_eq!(cursor.record, 1);
    assert_eq!(cursor.snapshot, Some(7));
    assert_eq!(cursor.keys.len(), 1);
    assert_eq!(cursor.keys[0].field, "NAME");
    assert!(cursor.keys[0].present);
    assert_eq!(cursor.keys[0].value, text("Bob"));

    let (page, next) = apply_sorted_page(&records(), &request(2, Some(cursor)), 7, &by_name).unwrap();
    assert_eq!(page, vec![2, 3]);
    assert!(next.is_none());
}

#[test]
fn sorted_pages_refuse_a_cursor_of_another_snapshot() {
    let (_, next) = apply_sorted_page(&records(), &request(1, None), 7, &by_name).unwrap();
    let result = apply_sorted_page(&records(), &request(1, next), 8, &by_name);
    assert!(matches!(result, Err(QueryError::Invalid(QueryProblem::CursorSnapshotMismatch))));
}

#[test]
fn sorted_pages_mark_missing_sort_values_absent_in_the_cursor() {
    let records = vec![SortedRecord { number: 5, keys: vec![None] }, SortedRecord { number: 6, keys: vec![None] }];
    let (page, next) = apply_sorted_page(&records, &request(1, None), 1, &by_name).unwrap();
    assert_eq!(page, vec![0]);
    let cursor = next.unwrap();
    assert!(!cursor.keys[0].present);
    assert_eq!(cursor.keys[0].value, JsonValue::Null);
    let (page, next) = apply_sorted_page(&records, &request(1, Some(cursor)), 1, &by_name).unwrap();
    assert_eq!(page, vec![1]);
    assert!(next.is_none());
}

#[test]
fn sorted_pages_of_size_zero_hold_no_record_and_no_cursor() {
    let (page, next) = apply_sorted_page(&records(), &request(0, None), 1, &by_name).unwrap();
    assert!(page.is_empty());
    assert!(next.is_none());
}
