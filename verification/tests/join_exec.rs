use txbase::query::filter::JsonValue;
use txbase::query::join::{JoinCondition, JoinError, JoinField, JoinProblem, JoinRequest, JoinSpec, JoinType};
use txbase::query::join_exec::{
    check_layout, execute_direct_join, merge_pairs, DirectJoinInputs, IndexProbes, LoadedOrder,
};
use txbase::query::join_merge::{KeyOrder, OrderedRecord};
use txbase::query::join_stages::{execute_pipeline, StageInputs};
use txbase::query::projection::qualified_members;
use txbase::query::request::QueryError;
use txbase::join_strategy::JoinStrategy;

fn num(n: &str) -> JsonValue {
    JsonValue::Number(n.to_owned())
}

fn text(s: &str) -> JsonValue {
    JsonValue::String(s.to_owned())
}

fn record(table: &str, id: u64, name: &str) -> Vec<(String, JsonValue)> {
    let values = vec![("ID".to_owned(), num(&id.to_string())), ("NAME".to_owned(), text(name))];
    qualified_members(table, &values)
}

fn scalar_order(left: &JsonValue, right: &JsonValue) -> Option<KeyOrder> {
    match (left, right) {
        (JsonValue::Number(a), JsonValue::Number(b)) => {
            let (a, b): (i64, i64) = (a.parse().ok()?, b.parse().ok()?);
            Some(if a < b { KeyOrder::Less } else if a == b { KeyOrder::Equal } else { KeyOrder::Greater })
        }
        (JsonValue::String(a), JsonValue::String(b)) => {
            Some(if a < b { KeyOrder::Less } else if a == b { KeyOrder::Equal } else { KeyOrder::Greater })
        }
        _ => None,
    }
}

fn no_expressions(_values: &Vec<&(String, JsonValue)>, _e: &JsonValue) -> Result<bool, QueryError> {
    Ok(false)
}

fn request(kind: JoinType) -> JoinRequest {
    let on = if kind == JoinType::Cross {
        Vec::new()
    } else {
        vec![("users.ID".to_owned(), JoinCondition { equality: JoinField { field: "posts.ID".to_owned() } })]
    };
    JoinRequest {
        from: "users".to_owned(),
        join: JoinSpec { kind, table: "posts".to_owned(), on },
        joins: Vec::new(),
        filter: Vec::new(),
        projection: vec![("users.NAME".to_owned(), 1), ("posts.NAME".to_owned(), 1)],
    }
}

fn plain() -> DirectJoinInputs {
    DirectJoinInputs { current_catalog: true, historical: false, left_order: None, right_order: None, probes: None }
}

fn users() -> Vec<Vec<(String, JsonValue)>> {
    vec![record("users", 1, "Alice"), record("users", 3, "Carol")]
}

fn posts() -> Vec<Vec<(String, JsonValue)>> {
    vec![record("posts", 1, "Alice"), record("posts", 1, "Post"), record("posts", 2, "Other")]
}

fn keys(records: &[Vec<(String, JsonValue)>]) -> Vec<Option<u64>> {
    records
        .iter()
        .map(|r| match &r[0].1 {
            JsonValue::Number(n) => n.parse().ok(),
            _ => None,
        })
        .collect()
}

fn names(rows: &[Vec<(String, JsonValue)>]) -> Vec<Vec<(String, String)>> {
    rows.iter()
        .map(|row| {
            row.iter()
                .map(|(k, v)| {
                    (
                        k.clone(),
                        match v {
                            JsonValue::String(s) => s.clone(),
                            other => format!("{other:?}"),
                        },
                    )
                })
                .collect()
        })
        .collect()
}

fn run(request: &JoinRequest, inputs: &DirectJoinInputs) -> Result<Vec<Vec<(String, JsonValue)>>, JoinError> {
    let (left, right) = (users(), posts());
    execute_direct_join(request, &left, &right, &keys(&left), &keys(&right), inputs, &scalar_order, &no_expressions)
}

fn pair(user: &str, post: Option<&str>) -> Vec<(String, String)> {
    let mut row = vec![("users.NAME".to_owned(), user.to_owned())];
    if let Some(p) = post {
        row.push(("posts.NAME".to_owned(), p.to_owned()));
    }
    row
}

#[test]
fn direct_left_join_keeps_unmatched_left_rows_and_inner_join_drops_them() {
    let rows = run(&request(JoinType::Left), &plain()).unwrap();
    assert_eq!(names(&rows), vec![pair("Alice", Some("Alice")), pair("Alice", Some("Post")), pair("Carol", None)]);
    let rows = run(&request(JoinType::Inner), &plain()).unwrap();
    assert_eq!(names(&rows), vec![pair("Alice", Some("Alice")), pair("Alice", Some("Post"))]);
}

#[test]
fn direct_right_join_keeps_unmatched_right_rows() {
    let rows = run(&request(JoinType::Right), &plain()).unwrap();
    let other = vec![("posts.NAME".to_owned(), "Other".to_owned())];
    assert_eq!(names(&rows), vec![pair("Alice", Some("Alice")), pair("Alice", Some("Post")), other]);
}

#[test]
fn direct_semi_and_anti_joins_keep_left_rows_by_match() {
    assert_eq!(names(&run(&request(JoinType::Semi), &plain()).unwrap()), vec![pair("Alice", None)]);
    assert_eq!(names(&run(&request(JoinType::Anti), &plain()).unwrap()), vec![pair("Carol", None)]);
}

#[test]
fn direct_full_and_cross_joins_pair_every_record() {
    let full = run(&request(JoinType::Full), &plain()).unwrap();
    assert_eq!(full.len(), 4);
    let cross = run(&request(JoinType::Cross), &plain()).unwrap();
    assert_eq!(cross.len(), 6);
}

#[test]
fn direct_join_filters_the_joined_rows() {
    let mut r = request(JoinType::Inner);
    r.filter = vec![("posts.NAME".to_owned(), text("Post"))];
    assert_eq!(names(&run(&r, &plain()).unwrap()), vec![pair("Alice", Some("Post"))]);
}

#[test]
fn direct_join_refuses_a_bad_request_before_reading_pairs() {
    let mut r = request(JoinType::Inner);
    r.join.table = "users".to_owned();
    assert!(matches!(run(&r, &plain()), Err(JoinError::Invalid(JoinProblem::SelfJoin))));
}

fn ordered(position: usize, key: u64) -> OrderedRecord {
    OrderedRecord { position, key: vec![key] }
}

fn many(table: &str, n: usize) -> Vec<Vec<(String, JsonValue)>> {
    (0..n).map(|i| record(table, (i % 5) as u64, &format!("{table}{i}"))).collect()
}

#[test]
fn large_direct_join_merges_over_loaded_orders() {
    let left = many("users", 10);
    let right = many("posts", 10);
    let (lk, rk) = (keys(&left), keys(&right));
    let order_of = |records: &[Vec<(String, JsonValue)>]| {
        let mut o: Vec<OrderedRecord> =
            keys(records).iter().enumerate().map(|(p, k)| ordered(p, k.unwrap())).collect();
        o.sort_by_key(|r| (r.key[0], r.position));
        o
    };
    let inputs = DirectJoinInputs {
        current_catalog: true,
        historical: false,
        left_order: Some(LoadedOrder { records: order_of(&left), page_reads: 1 }),
        right_order: Some(LoadedOrder { records: order_of(&right), page_reads: 1 }),
        probes: None,
    };
    let r = request(JoinType::Inner);
    let merged = execute_direct_join(&r, &left, &right, &lk, &rk, &inputs, &scalar_order, &no_expressions).unwrap();
    let nested = execute_direct_join(&r, &left, &right, &lk, &rk, &plain(), &scalar_order, &no_expressions).unwrap();
    assert_eq!(merged.len(), 20);
    let mut a = names(&merged);
    let mut b = names(&nested);
    a.sort();
    b.sort();
    assert_eq!(a, b);
}

#[test]
fn large_direct_join_probes_the_joined_index() {
    let left = many("users", 10);
    let right = many("posts", 1000);
    let (lk, rk) = (keys(&left), keys(&right));
    let numbers: Vec<usize> = (1..=1000).collect();
    let answers: Vec<Vec<usize>> = lk
        .iter()
        .map(|k| rk.iter().enumerate().filter(|(_, r)| *r == k).map(|(p, _)| p + 1).collect())
        .collect();
    let inputs = DirectJoinInputs {
        current_catalog: true,
        historical: false,
        left_order: None,
        right_order: None,
        probes: Some(IndexProbes { fanout: Some(1), index_pages: 1, table_pages: 1, numbers, answers }),
    };
    let r = request(JoinType::Inner);
    let probed = execute_direct_join(&r, &left, &right, &lk, &rk, &inputs, &scalar_order, &no_expressions).unwrap();
    let nested = execute_direct_join(&r, &left, &right, &lk, &rk, &plain(), &scalar_order, &no_expressions).unwrap();
    assert_eq!(names(&probed), names(&nested));
    let mut broken = inputs;
    if let Some(p) = broken.probes.as_mut() {
        p.answers[0] = vec![5000];
    }
    assert!(matches!(
        execute_direct_join(&r, &left, &right, &lk, &rk, &broken, &scalar_order, &no_expressions),
        Err(JoinError::Invalid(JoinProblem::MissingIndexedRecord(5000)))
    ));
}

#[test]
fn merge_pairs_refuse_unsorted_orders_and_full_joins() {
    let sorted = vec![ordered(0, 1), ordered(1, 2)];
    let unsorted = vec![ordered(0, 2), ordered(1, 1)];
    assert!(check_layout(&sorted, 2));
    assert!(!check_layout(&unsorted, 2));
    assert!(!check_layout(&vec![ordered(0, 1), ordered(0, 2)], 2));
    assert!(!check_layout(&sorted, 1));
    assert!(matches!(
        merge_pairs(JoinType::Inner, &unsorted, &sorted, 2, 2),
        Err(JoinError::Invalid(JoinProblem::IndexRowsMismatch))
    ));
    assert!(matches!(
        merge_pairs(JoinType::Full, &sorted, &sorted, 2, 2),
        Err(JoinError::Invalid(JoinProblem::MergeFullJoin))
    ));
    assert_eq!(merge_pairs(JoinType::Inner, &sorted, &sorted, 2, 2).unwrap(), vec![(Some(0), Some(0)), (Some(1), Some(1))]);
}

fn pipeline_key(members: &Vec<&(String, JsonValue)>, fields: &Vec<String>) -> Option<u64> {
    let mut key = 0u64;
    for field in fields {
        let found = members.iter().find(|(name, _)| name == field)?;
        match &found.1 {
            JsonValue::Number(n) => key = key * 1000 + n.parse::<u64>().ok()?,
            _ => return None,
        }
    }
    Some(key)
}

fn stage() -> StageInputs {
    StageInputs {
        strategy: JoinStrategy::NestedLoop,
        fallback: JoinStrategy::NestedLoop,
        left_order: None,
        right_order: None,
        probes: None,
    }
}

#[test]
fn pipelines_join_each_stage_table_in_turn() {
    let mut r = request(JoinType::Inner);
    r.joins = vec![JoinSpec {
        kind: JoinType::Left,
        table: "tags".to_owned(),
        on: vec![("posts.ID".to_owned(), JoinCondition { equality: JoinField { field: "tags.ID".to_owned() } })],
    }];
    r.projection = vec![("users.NAME".to_owned(), 1), ("posts.NAME".to_owned(), 1), ("tags.NAME".to_owned(), 1)];
    let tables = vec![users(), posts(), vec![record("tags", 1, "Red")]];
    let inputs = vec![stage(), stage()];
    let rows = execute_pipeline(&r, &tables, &inputs, &pipeline_key, &scalar_order, &no_expressions).unwrap();
    let mut first = pair("Alice", Some("Alice"));
    first.push(("tags.NAME".to_owned(), "Red".to_owned()));
    let mut second = pair("Alice", Some("Post"));
    second.push(("tags.NAME".to_owned(), "Red".to_owned()));
    assert_eq!(names(&rows), vec![first, second]);
    let short = vec![users(), posts()];
    assert!(matches!(
        execute_pipeline(&r, &short, &inputs, &pipeline_key, &scalar_order, &no_expressions),
        Err(JoinError::Invalid(JoinProblem::IndexRowsMismatch))
    ));
}

#[test]
fn pipeline_stages_are_bounded_and_cross_stages_checked() {
    let mut r = request(JoinType::Cross);
    r.joins = vec![JoinSpec { kind: JoinType::Cross, table: "tags".to_owned(), on: Vec::new() }];
    let big: Vec<Vec<(String, JsonValue)>> = (0..400).map(|i| record("tags", i, "t")).collect();
    let left: Vec<Vec<(String, JsonValue)>> = (0..300).map(|i| record("users", i, "u")).collect();
    let tables = vec![left, posts(), big];
    let inputs = vec![stage(), stage()];
    assert!(matches!(
        execute_pipeline(&r, &tables, &inputs, &pipeline_key, &scalar_order, &no_expressions),
        Err(JoinError::Invalid(JoinProblem::CrossPairsExceedLimit))
    ));
}

#[test]
fn direct_join_refuses_more_rows_than_the_bound() {
    let left: Vec<Vec<(String, JsonValue)>> = (0..400).map(|_| record("users", 1, "u")).collect();
    let right: Vec<Vec<(String, JsonValue)>> = (0..300).map(|_| record("posts", 1, "p")).collect();
    let (lk, rk) = (keys(&left), keys(&right));
    let inputs = DirectJoinInputs { current_catalog: false, historical: true, left_order: None, right_order: None, probes: None };
    assert!(matches!(
        execute_direct_join(&request(JoinType::Inner), &left, &right, &lk, &rk, &inputs, &scalar_order, &no_expressions),
        Err(JoinError::Invalid(JoinProblem::ResultTooLarge))
    ));
    let mut filtered = request(JoinType::Inner);
    filtered.filter = vec![("posts.NAME".to_owned(), text("none"))];
    assert!(execute_direct_join(&filtered, &left, &right, &lk, &rk, &inputs, &scalar_order, &no_expressions)
        .unwrap()
        .is_empty());
}
