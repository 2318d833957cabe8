use txbase::query::pagination::{encode_physical_cursor, PageScan, ScanStep};
use txbase::join_strategy::JoinStrategy;
use txbase::query::filter::JsonValue;
use txbase::query::join_rows::{
    fallback_executor, row_stream, stage_executor, MergeJoinRows, RowStreamKind, StageExecutor,
};
use txbase::query::path::{array_index, field_value, split_path, PathMatch};
use txbase::query::join::{JoinError, JoinProblem, JoinType};
use txbase::query::join_plan::{driving_rows, KeyIndex};
use txbase::query::join_rows::{
    has_match, hash_join_rows, index_join_supports, matching_positions, IndexJoinRows, IndexJoinStep, NestedJoinRows,
};
use txbase::query::planner::{
    cheapest, choose_access, equality_access, ordered_access, table_scan, IndexStatistics, PlannedAccess, QueryPlan,
};
use txbase::query::request::{QueryError, QueryProblem, QueryRequest};
use txbase::query::stream::validate_bounded_stream;
use txbase::query::join_rows::single_join_step;
use txbase::query::join_merge::{matching_ranges, ordered_left, ordered_records, run_positions};

type Pair = (Option<usize>, Option<usize>);

// Left labels l1..l4 with keys 1, 1, 2 and none; right labels r1..r4 with
// keys 1, 1, 3 and none. Positions stand for the labels.
fn fixture() -> (Vec<Option<u64>>, Vec<Option<u64>>) {
    (vec![Some(1), Some(1), Some(2), None], vec![Some(1), Some(1), Some(3), None])
}

fn collect(kind: JoinType) -> Vec<Pair> {
    let (left, right) = fixture();
    let mut rows = NestedJoinRows::new(left, right, kind).unwrap();
    let mut out = Vec::new();
    while let Some(row) = rows.next_row() {
        out.push(row);
    }
    assert_eq!(rows.next_row(), None);
    out
}

fn hashed(kind: JoinType) -> Vec<Pair> {
    let (left, right) = fixture();
    let (driver, other) = if kind == JoinType::Right { (right, left) } else { (left, right) };
    let index = KeyIndex::build(&other);
    let mut out = Vec::new();
    for (position, key) in driver.iter().enumerate() {
        out.extend(driving_rows(kind, position, &index.matches(*key)));
    }
    if kind == JoinType::Full {
        for (position, key) in other.iter().enumerate() {
            if !has_match(*key, &driver) {
                out.push((None, Some(position)));
            }
        }
    }
    out
}

#[test]
fn streams_all_join_types_in_the_existing_order() {
    assert_eq!(
        collect(JoinType::Inner),
        vec![(Some(0), Some(0)), (Some(0), Some(1)), (Some(1), Some(0)), (Some(1), Some(1))]
    );
    let left = collect(JoinType::Left);
    assert_eq!(left.len(), 6);
    assert_eq!(left[4], (Some(2), None));
    assert_eq!(left[5], (Some(3), None));
    assert_eq!(
        collect(JoinType::Right),
        vec![
            (Some(0), Some(0)),
            (Some(1), Some(0)),
            (Some(0), Some(1)),
            (Some(1), Some(1)),
            (None, Some(2)),
            (None, Some(3)),
        ]
    );
    let full = collect(JoinType::Full);
    assert_eq!(full.len(), 8);
    assert_eq!(full[4], (Some(2), None));
    assert_eq!(full[5], (Some(3), None));
    assert_eq!(full[6], (None, Some(2)));
    assert_eq!(full[7], (None, Some(3)));
    assert_eq!(collect(JoinType::Semi).len(), 2);
    assert_eq!(collect(JoinType::Anti).len(), 2);
    assert_eq!(collect(JoinType::Cross).len(), 16);
}

#[test]
fn streams_nested_join_types() {
    for kind in [JoinType::Inner, JoinType::Left, JoinType::Right, JoinType::Full, JoinType::Semi, JoinType::Anti] {
        assert_eq!(collect(kind), hashed(kind));
    }
}

#[test]
fn nested_semi_and_anti_split_the_left_side() {
    assert_eq!(collect(JoinType::Semi), vec![(Some(0), None), (Some(1), None)]);
    assert_eq!(collect(JoinType::Anti), vec![(Some(2), None), (Some(3), None)]);
}

#[test]
fn nested_cross_joins_are_row_major_and_bounded() {
    let cross = collect(JoinType::Cross);
    assert_eq!(cross[0], (Some(0), Some(0)));
    assert_eq!(cross[3], (Some(0), Some(3)));
    assert_eq!(cross[4], (Some(1), Some(0)));
    assert_eq!(cross[15], (Some(3), Some(3)));
    let mut empty_right = NestedJoinRows::new(vec![Some(1)], Vec::new(), JoinType::Cross).unwrap();
    assert_eq!(empty_right.next_row(), None);
    assert!(matches!(
        NestedJoinRows::new(vec![None; 1000], vec![None; 101], JoinType::Cross),
        Err(JoinError::Invalid(JoinProblem::CrossPairsExceedLimit))
    ));
    assert!(NestedJoinRows::new(vec![None; 1000], vec![None; 100], JoinType::Cross).is_ok());
}

#[test]
fn key_matches_are_found_in_table_order() {
    let keys = vec![Some(7), None, Some(7), Some(8)];
    assert_eq!(matching_positions(Some(7), &keys), vec![0, 2]);
    assert_eq!(matching_positions(None, &keys), Vec::<usize>::new());
    assert!(has_match(Some(8), &keys));
    assert!(!has_match(Some(9), &keys));
    assert!(!has_match(None, &keys));
}

fn drive_index(kind: JoinType, probes: &[Vec<usize>], numbers: Vec<usize>) -> Result<Vec<Pair>, JoinError> {
    let mut rows = IndexJoinRows::new(probes.len(), numbers.len(), numbers, kind)?;
    let mut out = Vec::new();
    loop {
        match rows.next_step()? {
            IndexJoinStep::Done => return Ok(out),
            IndexJoinStep::Probe(position) => rows.probe_answered(probes[position].clone()),
            IndexJoinStep::Row(l, r) => out.push((l, r)),
        }
    }
}

#[test]
fn streams_index_join_rows_by_probe() {
    // Right records numbered 10..13; left records 0 and 1 find 10 and 11,
    // left record 2 finds none, left record 3 has no key.
    let numbers = vec![10, 11, 12, 13];
    let probes = vec![vec![10, 11], vec![10, 11], Vec::new(), Vec::new()];
    assert_eq!(
        drive_index(JoinType::Inner, &probes, numbers.clone()).unwrap(),
        vec![(Some(0), Some(0)), (Some(0), Some(1)), (Some(1), Some(0)), (Some(1), Some(1))]
    );
    let left = drive_index(JoinType::Left, &probes, numbers.clone()).unwrap();
    assert_eq!(left.len(), 6);
    assert_eq!(left[4], (Some(2), None));
    assert_eq!(left[5], (Some(3), None));
    assert_eq!(drive_index(JoinType::Semi, &probes, numbers.clone()).unwrap(), vec![(Some(0), None), (Some(1), None)]);
    assert_eq!(drive_index(JoinType::Anti, &probes, numbers.clone()).unwrap(), vec![(Some(2), None), (Some(3), None)]);
}

#[test]
fn index_join_rows_refuse_unknown_numbers_and_mismatched_rows() {
    let probes = vec![vec![10, 99]];
    assert_eq!(
        drive_index(JoinType::Inner, &probes, vec![10]),
        Err(JoinError::Invalid(JoinProblem::MissingIndexedRecord(99)))
    );
    assert_eq!(drive_index(JoinType::Semi, &probes, vec![10]).unwrap(), vec![(Some(0), None)]);
    assert!(matches!(
        IndexJoinRows::new(1, 2, vec![10], JoinType::Inner),
        Err(JoinError::Invalid(JoinProblem::IndexRowsMismatch))
    ));
    // A repeated record number maps to its last position.
    assert_eq!(drive_index(JoinType::Inner, &[vec![5]], vec![5, 5]).unwrap(), vec![(Some(0), Some(1))]);
    assert!(index_join_supports(JoinType::Inner));
    assert!(index_join_supports(JoinType::Anti));
    assert!(!index_join_supports(JoinType::Right));
    assert!(!index_join_supports(JoinType::Full));
    assert!(!index_join_supports(JoinType::Cross));
}

fn stats() -> IndexStatistics {
    IndexStatistics {
        traversal_costs: vec![("by_city".to_owned(), 3), ("by_age".to_owned(), 3)],
        equality_selectivity: Vec::new(),
        estimated_page_count: 1,
        table_page_count: 10,
    }
}

fn equality(name: &str, field: &str, records: Vec<usize>) -> PlannedAccess {
    PlannedAccess {
        plan: QueryPlan::EqualityIndex { name: name.to_owned(), field: field.to_owned() },
        records: Some(records),
        ordered_prefix: 0,
    }
}

#[test]
fn chooses_the_cheapest_access_path_and_keeps_the_scan_on_ties() {
    let stats = stats();
    let chosen = choose_access(false, Some(&stats), 1000, 0, vec![equality("by_city", "CITY", vec![1, 2, 3])]);
    assert!(matches!(chosen.plan, QueryPlan::EqualityIndex { .. }));
    assert_eq!(chosen.records, Some(vec![1, 2, 3]));
    let scan = choose_access(false, Some(&stats), 2, 0, vec![equality("by_city", "CITY", (0..500).collect())]);
    assert!(matches!(scan.plan, QueryPlan::TableScan));
    assert!(matches!(choose_access(true, Some(&stats), 1000, 0, Vec::new()).plan, QueryPlan::TableScan));
    assert!(matches!(choose_access(false, None, 1000, 0, vec![equality("by_city", "CITY", vec![1])]).plan, QueryPlan::TableScan));
    assert!(cheapest(Vec::new(), &stats, 10, 0).is_none());
    let first = cheapest(
        vec![equality("by_city", "CITY", vec![1, 2]), equality("by_age", "AGE", vec![3, 4])],
        &stats,
        1000,
        0,
    )
    .unwrap();
    assert!(matches!(first.plan, QueryPlan::EqualityIndex { ref name, .. } if name == "by_city"));
    let t = table_scan();
    assert!(matches!(t.plan, QueryPlan::TableScan));
    assert_eq!(t.records, None);
    assert_eq!(t.ordered_prefix, 0);
}

#[test]
fn equality_indexes_intersect_their_records() {
    assert!(equality_access(&Vec::new()).is_none());
    let one = equality_access(&vec![("by_city".to_owned(), "CITY".to_owned(), vec![2, 4, 6])]).unwrap();
    assert!(matches!(one.plan, QueryPlan::EqualityIndex { ref name, ref field } if name == "by_city" && field == "CITY"));
    assert_eq!(one.records, Some(vec![2, 4, 6]));
    let two = equality_access(&vec![
        ("by_city".to_owned(), "CITY".to_owned(), vec![2, 4, 6, 8]),
        ("by_age".to_owned(), "AGE".to_owned(), vec![4, 5, 8]),
    ])
    .unwrap();
    assert_eq!(two.records, Some(vec![4, 8]));
    match two.plan {
        QueryPlan::IndexIntersection { names, fields } => {
            assert_eq!(names, vec!["by_city".to_owned(), "by_age".to_owned()]);
            assert_eq!(fields, vec!["CITY".to_owned(), "AGE".to_owned()]);
        }
        other => panic!("unexpected plan {other:?}"),
    }
}

#[test]
fn ordered_indexes_order_the_sort_they_cover() {
    let sort = vec![("AGE".to_owned(), -1), ("NAME".to_owned(), 1)];
    assert!(ordered_access(&Vec::new(), None, Some(("by_age".to_owned(), vec![1]))).is_none());
    let compound = ordered_access(
        &sort,
        Some(("by_age_name".to_owned(), vec!["AGE".to_owned(), "NAME".to_owned()], vec![-1, 1], vec![3, 1])),
        None,
    )
    .unwrap();
    assert_eq!(compound.ordered_prefix, 2);
    assert!(matches!(compound.plan, QueryPlan::CompoundOrderedIndex { .. }));
    let prefix = ordered_access(&sort, None, Some(("by_age".to_owned(), vec![2, 1]))).unwrap();
    assert_eq!(prefix.ordered_prefix, 1);
    assert!(matches!(prefix.plan, QueryPlan::OrderedIndexPrefix { ref field, direction: -1, .. } if field == "AGE"));
    let single = ordered_access(&vec![("AGE".to_owned(), 1)], None, Some(("by_age".to_owned(), vec![1, 2]))).unwrap();
    assert!(matches!(single.plan, QueryPlan::OrderedIndex { direction: 1, .. }));
    assert!(ordered_access(&sort, None, None).is_none());
}

fn stream_request() -> QueryRequest {
    QueryRequest {
        filter: Vec::new(),
        sort: Vec::new(),
        projection: Vec::new(),
        skip: None,
        limit: None,
        page_size: None,
        cursor: None,
        collation: None,
        aggregate: false,
    }
}

#[test]
fn bounded_streams_require_positive_capacity() {
    assert_eq!(
        validate_bounded_stream(&stream_request(), 0),
        Err(QueryError::Invalid(QueryProblem::StreamCapacityNotPositive))
    );
    assert_eq!(validate_bounded_stream(&stream_request(), 1), Ok(()));
    let mut sorted = stream_request();
    sorted.sort = vec![("AGE".to_owned(), 1)];
    assert_eq!(validate_bounded_stream(&sorted, 0), Err(QueryError::Invalid(QueryProblem::StreamUnsupported)));
}


#[test]
fn pipeline_stages_pick_their_executor() {
    assert_eq!(stage_executor(JoinType::Cross, JoinStrategy::Merge, JoinStrategy::Hash, true, true), StageExecutor::Cross);
    assert_eq!(stage_executor(JoinType::Full, JoinStrategy::IndexNestedLoop, JoinStrategy::Hash, true, true), StageExecutor::Full);
    assert_eq!(stage_executor(JoinType::Inner, JoinStrategy::Merge, JoinStrategy::Hash, true, false), StageExecutor::Merge);
    assert_eq!(stage_executor(JoinType::Inner, JoinStrategy::Merge, JoinStrategy::NestedLoop, false, false), StageExecutor::NestedLeft);
    assert_eq!(stage_executor(JoinType::Right, JoinStrategy::IndexNestedLoop, JoinStrategy::Hash, false, true), StageExecutor::IndexRight);
    assert_eq!(stage_executor(JoinType::Left, JoinStrategy::IndexNestedLoop, JoinStrategy::Hash, false, true), StageExecutor::IndexLeft);
    assert_eq!(stage_executor(JoinType::Right, JoinStrategy::IndexNestedLoop, JoinStrategy::Hash, false, false), StageExecutor::HashRight);
    assert_eq!(stage_executor(JoinType::Semi, JoinStrategy::Hash, JoinStrategy::Hash, true, true), StageExecutor::HashLeft);
    assert_eq!(fallback_executor(JoinType::Right, JoinStrategy::NestedLoop), StageExecutor::NestedRight);
    assert_eq!(row_stream(JoinType::Inner, JoinStrategy::Merge, JoinStrategy::Hash, true, true), RowStreamKind::Merge);
    assert_eq!(row_stream(JoinType::Inner, JoinStrategy::IndexNestedLoop, JoinStrategy::Hash, false, true), RowStreamKind::Index);
    assert_eq!(row_stream(JoinType::Right, JoinStrategy::IndexNestedLoop, JoinStrategy::Hash, false, true), RowStreamKind::Hash);
    assert_eq!(row_stream(JoinType::Right, JoinStrategy::IndexNestedLoop, JoinStrategy::NestedLoop, false, true), RowStreamKind::Nested);
    assert_eq!(row_stream(JoinType::Inner, JoinStrategy::Merge, JoinStrategy::Hash, false, true), RowStreamKind::Hash);
}

fn num(n: &str) -> JsonValue {
    JsonValue::Number(n.to_owned())
}

fn record() -> Vec<(String, JsonValue)> {
    let items = JsonValue::Array(vec![
        JsonValue::Object(vec![("c".to_owned(), num("1"))]),
        JsonValue::Object(vec![("c".to_owned(), num("2"))]),
    ]);
    vec![
        ("a".to_owned(), JsonValue::Object(vec![("b".to_owned(), items)])),
        ("x.y".to_owned(), num("5")),
    ]
}

#[test]
fn paths_walk_members_indices_and_arrays() {
    let values = record();
    assert!(matches!(field_value(&values, "x.y"), PathMatch::One(JsonValue::Number(n)) if n == "5"));
    match field_value(&values, "a.b.c") {
        PathMatch::Many(found) => {
            assert_eq!(found.len(), 2);
            assert!(matches!(found[0], JsonValue::Number(n) if n == "1"));
            assert!(matches!(found[1], JsonValue::Number(n) if n == "2"));
        }
        _ => panic!("expected two values"),
    }
    assert!(matches!(field_value(&values, "a.b.1.c"), PathMatch::One(JsonValue::Number(n)) if n == "2"));
    assert!(matches!(field_value(&values, "a.b.+0.c"), PathMatch::One(JsonValue::Number(n)) if n == "1"));
    assert!(matches!(field_value(&values, "a.b.5.c"), PathMatch::Missing));
    assert!(matches!(field_value(&values, "a.z"), PathMatch::Missing));
    assert!(matches!(field_value(&values, "missing"), PathMatch::Missing));
    assert!(matches!(field_value(&values, "a"), PathMatch::One(JsonValue::Object(_))));
}

#[test]
fn paths_split_at_every_dot() {
    assert_eq!(split_path("a.b.c"), vec!["a".to_owned(), "b".to_owned(), "c".to_owned()]);
    assert_eq!(split_path("a..b"), vec!["a".to_owned(), String::new(), "b".to_owned()]);
    assert_eq!(split_path(""), vec![String::new()]);
    assert_eq!(array_index("12"), Some(12));
    assert_eq!(array_index("+3"), Some(3));
    assert_eq!(array_index("3x"), None);
    assert_eq!(array_index(""), None);
    assert_eq!(array_index("-1"), None);
}

fn merged(kind: JoinType) -> Vec<Pair> {
    // Both fixtures match their key-1 records at positions 0 and 1 of the
    // other side, which index order lists first.
    let runs = vec![Some((0, 2)), Some((0, 2)), None, None];
    let mut rows = MergeJoinRows::new(kind, runs, vec![0, 1, 2, 3]).unwrap();
    let mut out = Vec::new();
    while let Some(row) = rows.next_row() {
        out.push(row);
    }
    assert_eq!(rows.next_row(), None);
    out
}

#[test]
fn streams_merge_without_key_leaks() {
    for kind in [JoinType::Inner, JoinType::Left, JoinType::Right, JoinType::Semi, JoinType::Anti] {
        assert_eq!(merged(kind), collect(kind));
    }
    assert!(matches!(
        MergeJoinRows::new(JoinType::Full, Vec::new(), Vec::new()),
        Err(JoinError::Invalid(JoinProblem::MergeFullJoin))
    ));
    assert!(matches!(
        MergeJoinRows::new(JoinType::Cross, Vec::new(), Vec::new()),
        Err(JoinError::Invalid(JoinProblem::MergeCrossJoin))
    ));
}

#[test]
fn full_joins_keep_every_record_of_both_sides() {
    let full = collect(JoinType::Full);
    for left in 0..4 {
        assert!(full.iter().any(|row| row.0 == Some(left)));
    }
    for right in 0..4 {
        assert!(full.iter().any(|row| row.1 == Some(right)));
    }
}

#[test]
fn split_paths_join_back_with_dots() {
    for path in ["a.b.c", "a..b", ".", "", "x.", "PROFILE.TAGS.0.NAME"] {
        let segments = split_path(path);
        assert_eq!(segments.join("."), path);
        assert!(segments.iter().all(|s| !s.contains('.')));
    }
}

#[test]
fn hash_joins_yield_the_nested_rows_within_the_row_limit() {
    let (left, right) = fixture();
    for kind in [
        JoinType::Inner,
        JoinType::Left,
        JoinType::Right,
        JoinType::Full,
        JoinType::Semi,
        JoinType::Anti,
        JoinType::Cross,
    ] {
        assert_eq!(hash_join_rows(&left, &right, kind).unwrap(), collect(kind));
    }
    let many = vec![Some(1); 400];
    assert_eq!(
        hash_join_rows(&many, &many, JoinType::Inner),
        Err(JoinError::Invalid(JoinProblem::ResultTooLarge))
    );
    let fits = vec![Some(1); 316];
    assert_eq!(hash_join_rows(&fits, &fits, JoinType::Inner).unwrap().len(), 99_856);
    assert_eq!(
        hash_join_rows(&vec![None; 1000], &vec![None; 101], JoinType::Cross),
        Err(JoinError::Invalid(JoinProblem::CrossPairsExceedLimit))
    );
    let unmatched_right = vec![None; 100_001];
    assert_eq!(
        hash_join_rows(&Vec::new(), &unmatched_right, JoinType::Full),
        Err(JoinError::Invalid(JoinProblem::ResultTooLarge))
    );
    assert_eq!(hash_join_rows(&Vec::new(), &vec![None; 100_000], JoinType::Full).unwrap().len(), 100_000);
}


fn scan(cursor: usize, page_size: usize, limit: Option<usize>, numbers: &[usize]) -> (Vec<usize>, Option<String>) {
    let mut scan = PageScan::new(cursor, page_size, limit);
    let mut page = Vec::new();
    for &number in numbers {
        match scan.consider(number) {
            ScanStep::Skip => continue,
            ScanStep::Stop => break,
            ScanStep::Evaluate => {
                if number % 2 == 0 {
                    continue;
                }
                if scan.matched(number) {
                    page.push(number);
                } else {
                    break;
                }
            }
        }
    }
    (page, scan.next_cursor(77))
}

#[test]
fn physical_page_scans_stop_after_a_full_page_or_the_limit() {
    let numbers: Vec<usize> = (1..=12).collect();
    assert_eq!(
        scan(2, 2, None, &numbers),
        (vec![3, 5], Some("{\"version\":1,\"record\":5,\"snapshot\":77}".to_owned()))
    );
    assert_eq!(scan(2, 2, Some(2), &numbers), (vec![3, 5], None));
    assert_eq!(scan(0, 10, None, &numbers), (vec![1, 3, 5, 7, 9, 11], None));
    assert_eq!(scan(9, 1, Some(5), &numbers), (vec![11], None));
    let text = encode_physical_cursor(12, 3);
    let parsed: serde_json::Value = serde_json::from_str(&text).unwrap();
    assert_eq!(parsed["version"], 1);
    assert_eq!(parsed["record"], 12);
    assert_eq!(parsed["snapshot"], 3);
}

/// Runs a merge join of `left` ids with `right` ids, the right side read
/// through an ordered index over `numbers` in `order`, and names each row by
/// the ids it pairs.
fn merge_ids(kind: JoinType, left: &[u64], right: &[u64], numbers: Vec<usize>, order: Vec<usize>) -> Vec<(Option<u64>, Option<u64>)> {
    let left_keys: Vec<Option<Vec<u64>>> = left.iter().map(|id| Some(vec![*id])).collect();
    let right_keys: Vec<Option<Vec<u64>>> = right.iter().map(|id| Some(vec![*id])).collect();
    let left_sorted = ordered_left(&left_keys);
    let right_sorted = ordered_records(&numbers, &order, &right_keys).unwrap();
    let (runs, other) = if kind == JoinType::Right {
        (matching_ranges(&right_sorted, &left_sorted, right.len()), run_positions(&left_sorted, 0, left_sorted.len()))
    } else {
        (matching_ranges(&left_sorted, &right_sorted, left.len()), run_positions(&right_sorted, 0, right_sorted.len()))
    };
    let mut rows = MergeJoinRows::new(kind, runs, other).unwrap();
    let mut output = Vec::new();
    while let Some((l, r)) = rows.next_row() {
        output.push((l.map(|p| left[p]), r.map(|p| right[p])));
    }
    output
}

#[test]
fn preserves_left_order_with_an_ordered_index() {
    let output = merge_ids(JoinType::Left, &[2, 1, 9], &[1, 2, 7], vec![10, 11, 12], vec![10, 11, 12]);

    assert_eq!(output.len(), 3);
    assert_eq!(output[0].0, Some(2));
    assert_eq!(output[0].1, Some(2));
    assert_eq!(output[1].0, Some(1));
    assert_eq!(output[1].1, Some(1));
    assert_eq!(output[2].0, Some(9));
    assert!(output[2].1.is_none());
}

#[test]
fn emits_right_major_rows_for_right_join() {
    let output = merge_ids(JoinType::Right, &[2, 1], &[1, 3], vec![20, 21], vec![20, 21]);

    assert_eq!(output.len(), 2);
    assert_eq!(output[0].1, Some(1));
    assert_eq!(output[0].0, Some(1));
    assert_eq!(output[1].1, Some(3));
    assert!(output[1].0.is_none());
}

#[test]
fn unindexed_sides_are_laid_out_by_key_then_table_order() {
    let keys = vec![Some(vec![5]), None, Some(vec![1, 2]), Some(vec![5]), Some(vec![1])];
    let laid = ordered_left(&keys);
    let pairs: Vec<(usize, Vec<u64>)> = laid.iter().map(|r| (r.position, r.key.clone())).collect();
    assert_eq!(pairs, vec![(4, vec![1]), (2, vec![1, 2]), (0, vec![5]), (3, vec![5])]);
}

#[test]
fn bounded_stream_requires_positive_capacity() {
    let mut request = stream_request();
    request.projection = vec![("NAME".to_owned(), 1)];
    assert!(validate_bounded_stream(&request, 0).is_err());
}

#[test]
fn threaded_stream_requires_positive_capacity() {
    let mut request = stream_request();
    request.projection = vec![("NAME".to_owned(), 1)];
    assert!(validate_bounded_stream(&request, 0).is_err());
}

#[test]
fn direct_joins_pick_merge_then_index_then_nested_or_hash() {
    let step = |kind, l, r, current, historical, merge, orders, index, loaded| {
        single_join_step(kind, l, r, current, historical, merge, orders, index, loaded)
    };
    assert!(matches!(
        step(JoinType::Cross, usize::MAX, 2, true, false, JoinStrategy::Hash, false, JoinStrategy::Hash, false),
        Err(JoinError::Invalid(JoinProblem::CrossPairOverflow))
    ));
    assert!(matches!(
        step(JoinType::Cross, 1000, 101, true, false, JoinStrategy::Hash, false, JoinStrategy::Hash, false),
        Err(JoinError::Invalid(JoinProblem::CrossPairsExceedLimit))
    ));
    assert_eq!(step(JoinType::Cross, 1000, 100, true, false, JoinStrategy::Hash, false, JoinStrategy::Hash, false).unwrap(), StageExecutor::Cross);
    assert_eq!(step(JoinType::Inner, 100, 100, true, false, JoinStrategy::Merge, true, JoinStrategy::Hash, false).unwrap(), StageExecutor::Merge);
    assert_eq!(step(JoinType::Full, 100, 100, true, false, JoinStrategy::Merge, true, JoinStrategy::Hash, false).unwrap(), StageExecutor::Merge);
    assert_eq!(step(JoinType::Full, 100, 100, true, false, JoinStrategy::Merge, false, JoinStrategy::IndexNestedLoop, true).unwrap(), StageExecutor::Full);
    assert_eq!(step(JoinType::Inner, 100, 100, false, false, JoinStrategy::Merge, true, JoinStrategy::Hash, false).unwrap(), StageExecutor::HashLeft);
    assert_eq!(step(JoinType::Left, 100, 100, true, true, JoinStrategy::Merge, true, JoinStrategy::IndexNestedLoop, true).unwrap(), StageExecutor::HashLeft);
    assert_eq!(step(JoinType::Left, 100, 100, true, false, JoinStrategy::Hash, false, JoinStrategy::IndexNestedLoop, true).unwrap(), StageExecutor::IndexLeft);
    assert_eq!(step(JoinType::Right, 100, 100, true, false, JoinStrategy::Hash, false, JoinStrategy::IndexNestedLoop, true).unwrap(), StageExecutor::IndexRight);
    assert_eq!(step(JoinType::Right, 8, 8, true, false, JoinStrategy::Merge, true, JoinStrategy::IndexNestedLoop, true).unwrap(), StageExecutor::NestedRight);
    assert_eq!(step(JoinType::Semi, 8, 9, true, false, JoinStrategy::Hash, false, JoinStrategy::Hash, false).unwrap(), StageExecutor::HashLeft);
    assert_eq!(step(JoinType::Anti, 8, 8, true, false, JoinStrategy::Hash, false, JoinStrategy::Hash, false).unwrap(), StageExecutor::NestedLeft);
}
