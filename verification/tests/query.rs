use txbase::query::filter::{validate_filter, FilterProblem, JsonValue};
use txbase::query::join::{
    join_fields, validate, FieldRole, JoinCondition, JoinError, JoinField, JoinProblem, JoinRequest, JoinSpec, JoinType,
};
use txbase::query::join_index::equality_probe_cost;
use txbase::query::join_merge::{compare_keys, matching_ranges, ordered_records, KeyOrder, OrderedRecord};
use txbase::query::join_pipeline::{stage_fields, unqualified_field};
use txbase::query::join_plan::{
    check_output_room, cross_pair_count, driving_rows, estimate_join_rows, logical_page_reads, materialized_page_reads,
    output_columns, unmatched_positions, KeyIndex,
};
use txbase::query::pagination::{apply, apply_sorted};
use txbase::query::planner::{
    estimated_cost, estimated_record_page_reads, estimated_sort_cost, index_page_reads, IndexStatistics,
    PlannedAccess, QueryPlan,
};
use txbase::query::request::{
    cursor_position_at, validate as validate_query, CursorText, PhysicalCursorDoc, QueryError, QueryProblem,
    QueryRequest, SortedCursorDoc,
};
use txbase::query::stream::{stream_query, stream_query_snapshot, RecordVerdict, StreamAction};
use txbase::server::{query_target, route, QueryTarget, Route};

fn condition(local: &str, foreign: &str) -> (String, JoinCondition) {
    (local.to_owned(), JoinCondition { equality: JoinField { field: foreign.to_owned() } })
}

fn join(kind: JoinType, on: Vec<(String, JoinCondition)>) -> JoinRequest {
    JoinRequest {
        from: "users".to_owned(),
        join: JoinSpec { kind, table: "posts".to_owned(), on },
        joins: Vec::new(),
        filter: Vec::new(),
        projection: Vec::new(),
    }
}

fn request() -> QueryRequest {
    QueryRequest {
        filter: Vec::new(),
        sort: Vec::new(),
        projection: Vec::new(),
        skip: None,
        limit: None,
        page_size: None,
        cursor: None,
        collation: None,
        aggregate: false,
    }
}

fn numeric_cursor(text: &str) -> CursorText {
    CursorText {
        text: text.to_owned(),
        physical: Err("expected value".to_owned()),
        sorted: Err("expected value".to_owned()),
    }
}

#[test]
fn estimates_each_equality_join_shape() {
    let left = vec![Some(1), Some(1), Some(2), None];
    let right = vec![Some(1), Some(3)];
    for (join_type, expected) in [
        (JoinType::Inner, 2),
        (JoinType::Left, 4),
        (JoinType::Right, 3),
        (JoinType::Full, 5),
        (JoinType::Semi, 2),
        (JoinType::Anti, 2),
    ] {
        assert_eq!(estimate_join_rows(&left, &right, join_type).unwrap(), expected, "{join_type:?}");
    }
}

#[test]
fn rejects_cross_join_cardinality_estimation() {
    let keys = vec![Some(1)];
    assert!(estimate_join_rows(&keys, &keys, JoinType::Cross).is_err());
}

#[test]
fn estimates_chained_stage_cardinality_from_qualified_keys() {
    let left = vec![Some(1), Some(1), Some(2), None];
    let right = vec![Some(1), Some(3), None];
    for (join_type, expected) in [
        (JoinType::Inner, 2),
        (JoinType::Left, 4),
        (JoinType::Right, 4),
        (JoinType::Full, 6),
        (JoinType::Semi, 2),
        (JoinType::Anti, 2),
    ] {
        assert_eq!(estimate_join_rows(&left, &right, join_type).unwrap(), expected);
    }
    let left_widths = vec![1, 1, 1, 0];
    let right_widths = vec![1, 1, 1];
    assert_eq!(output_columns(&left_widths, &right_widths, JoinType::Inner), 2);
    assert_eq!(output_columns(&left_widths, &right_widths, JoinType::Semi), 1);
}

#[test]
fn keeps_cost_boundaries_nonzero_for_empty_inputs() {
    let empty: Vec<usize> = Vec::new();
    assert_eq!(output_columns(&empty, &empty, JoinType::Inner), 1);
    assert_eq!(output_columns(&empty, &empty, JoinType::Semi), 1);
    assert_eq!(materialized_page_reads(&empty, 8192), 1);
}

#[test]
fn rounds_materialized_rows_up_to_the_next_page() {
    let page = 8192;
    let row = format!("{{\"payload\":\"{}\"}}", "x".repeat(page));
    assert_eq!(materialized_page_reads(&vec![row.len()], page), 2);
    assert_eq!(logical_page_reads(0, page), 1);
    assert_eq!(logical_page_reads(page, page), 1);
    assert_eq!(logical_page_reads(page + 1, page), 2);
}

#[test]
fn rejects_cross_stage_cardinality_estimation() {
    let rows = vec![Some(1)];
    assert!(matches!(
        estimate_join_rows(&rows, &rows, JoinType::Cross),
        Err(JoinError::Invalid(JoinProblem::CrossEstimation))
    ));
}

fn ordered(position: usize, key: u64) -> OrderedRecord {
    OrderedRecord { position, key: vec![key] }
}

#[test]
fn scans_equal_key_runs_and_maps_them_to_outer_positions() {
    let outer = vec![ordered(1, 1), ordered(3, 1), ordered(5, 3)];
    let inner = vec![ordered(0, 1), ordered(2, 1), ordered(4, 2)];
    let matches = matching_ranges(&outer, &inner, 6);
    assert_eq!(matches[1], Some((0, 2)));
    assert_eq!(matches[3], Some((0, 2)));
    assert_eq!(matches[5], None);
    assert_eq!(matches[0], None);
}

#[test]
fn compares_keys_lexicographically_with_shorter_prefixes_first() {
    assert_eq!(compare_keys(&vec![1, 2], &vec![1, 3]), KeyOrder::Less);
    assert_eq!(compare_keys(&vec![2], &vec![1, 9]), KeyOrder::Greater);
    assert_eq!(compare_keys(&vec![1], &vec![1, 0]), KeyOrder::Less);
    assert_eq!(compare_keys(&vec![4, 4], &vec![4, 4]), KeyOrder::Equal);
}

#[test]
fn merge_sides_are_laid_out_in_index_order() {
    let numbers = vec![10, 11, 12];
    let keys = vec![Some(vec![5]), None, Some(vec![1])];
    let laid = ordered_records(&numbers, &vec![12, 11, 10], &keys).unwrap();
    assert_eq!(laid.iter().map(|r| r.position).collect::<Vec<_>>(), vec![2, 0]);
    assert!(matches!(
        ordered_records(&numbers, &vec![13], &keys),
        Err(JoinError::Invalid(JoinProblem::MissingIndexedRecord(13)))
    ));
}

#[test]
fn cross_join_rejects_equality_conditions() {
    let request = join(JoinType::Cross, vec![condition("users.ID", "posts.ID")]);
    assert!(matches!(validate(&request), Err(JoinError::Invalid(JoinProblem::CrossJoinWithConditions))));
}

#[test]
fn join_rejects_an_empty_condition_set() {
    let request = join(JoinType::Inner, Vec::new());
    assert!(matches!(validate(&request), Err(JoinError::Invalid(JoinProblem::MissingConditions))));
}

#[test]
fn join_accepts_multiple_equality_conditions_and_qualifies_fields() {
    let request = join(
        JoinType::Inner,
        vec![condition("users.AGE", "posts.AGE"), condition("users.ID", "posts.ID")],
    );
    assert!(validate(&request).is_ok());
    let (local, foreign) = join_fields(&request).unwrap();
    assert_eq!(local, vec!["AGE".to_owned(), "ID".to_owned()]);
    assert_eq!(foreign, vec!["AGE".to_owned(), "ID".to_owned()]);
    let bad = join(JoinType::Inner, vec![condition("posts.ID", "posts.ID")]);
    assert!(matches!(
        validate(&bad),
        Err(JoinError::Invalid(JoinProblem::FieldNotQualified { role: FieldRole::Local, .. }))
    ));
    let empty = join(JoinType::Inner, vec![condition("users.", "posts.ID")]);
    assert!(matches!(
        validate(&empty),
        Err(JoinError::Invalid(JoinProblem::EmptyField { role: FieldRole::Local }))
    ));
}

#[test]
fn join_requests_reject_self_joins_and_bad_projections() {
    let mut request = join(JoinType::Inner, vec![condition("users.ID", "posts.ID")]);
    request.join.table = "users".to_owned();
    assert!(matches!(validate(&request), Err(JoinError::Invalid(JoinProblem::SelfJoin))));
    let mut request = join(JoinType::Inner, vec![condition("users.ID", "posts.ID")]);
    request.projection = vec![("users.ID".to_owned(), 1), ("posts.ID".to_owned(), 0)];
    assert!(matches!(validate(&request), Err(JoinError::Invalid(JoinProblem::ProjectionMixed))));
    request.projection = vec![("users.ID".to_owned(), 2)];
    assert!(matches!(validate(&request), Err(JoinError::Invalid(JoinProblem::ProjectionValue))));
}

#[test]
fn join_stages_must_join_new_tables_on_joined_fields() {
    let mut request = join(JoinType::Inner, vec![condition("users.ID", "posts.USER")]);
    request.joins = vec![JoinSpec {
        kind: JoinType::Left,
        table: "tags".to_owned(),
        on: vec![condition("posts.ID", "tags.POST")],
    }];
    assert!(validate(&request).is_ok());
    request.joins[0].table = "posts".to_owned();
    assert!(matches!(
        validate(&request),
        Err(JoinError::Invalid(JoinProblem::TableAlreadyPresent(ref t))) if t == "posts"
    ));
    request.joins[0].table = "tags".to_owned();
    request.joins[0].on = vec![condition("other.ID", "tags.POST")];
    assert!(matches!(
        validate(&request),
        Err(JoinError::Invalid(JoinProblem::FieldNotJoined { role: FieldRole::Local }))
    ));
    let (local, foreign) = stage_fields(&request.joins[0]);
    assert_eq!((local, foreign), (vec!["other.ID".to_owned()], vec!["tags.POST".to_owned()]));
    assert_eq!(unqualified_field("posts.ID", "posts"), Some("ID".to_owned()));
    assert_eq!(unqualified_field("posts.ID", "users"), None);
    assert_eq!(unqualified_field("posts.", "posts"), None);
}

#[test]
fn join_rows_follow_each_join_kind() {
    let left = vec![Some(1), Some(2), None];
    let right = vec![Some(2), Some(1), Some(2)];
    let index = KeyIndex::build(&right);
    assert_eq!(index.matches(Some(2)), vec![0, 2]);
    assert_eq!(index.matches(None), Vec::<usize>::new());
    let m = index.matches(left[1]);
    assert_eq!(driving_rows(JoinType::Inner, 1, &m), vec![(Some(1), Some(0)), (Some(1), Some(2))]);
    assert_eq!(driving_rows(JoinType::Semi, 1, &m), vec![(Some(1), None)]);
    assert_eq!(driving_rows(JoinType::Anti, 1, &m), Vec::new());
    let none = index.matches(left[2]);
    assert_eq!(driving_rows(JoinType::Left, 2, &none), vec![(Some(2), None)]);
    assert_eq!(driving_rows(JoinType::Anti, 2, &none), vec![(Some(2), None)]);
    assert_eq!(driving_rows(JoinType::Right, 0, &none), vec![(None, Some(0))]);
    assert_eq!(driving_rows(JoinType::Right, 0, &vec![1]), vec![(Some(1), Some(0))]);
    let left_index = KeyIndex::build(&left);
    assert_eq!(unmatched_positions(&vec![Some(2), Some(7), None], &left_index), vec![1, 2]);
}

#[test]
fn cross_joins_and_results_are_bounded() {
    assert_eq!(cross_pair_count(100, 1000).unwrap(), 100_000);
    assert!(matches!(cross_pair_count(1000, 101), Err(JoinError::Invalid(JoinProblem::CrossPairsExceedLimit))));
    assert!(matches!(cross_pair_count(usize::MAX, 2), Err(JoinError::Invalid(JoinProblem::CrossPairOverflow))));
    assert!(check_output_room(99_999).is_ok());
    assert!(matches!(check_output_room(100_000), Err(JoinError::Invalid(JoinProblem::ResultTooLarge))));
}

#[test]
fn index_probes_cost_their_fanout() {
    let cost = equality_probe_cost(Some(100), 7, 30, 1_000).unwrap();
    assert_eq!(cost.per_probe, 110);
    assert_eq!(cost.index_page_reads, 7);
    assert_eq!(cost.record_page_reads_per_probe, 30);
    assert!(equality_probe_cost(None, 7, 30, 1_000).is_none());
}

#[test]
fn filters_are_checked_with_their_locations() {
    let ok = vec![
        ("AGE".to_owned(), JsonValue::Object(vec![("$gte".to_owned(), JsonValue::Number("20".to_owned()))])),
        (
            "$or".to_owned(),
            JsonValue::Array(vec![JsonValue::Object(vec![("NAME".to_owned(), JsonValue::String("A".to_owned()))])]),
        ),
    ];
    assert!(validate_filter(&ok, &"filter".to_owned()).is_ok());
    let bad = vec![("$and".to_owned(), JsonValue::Array(vec![JsonValue::Null]))];
    assert_eq!(validate_filter(&bad, &"filter".to_owned()), Err(FilterProblem::MustBeObject("filter.$and[0]".to_owned())));
    let bad = vec![("$nor".to_owned(), JsonValue::Array(Vec::new()))];
    assert_eq!(
        validate_filter(&bad, &"filter".to_owned()),
        Err(FilterProblem::UnsupportedLogicalOperator("$nor".to_owned()))
    );
    let bad = vec![(
        "AGE".to_owned(),
        JsonValue::Object(vec![
            ("$gt".to_owned(), JsonValue::Number("1".to_owned())),
            ("x".to_owned(), JsonValue::Null),
        ]),
    )];
    assert_eq!(
        validate_filter(&bad, &"filter".to_owned()),
        Err(FilterProblem::MixedOperatorsAndFields("filter.AGE".to_owned()))
    );
    let expr = vec![(
        "$expr".to_owned(),
        JsonValue::Object(vec![(
            "$eq".to_owned(),
            JsonValue::Array(vec![JsonValue::String("$".to_owned()), JsonValue::Number("1".to_owned())]),
        )]),
    )];
    assert_eq!(
        validate_filter(&expr, &"filter".to_owned()),
        Err(FilterProblem::EmptyFieldReference("filter.$expr.$eq[0]".to_owned()))
    );
    let unknown = vec![("AGE".to_owned(), JsonValue::Object(vec![("$regex".to_owned(), JsonValue::Null)]))];
    assert_eq!(
        validate_filter(&unknown, &"filter".to_owned()),
        Err(FilterProblem::UnsupportedOperator { operator: "$regex".to_owned(), at: "filter.AGE".to_owned() })
    );
}

#[test]
fn rejects_invalid_sort_direction() {
    let mut r = request();
    r.sort = vec![("AGE".to_owned(), 2)];
    assert_eq!(validate_query(&r), Err(QueryError::Invalid(QueryProblem::SortDirection("AGE".to_owned()))));
}

#[test]
fn query_pages_and_collations_are_checked() {
    let mut r = request();
    r.page_size = Some(0);
    assert_eq!(validate_query(&r), Err(QueryError::Invalid(QueryProblem::PageSizeOutOfRange)));
    let mut r = request();
    r.cursor = Some(numeric_cursor("3"));
    assert_eq!(validate_query(&r), Err(QueryError::Invalid(QueryProblem::CursorWithoutPageSize)));
    let mut r = request();
    r.page_size = Some(2);
    r.skip = Some(1);
    assert_eq!(validate_query(&r), Err(QueryError::Invalid(QueryProblem::CursorWithSkip)));
    let mut r = request();
    r.collation = Some("unicode_lowercase".to_owned());
    assert_eq!(validate_query(&r), Err(QueryError::Invalid(QueryProblem::CollationWithoutSort)));
    let mut r = request();
    r.page_size = Some(2);
    r.cursor = Some(numeric_cursor("abc"));
    assert_eq!(
        validate_query(&r),
        Err(QueryError::Invalid(QueryProblem::InvalidPhysicalCursor("expected value".to_owned())))
    );
    let mut r = request();
    r.sort = vec![("AGE".to_owned(), 1)];
    r.page_size = Some(2);
    r.cursor = Some(CursorText {
        text: "{}".to_owned(),
        physical: Err("unknown field".to_owned()),
        sorted: Ok(SortedCursorDoc { version: 2, record: 1, keys: Vec::new(), collation: None, snapshot: Some(1) }),
    });
    assert_eq!(validate_query(&r), Err(QueryError::Invalid(QueryProblem::SortedCursorSortMismatch)));
}

#[test]
fn physical_pages_follow_record_order_after_the_cursor() {
    let mut r = request();
    r.page_size = Some(2);
    let (page, next) = apply(vec![5, 1, 3, 9], &r, 7).unwrap();
    assert_eq!(page, vec![1, 3]);
    assert_eq!(next, Some("{\"version\":1,\"record\":3,\"snapshot\":7}".to_owned()));
    r.cursor = Some(numeric_cursor("3"));
    let (page, next) = apply(vec![5, 1, 3, 9], &r, 7).unwrap();
    assert_eq!(page, vec![5, 9]);
    assert_eq!(next, None);
    r.cursor = Some(CursorText {
        text: "{\"version\":1,\"record\":1,\"snapshot\":8}".to_owned(),
        physical: Ok(PhysicalCursorDoc { version: 1, record: 1, snapshot: Some(8) }),
        sorted: Err("missing field".to_owned()),
    });
    assert_eq!(apply(vec![1, 2], &r, 7), Err(QueryError::Invalid(QueryProblem::CursorSnapshotMismatch)));
    assert_eq!(cursor_position_at(r.cursor.as_ref().unwrap(), 8), Ok(1));
    let mut plain = request();
    plain.skip = Some(1);
    plain.limit = Some(2);
    assert_eq!(apply(vec![5, 1, 3, 9], &plain, 7).unwrap(), (vec![1, 3], None));
}

#[test]
fn sorted_pages_are_cut_at_the_limit_and_page_size() {
    let mut r = request();
    r.page_size = Some(2);
    assert_eq!(apply_sorted(vec![4, 2, 7], &r), (vec![4, 2], true));
    r.limit = Some(2);
    assert_eq!(apply_sorted(vec![4, 2, 7], &r), (vec![4, 2], false));
}

#[test]
fn streaming_rejects_blocking_and_resume_controls() {
    let mut sorted = request();
    sorted.sort = vec![("AGE".to_owned(), 1)];
    let mut aggregate = request();
    aggregate.aggregate = true;
    let mut paged = request();
    paged.page_size = Some(1);
    for r in [sorted, aggregate, paged] {
        assert!(stream_query(&r).is_err());
    }
}

#[test]
fn streams_skip_then_yield_up_to_their_limit() {
    let mut r = request();
    r.skip = Some(1);
    r.limit = Some(1);
    let mut stream = stream_query_snapshot(&r).unwrap().state;
    assert_eq!(stream.next_position(), Some(0));
    assert_eq!(stream.examine(RecordVerdict::Deleted), StreamAction::Continue);
    assert_eq!(stream.next_position(), Some(1));
    assert_eq!(stream.examine(RecordVerdict::Matched), StreamAction::Continue);
    assert_eq!(stream.next_position(), Some(2));
    assert_eq!(stream.examine(RecordVerdict::Filtered), StreamAction::Continue);
    assert_eq!(stream.next_position(), Some(3));
    assert_eq!(stream.examine(RecordVerdict::Matched), StreamAction::Yield);
    assert_eq!(stream.next_position(), None);
    let mut open = stream_query(&request()).unwrap().state;
    assert_eq!(open.next_position(), Some(0));
    assert_eq!(open.examine(RecordVerdict::Failed), StreamAction::Fail);
    assert_eq!(open.next_position(), None);
}

#[test]
fn planner_costs_count_candidates_pages_and_sorting() {
    let stats = IndexStatistics {
        traversal_costs: vec![("NAME".to_owned(), 3)],
        equality_selectivity: vec![("NAME".to_owned(), 2)],
        estimated_page_count: 4,
        table_page_count: 3,
    };
    let scan = PlannedAccess { plan: QueryPlan::TableScan, records: None, ordered_prefix: 0 };
    let indexed = PlannedAccess {
        plan: QueryPlan::EqualityIndex { name: "NAME".to_owned(), field: "NAME".to_owned() },
        records: Some(vec![1]),
        ordered_prefix: 0,
    };
    assert_eq!(index_page_reads(&scan, &stats), 0);
    assert_eq!(index_page_reads(&indexed, &stats), 4);
    assert_eq!(estimated_record_page_reads(&indexed, 3, 2, 0), 0);
    assert_eq!(estimated_record_page_reads(&scan, 3, 2, 2), 3);
    assert_eq!(estimated_record_page_reads(&indexed, 3, 2, 1), 1);
    assert_eq!(estimated_record_page_reads(&indexed, 3, 2, 2), 3);
    let cost = estimated_cost(&indexed, &stats, 2, 0);
    assert_eq!(cost.candidate_rows, 1);
    assert_eq!(cost.index_traversal, 3);
    assert_eq!(cost.total, 1 + 1 + 3 + 4 + 1);
    assert_eq!(estimated_sort_cost(1, 0), 0);
    assert_eq!(estimated_sort_cost(8, 0), 24);
    assert_eq!(estimated_sort_cost(8, 1), 16);
    let intersection = PlannedAccess {
        plan: QueryPlan::IndexIntersection {
            names: vec!["NAME".to_owned(), "AGE".to_owned()],
            fields: vec!["NAME".to_owned(), "AGE".to_owned()],
        },
        records: Some(vec![1, 2]),
        ordered_prefix: 0,
    };
    let cost = estimated_cost(&intersection, &stats, 5, 1);
    assert_eq!(cost.record_reads, 2 + 2 + 2);
    assert_eq!(cost.index_traversal, 3);
    assert_eq!(cost.sort_work, 2);
}

#[test]
fn requests_are_routed_by_method_and_path() {
    assert_eq!(route("GET", "/records/1?x=1"), Route::Get { path: "/records/1".to_owned() });
    assert_eq!(route("HEAD", "/cdc?after=2"), Route::ChangeFeed);
    assert_eq!(route("QUERY", "/explain"), Route::Explain);
    assert_eq!(route("QUERY", "/records"), Route::Query { path: "/records".to_owned() });
    assert_eq!(route("POST", "/transaction"), Route::Transaction);
    assert_eq!(route("PUT", "/records/3"), Route::Update { path: "/records/3".to_owned(), replace: true });
    assert_eq!(route("PATCH", "/records/3"), Route::Update { path: "/records/3".to_owned(), replace: false });
    assert_eq!(route("DELETE", "/records/3"), Route::Delete { path: "/records/3".to_owned() });
    assert_eq!(route("OPTIONS", "/"), Route::Options);
    assert_eq!(route("TRACE", "/"), Route::MethodNotAllowed);
    assert_eq!(query_target("/records/stream"), QueryTarget::Stream);
    assert_eq!(query_target("/records"), QueryTarget::Records);
    assert_eq!(query_target("/other"), QueryTarget::NotFound);
}

#[test]
fn rejects_unknown_and_mixed_projection_operators() {
    let mut regex = request();
    regex.filter = vec![(
        "AGE".to_owned(),
        JsonValue::Object(vec![("$regex".to_owned(), JsonValue::String("2".to_owned()))]),
    )];
    assert!(validate_query(&regex).is_err());
    let mut mixed = request();
    mixed.projection = vec![("NAME".to_owned(), 1), ("AGE".to_owned(), 0)];
    assert!(validate_query(&mixed).is_err());
}

#[test]
fn issued_physical_cursors_are_bound_to_their_snapshot() {
    let mut r = request();
    r.page_size = Some(1);
    let (_, next) = apply(vec![4, 2], &r, 11).unwrap();
    let text = next.unwrap();
    let cursor = CursorText {
        text,
        physical: Ok(PhysicalCursorDoc { version: 1, record: 2, snapshot: Some(11) }),
        sorted: Err("missing field".to_owned()),
    };
    assert_eq!(cursor_position_at(&cursor, 11), Ok(2));
    assert_eq!(cursor_position_at(&cursor, 12), Err(QueryError::Invalid(QueryProblem::CursorSnapshotMismatch)));
    r.cursor = Some(cursor);
    assert_eq!(apply(vec![4, 2], &r, 11).unwrap(), (vec![4], None));
}

#[test]
fn sorted_cursors_resume_right_after_their_page() {
    let keys: Vec<u64> = vec![10, 20, 20, 30, 40];
    let numbers: Vec<usize> = vec![5, 2, 7, 1, 9];
    let mut r = request();
    r.sort = vec![("AGE".to_owned(), 1)];
    r.page_size = Some(2);
    let all: Vec<usize> = (0..keys.len()).collect();
    let (first, more) = apply_sorted(all.clone(), &r);
    assert_eq!(first, vec![0, 1]);
    assert!(more);
    let cursor = *first.last().unwrap();
    let kept: Vec<usize> = all
        .iter()
        .copied()
        .filter(|&p| {
            let by_key = compare_keys(&vec![keys[p]], &vec![keys[cursor]]);
            txbase::query::ordering::compare_sorted(&vec![by_key], &vec![1], numbers[p], numbers[cursor]) == KeyOrder::Greater
        })
        .collect();
    assert_eq!(kept, vec![2, 3, 4]);
    let (second, more) = apply_sorted(kept, &r);
    assert_eq!(second, vec![2, 3]);
    assert!(more);
}
