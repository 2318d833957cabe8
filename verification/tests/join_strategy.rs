use txbase::join_strategy::{
    choose_join, choose_with_merge_page_cost, choose_with_probe_cost, index_probe_cost,
    JoinProbeCost, JoinStrategy, NESTED_LOOP_PAIR_LIMIT,
};

#[test]
fn chooses_nested_loop_for_small_join_inputs() {
    assert_eq!(choose_join(8, 8, false), JoinStrategy::NestedLoop);
    assert_eq!(choose_join(NESTED_LOOP_PAIR_LIMIT, 1, true), JoinStrategy::NestedLoop);
}

#[test]
fn chooses_hash_for_large_unindexed_inputs() {
    assert_eq!(choose_join(9, 8, false), JoinStrategy::Hash);
    assert_eq!(choose_join(usize::MAX, 2, false), JoinStrategy::Hash);
}

#[test]
fn chooses_index_nested_loop_when_the_outer_side_is_small() {
    assert_eq!(choose_join(8, 1_000, true), JoinStrategy::IndexNestedLoop);
    assert_eq!(choose_join(1_000, 8, true), JoinStrategy::Hash);
}

#[test]
fn chooses_hash_when_index_fanout_is_expensive() {
    assert_eq!(
        choose_with_probe_cost(
            100,
            1_000,
            Some(JoinProbeCost {
                per_probe: index_probe_cost(1_000, 100),
                index_page_reads: 0,
                record_page_reads_per_probe: 0,
            }),
        ),
        JoinStrategy::Hash
    );
}

#[test]
fn chooses_merge_for_large_dual_indexed_inputs() {
    assert_eq!(
        choose_with_merge_page_cost(9, 8, Some(JoinProbeCost::legacy(8)), Some(0)),
        JoinStrategy::Merge
    );
    assert_eq!(
        choose_with_merge_page_cost(NESTED_LOOP_PAIR_LIMIT, 1, Some(JoinProbeCost::legacy(1)), Some(0)),
        JoinStrategy::NestedLoop
    );
}

#[test]
fn accounts_for_probe_page_reads() {
    assert_eq!(
        choose_with_probe_cost(
            8,
            1_000,
            Some(JoinProbeCost { per_probe: 4, index_page_reads: 2, record_page_reads_per_probe: 1 }),
        ),
        JoinStrategy::IndexNestedLoop
    );
    assert_eq!(
        choose_with_probe_cost(
            100,
            1_000,
            Some(JoinProbeCost { per_probe: 4, index_page_reads: 1_000, record_page_reads_per_probe: 20 }),
        ),
        JoinStrategy::Hash
    );
}

#[test]
fn accounts_for_merge_index_pages() {
    assert_eq!(choose_with_merge_page_cost(80, 80, None, Some(0)), JoinStrategy::Merge);
    assert_eq!(choose_with_merge_page_cost(80, 80, None, Some(100)), JoinStrategy::Hash);
}

#[test]
fn index_probe_cost_adds_the_logarithm_of_the_inner_side() {
    assert_eq!(index_probe_cost(0, 3), 4);
    assert_eq!(index_probe_cost(1_000, 100), 110);
    assert_eq!(index_probe_cost(usize::MAX, usize::MAX), usize::MAX);
}
