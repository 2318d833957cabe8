//! Choice of a physical join strategy from deterministic row-equivalent costs.
use vstd::prelude::*;
use crate::arith::{floor_log2, ilog2, sat_add, sat_mul, saturating_mul};

verus! {

/// The physical strategy that executes a join.
#[derive(Debug, Clone, Copy, PartialEq, Eq, Structural)]
pub enum JoinStrategy {
    NestedLoop,
    IndexNestedLoop,
    Merge,
    Hash,
}

/// What one equality probe into a fresh index costs.
#[derive(Debug, Clone, Copy, PartialEq, Eq)]
pub struct JoinProbeCost {
    pub per_probe: usize,
    pub index_page_reads: usize,
    pub record_page_reads_per_probe: usize,
}

/// The row-equivalent cost of one strategy: comparison work, index page reads and record page reads.
#[derive(Debug, Clone, Copy, PartialEq, Eq)]
pub struct JoinCost {
    pub strategy_work: usize,
    pub index_page_reads: usize,
    pub record_page_reads: usize,
}

/// Joins whose candidate pair count stays at or below this bound use a nested loop.
pub const NESTED_LOOP_PAIR_LIMIT: usize = 64;

/// The total of a cost's three parts, each sum clamped to `usize::MAX`.
pub open spec fn spec_total(cost: JoinCost) -> usize {
    sat_add(sat_add(cost.strategy_work, cost.index_page_reads), cost.record_page_reads)
}

/// A hash join builds on the right side, weighted twice, and probes with every left row.
pub open spec fn spec_hash_cost(left_count: usize, right_count: usize) -> JoinCost {
    JoinCost {
        strategy_work: sat_add(left_count, sat_mul(right_count, 2)),
        index_page_reads: 0,
        record_page_reads: 0,
    }
}

/// A merge join reads both sides once in key order, plus the index pages that order them.
pub open spec fn spec_merge_cost(left_count: usize, right_count: usize, index_page_reads: usize) -> JoinCost {
    JoinCost {
        strategy_work: sat_add(left_count, right_count),
        index_page_reads,
        record_page_reads: 0,
    }
}

/// An index nested loop probes the inner index once per outer row.
pub open spec fn spec_index_nested_loop_cost(outer_count: usize, probe: JoinProbeCost) -> JoinCost {
    JoinCost {
        strategy_work: sat_mul(outer_count, probe.per_probe),
        index_page_reads: probe.index_page_reads,
        record_page_reads: sat_mul(outer_count, probe.record_page_reads_per_probe),
    }
}

/// Ties between equal totals prefer merge, then index probes, then hashing.
pub open spec fn tie_rank(strategy: JoinStrategy) -> u8 {
    match strategy {
        JoinStrategy::Merge => 0,
        JoinStrategy::IndexNestedLoop => 1,
        JoinStrategy::Hash => 2,
        JoinStrategy::NestedLoop => 3,
    }
}

/// Whether `strategy` is one of the candidates that the inputs make available
/// above the nested-loop bound.
pub open spec fn is_candidate(
    strategy: JoinStrategy,
    probe_cost: Option<JoinProbeCost>,
    merge_page_reads: Option<usize>,
) -> bool {
    match strategy {
        JoinStrategy::Hash => true,
        JoinStrategy::IndexNestedLoop => probe_cost is Some,
        JoinStrategy::Merge => merge_page_reads is Some,
        JoinStrategy::NestedLoop => false,
    }
}

/// Total cost of an available candidate.
pub open spec fn candidate_cost(
    strategy: JoinStrategy,
    left_count: usize,
    right_count: usize,
    probe_cost: Option<JoinProbeCost>,
    merge_page_reads: Option<usize>,
) -> usize {
    match strategy {
        JoinStrategy::IndexNestedLoop => spec_total(spec_index_nested_loop_cost(left_count, probe_cost.unwrap())),
        JoinStrategy::Merge => spec_total(spec_merge_cost(left_count, right_count, merge_page_reads.unwrap())),
        _ => spec_total(spec_hash_cost(left_count, right_count)),
    }
}

/// `a` is at least as cheap as `b`: lower total, or equal total and a preferred tie rank.
pub open spec fn no_worse(
    a: JoinStrategy,
    b: JoinStrategy,
    left_count: usize,
    right_count: usize,
    probe_cost: Option<JoinProbeCost>,
    merge_page_reads: Option<usize>,
) -> bool {
    let ca = candidate_cost(a, left_count, right_count, probe_cost, merge_page_reads);
    let cb = candidate_cost(b, left_count, right_count, probe_cost, merge_page_reads);
    ca < cb || (ca == cb && tie_rank(a) <= tie_rank(b))
}

/// The strategy chosen for the given inputs: a nested loop for small pair
/// counts, otherwise the available candidate that is no worse than any other.
pub open spec fn chosen(
    strategy: JoinStrategy,
    left_count: usize,
    right_count: usize,
    probe_cost: Option<JoinProbeCost>,
    merge_page_reads: Option<usize>,
) -> bool {
    if sat_mul(left_count, right_count) <= NESTED_LOOP_PAIR_LIMIT {
        strategy == JoinStrategy::NestedLoop
    } else {
        &&& is_candidate(strategy, probe_cost, merge_page_reads)
        &&& forall|other: JoinStrategy| #[trigger] is_candidate(other, probe_cost, merge_page_reads)
            ==> no_worse(strategy, other, left_count, right_count, probe_cost, merge_page_reads)
    }
}

impl JoinCost {
    /// The total of this cost's three parts, saturating.
    pub fn total(self) -> (r: usize)
        ensures
            r == spec_total(self),
    {
        self.strategy_work.saturating_add(self.index_page_reads).saturating_add(self.record_page_reads)
    }
}

impl JoinProbeCost {
    /// The probe cost assumed when only the existence of an index is known.
    pub fn legacy(inner_count: usize) -> (r: Self)
        ensures
            r.per_probe == spec_index_probe_cost(inner_count, 0),
            r.index_page_reads == 0,
            r.record_page_reads_per_probe == 0,
    {
        JoinProbeCost {
            per_probe: index_probe_cost(inner_count, 0),
            index_page_reads: 0,
            record_page_reads_per_probe: 0,
        }
    }
}

/// The probe cost that `JoinProbeCost::legacy` gives.
pub open spec fn spec_legacy(inner_count: usize) -> JoinProbeCost {
    JoinProbeCost {
        per_probe: spec_index_probe_cost(inner_count, 0),
        index_page_reads: 0,
        record_page_reads_per_probe: 0,
    }
}

/// Chooses a strategy when all that is known of the inner side is whether it has an index.
pub fn choose_join(left_count: usize, right_count: usize, index_available: bool) -> (r: JoinStrategy)
    ensures
        chosen(
            r,
            left_count,
            right_count,
            if index_available { Some(spec_legacy(right_count)) } else { None },
            None,
        ),
{
    let probe = if index_available {
        Some(JoinProbeCost::legacy(right_count))
    } else {
        None
    };
    choose_with_probe_cost(left_count, right_count, probe)
}

/// Chooses a strategy when the inner side's probe cost may be known.
pub fn choose_with_probe_cost(
    outer_count: usize,
    inner_count: usize,
    probe_cost: Option<JoinProbeCost>,
) -> (r: JoinStrategy)
    ensures
        chosen(r, outer_count, inner_count, probe_cost, None),
{
    choose_with_merge_page_cost(outer_count, inner_count, probe_cost, None)
}

/// Chooses the cheapest strategy: a nested loop for small pair counts, else the
/// candidate of least total cost, merge before index probes before hashing on ties.
pub fn choose_with_merge_page_cost(
    left_count: usize,
    right_count: usize,
    probe_cost: Option<JoinProbeCost>,
    merge_page_reads: Option<usize>,
) -> (r: JoinStrategy)
    ensures
        chosen(r, left_count, right_count, probe_cost, merge_page_reads),
{
    let pair_count = saturating_mul(left_count, right_count);
    if pair_count <= NESTED_LOOP_PAIR_LIMIT {
        return JoinStrategy::NestedLoop;
    }
    let mut best = (JoinStrategy::Hash, hash_cost(left_count, right_count), 2u8);
    if let Some(probe) = probe_cost {
        best = choose_better(
            best,
            (JoinStrategy::IndexNestedLoop, index_nested_loop_cost(left_count, probe), 1u8),
        );
    }
    if let Some(page_reads) = merge_page_reads {
        best = choose_better(
            best,
            (JoinStrategy::Merge, merge_cost(left_count, right_count, page_reads), 0u8),
        );
    }
    assert forall|other: JoinStrategy| #[trigger] is_candidate(other, probe_cost, merge_page_reads)
        implies no_worse(best.0, other, left_count, right_count, probe_cost, merge_page_reads) by {
    }
    best.0
}

/// Keeps the candidate with the lower `(total, tie rank)` pair.
pub fn choose_better(
    current: (JoinStrategy, JoinCost, u8),
    candidate: (JoinStrategy, JoinCost, u8),
) -> (r: (JoinStrategy, JoinCost, u8))
    ensures
        r == (if spec_total(candidate.1) < spec_total(current.1) || (spec_total(candidate.1)
            == spec_total(current.1) && candidate.2 < current.2) {
            candidate
        } else {
            current
        }),
{
    let candidate_total = candidate.1.total();
    let current_total = current.1.total();
    if candidate_total < current_total || (candidate_total == current_total && candidate.2 < current.2) {
        candidate
    } else {
        current
    }
}

/// The cost of a hash join.
pub fn hash_cost(left_count: usize, right_count: usize) -> (r: JoinCost)
    ensures
        r == spec_hash_cost(left_count, right_count),
{
    JoinCost {
        strategy_work: left_count.saturating_add(saturating_mul(right_count, 2)),
        index_page_reads: 0,
        record_page_reads: 0,
    }
}

/// The cost of a merge join over ordered indexes that take `index_page_reads` pages.
pub fn merge_cost(left_count: usize, right_count: usize, index_page_reads: usize) -> (r: JoinCost)
    ensures
        r == spec_merge_cost(left_count, right_count, index_page_reads),
{
    JoinCost {
        strategy_work: left_count.saturating_add(right_count),
        index_page_reads,
        record_page_reads: 0,
    }
}

/// The cost of an index nested loop join.
pub fn index_nested_loop_cost(outer_count: usize, probe: JoinProbeCost) -> (r: JoinCost)
    ensures
        r == spec_index_nested_loop_cost(outer_count, probe),
{
    JoinCost {
        strategy_work: saturating_mul(outer_count, probe.per_probe),
        index_page_reads: probe.index_page_reads,
        record_page_reads: saturating_mul(outer_count, probe.record_page_reads_per_probe),
    }
}

/// Comparisons for one probe into an index over `inner_count` rows: the
/// binary-search depth plus one, plus the expected fan-out of equal keys.
pub open spec fn spec_index_probe_cost(inner_count: usize, average_fanout: usize) -> usize {
    if inner_count <= 1 {
        sat_add(1, average_fanout)
    } else {
        sat_add(sat_add(floor_log2(inner_count as nat) as usize, 1), average_fanout)
    }
}

/// Comparisons for one probe into an index over `inner_count` rows.
pub fn index_probe_cost(inner_count: usize, average_fanout: usize) -> (r: usize)
    ensures
        r == spec_index_probe_cost(inner_count, average_fanout),
{
    if inner_count <= 1 {
        1usize.saturating_add(average_fanout)
    } else {
        ilog2(inner_count).saturating_add(1).saturating_add(average_fanout)
    }
}

} // verus!
