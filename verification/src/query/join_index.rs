//! The cost of probing a join index, from what its index file reports.
use vstd::prelude::*;
use crate::join_strategy::{JoinProbeCost, index_probe_cost, spec_index_probe_cost};

verus! {

/// The cost of one equality probe into an index whose file estimates
/// `fanout` matches per key (no estimate: the index cannot serve the
/// probe), `index_pages` pages of its own, over a table of `table_pages`
/// pages with `inner_count` records.
pub open spec fn probe_cost_of(fanout: Option<usize>, index_pages: usize, table_pages: usize, inner_count: usize) -> Option<JoinProbeCost> {
    match fanout {
        None => None,
        Some(f) => Some(JoinProbeCost {
            per_probe: spec_index_probe_cost(inner_count, f),
            index_page_reads: index_pages,
            record_page_reads_per_probe: if f < table_pages { f } else { table_pages },
        }),
    }
}

/// The cost of probing a fresh equality index, where its average fan-out is known.
pub fn equality_probe_cost(fanout: Option<usize>, index_pages: usize, table_pages: usize, inner_count: usize) -> (r: Option<JoinProbeCost>)
    ensures
        r == probe_cost_of(fanout, index_pages, table_pages, inner_count),
{
    match fanout {
        None => None,
        Some(f) => Some(JoinProbeCost {
            per_probe: index_probe_cost(inner_count, f),
            index_page_reads: index_pages,
            record_page_reads_per_probe: if f < table_pages { f } else { table_pages },
        }),
    }
}

} // verus!
