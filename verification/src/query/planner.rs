//! Query access plans and their deterministic cost model: candidate rows,
//! index traversal, logical page reads, and the sort left to do.
use vstd::prelude::*;
use crate::arith::{floor_log2, ilog2, sat_add, sat_mul, sat_sub, saturating_mul};
use crate::text::same_text;
use super::filter::JsonValue;

verus! {

/// How a query reaches its candidate records.
#[derive(Debug)]
pub enum QueryPlan {
    TableScan,
    EqualityIndex { name: String, field: String },
    CompoundEqualityIndex { name: String, fields: Vec<String> },
    CompoundEqualityPrefixIndex { name: String, fields: Vec<String> },
    RangeIndex { name: String, field: String },
    IndexIntersection { names: Vec<String>, fields: Vec<String> },
    OrderedIndex { name: String, field: String, direction: i8 },
    OrderedIndexPrefix { name: String, field: String, direction: i8 },
    CompoundOrderedIndex { name: String, fields: Vec<String>, directions: Vec<i8> },
}

/// A plan with the record numbers it yields (all active records when
/// absent) and how many leading sort fields it already orders.
#[derive(Debug)]
pub struct PlannedAccess {
    pub plan: QueryPlan,
    pub records: Option<Vec<usize>>,
    pub ordered_prefix: usize,
}

/// What the cost model reads from a table's index file: each index's
/// traversal cost by name, each field's equality selectivity estimate, the
/// index file's estimated page count, and the table's page count.
#[derive(Debug)]
pub struct IndexStatistics {
    pub traversal_costs: Vec<(String, usize)>,
    pub equality_selectivity: Vec<(String, usize)>,
    pub estimated_page_count: usize,
    pub table_page_count: usize,
}

/// The estimated work of a plan, by kind, and their clamped sum.
#[derive(Debug, Clone, Copy, PartialEq, Eq, Structural)]
pub struct QueryCost {
    pub candidate_rows: usize,
    pub index_traversal: usize,
    pub index_page_reads: usize,
    pub record_reads: usize,
    pub record_page_reads: usize,
    pub filter_evaluations: usize,
    pub sort_work: usize,
    pub total: usize,
}

/// The value that the first entry named `name` carries.
pub open spec fn lookup(entries: Seq<(String, usize)>, name: Seq<char>) -> Option<usize>
    decreases entries.len(),
{
    if entries.len() == 0 {
        None
    } else if entries[0].0@ == name {
        Some(entries[0].1)
    } else {
        lookup(entries.drop_first(), name)
    }
}

fn lookup_entry(entries: &Vec<(String, usize)>, name: &String) -> (r: Option<usize>)
    ensures
        r == lookup(entries@, name@),
{
    let mut i: usize = 0;
    assert(entries@.subrange(0, entries@.len() as int) =~= entries@);
    while i < entries.len()
        invariant
            i <= entries@.len(),
            lookup(entries@, name@) == lookup(entries@.subrange(i as int, entries@.len() as int), name@),
        decreases entries.len() - i,
    {
        let ghost rest = entries@.subrange(i as int, entries@.len() as int);
        assert(rest[0] == entries@[i as int]);
        assert(rest.drop_first() =~= entries@.subrange(i + 1, entries@.len() as int));
        if same_text(&entries[i].0, name) {
            return Some(entries[i].1);
        }
        i += 1;
    }
    None
}

/// The summed traversal cost of the named indexes, skipping unknown names.
pub open spec fn traversal_sum(stats: Seq<(String, usize)>, names: Seq<String>) -> usize
    decreases names.len(),
{
    if names.len() == 0 {
        0
    } else {
        sat_add(
            traversal_sum(stats, names.drop_last()),
            match lookup(stats, names.last()@) {
                Some(c) => c,
                None => 0,
            },
        )
    }
}

/// The index traversal cost of a plan.
pub open spec fn traversal_cost_of(plan: QueryPlan, stats: IndexStatistics) -> usize {
    match plan {
        QueryPlan::TableScan => 0,
        QueryPlan::IndexIntersection { names, .. } => traversal_sum(stats.traversal_costs@, names@),
        QueryPlan::EqualityIndex { name, .. } | QueryPlan::CompoundEqualityIndex { name, .. }
        | QueryPlan::CompoundEqualityPrefixIndex { name, .. } | QueryPlan::RangeIndex { name, .. }
        | QueryPlan::OrderedIndex { name, .. } | QueryPlan::OrderedIndexPrefix { name, .. }
        | QueryPlan::CompoundOrderedIndex { name, .. } => match lookup(stats.traversal_costs@, name@) {
            Some(c) => c,
            None => 0,
        },
    }
}

/// The records an intersection reads: the candidates plus each field's
/// equality estimate, or the candidate count for a field without one.
pub open spec fn intersection_reads(stats: Seq<(String, usize)>, fields: Seq<String>, candidates: usize) -> usize
    decreases fields.len(),
{
    if fields.len() == 0 {
        candidates
    } else {
        sat_add(
            intersection_reads(stats, fields.drop_last(), candidates),
            match lookup(stats, fields.last()@) {
                Some(e) => e,
                None => candidates,
            },
        )
    }
}

/// The records a plan reads: for an index intersection the candidates plus
/// each field's equality estimate, else the candidates themselves.
pub open spec fn record_reads_of(plan: QueryPlan, stats: IndexStatistics, candidates: usize) -> usize {
    match plan {
        QueryPlan::IndexIntersection { fields, .. } => intersection_reads(stats.equality_selectivity@, fields@, candidates),
        _ => candidates,
    }
}

/// Logical page reads of the records: none without candidates, every
/// table page for a scan or when all active records are candidates, and at
/// most one page per candidate otherwise.
pub open spec fn record_page_reads_of(plan: QueryPlan, table_pages: usize, active: usize, candidates: usize) -> usize {
    if candidates == 0 {
        0
    } else if plan is TableScan || candidates >= active {
        table_pages
    } else if candidates < table_pages {
        candidates
    } else {
        table_pages
    }
}

/// The comparisons of sorting `count` records, less one pass when a
/// prefix of the sort is already in order.
pub open spec fn sort_cost_of(count: usize, ordered_prefix: usize) -> usize {
    if count < 2 {
        0
    } else if ordered_prefix == 0 {
        sat_mul(count, floor_log2(count as nat) as usize)
    } else {
        sat_sub(sat_mul(count, floor_log2(count as nat) as usize), count)
    }
}

/// The cost of an access for a query sorted on `sort_len` fields.
pub open spec fn cost_of(access: PlannedAccess, stats: IndexStatistics, active: usize, sort_len: usize) -> QueryCost {
    let candidates = match access.records {
        Some(r) => r@.len() as usize,
        None => active,
    };
    let reads = record_reads_of(access.plan, stats, candidates);
    let sort = if sort_len > access.ordered_prefix { sort_cost_of(candidates, access.ordered_prefix) } else { 0 };
    let traversal = traversal_cost_of(access.plan, stats);
    let index_pages = if access.plan is TableScan { 0 } else { stats.estimated_page_count };
    let record_pages = record_page_reads_of(access.plan, stats.table_page_count, active, candidates);
    QueryCost {
        candidate_rows: candidates,
        index_traversal: traversal,
        index_page_reads: index_pages,
        record_reads: reads,
        record_page_reads: record_pages,
        filter_evaluations: candidates,
        sort_work: sort,
        total: sat_add(sat_add(sat_add(sat_add(sat_add(reads, candidates), traversal), index_pages), record_pages), sort),
    }
}

/// The estimated number of records that an access path reads.
pub fn estimated_record_reads(access: &PlannedAccess, stats: &IndexStatistics, candidate_rows: usize) -> (r: usize)
    ensures
        r == record_reads_of(access.plan, *stats, candidate_rows),
{
    match &access.plan {
        QueryPlan::IndexIntersection { fields, .. } => {
            let mut total = candidate_rows;
            let mut i: usize = 0;
            while i < fields.len()
                invariant
                    i <= fields@.len(),
                    total == intersection_reads(stats.equality_selectivity@, fields@.subrange(0, i as int), candidate_rows),
                decreases fields.len() - i,
            {
                assert(fields@.subrange(0, i + 1).drop_last() =~= fields@.subrange(0, i as int));
                let estimate = match lookup_entry(&stats.equality_selectivity, &fields[i]) {
                    Some(e) => e,
                    None => candidate_rows,
                };
                total = total.saturating_add(estimate);
                i += 1;
            }
            assert(fields@.subrange(0, fields@.len() as int) =~= fields@);
            total
        },
        _ => candidate_rows,
    }
}

/// The traversal cost of the plan's indexes; an intersection sums its
/// known indexes, clamped to `usize::MAX`.
pub fn index_traversal_cost(access: &PlannedAccess, stats: &IndexStatistics) -> (r: usize)
    ensures
        r == traversal_cost_of(access.plan, *stats),
{
    match &access.plan {
        QueryPlan::TableScan => 0,
        QueryPlan::IndexIntersection { names, .. } => {
            let mut total: usize = 0;
            let mut i: usize = 0;
            while i < names.len()
                invariant
                    i <= names@.len(),
                    total == traversal_sum(stats.traversal_costs@, names@.subrange(0, i as int)),
                decreases names.len() - i,
            {
                assert(names@.subrange(0, i + 1).drop_last() =~= names@.subrange(0, i as int));
                let cost = match lookup_entry(&stats.traversal_costs, &names[i]) {
                    Some(c) => c,
                    None => 0,
                };
                total = total.saturating_add(cost);
                i += 1;
            }
            assert(names@.subrange(0, names@.len() as int) =~= names@);
            total
        },
        QueryPlan::EqualityIndex { name, .. } | QueryPlan::CompoundEqualityIndex { name, .. }
        | QueryPlan::CompoundEqualityPrefixIndex { name, .. } | QueryPlan::RangeIndex { name, .. }
        | QueryPlan::OrderedIndex { name, .. } | QueryPlan::OrderedIndexPrefix { name, .. }
        | QueryPlan::CompoundOrderedIndex { name, .. } => match lookup_entry(&stats.traversal_costs, name) {
            Some(c) => c,
            None => 0,
        },
    }
}

/// Index pages read: none for a scan, the index file's estimate otherwise.
pub fn index_page_reads(access: &PlannedAccess, stats: &IndexStatistics) -> (r: usize)
    ensures
        r == if access.plan is TableScan { 0 } else { stats.estimated_page_count },
{
    match &access.plan {
        QueryPlan::TableScan => 0,
        _ => stats.estimated_page_count,
    }
}

/// The estimated number of record pages that an access path reads.
pub fn estimated_record_page_reads(access: &PlannedAccess, table_page_count: usize, active_record_count: usize, candidate_rows: usize) -> (r: usize)
    ensures
        r == record_page_reads_of(access.plan, table_page_count, active_record_count, candidate_rows),
{
    if candidate_rows == 0 {
        return 0;
    }
    let scan = match &access.plan {
        QueryPlan::TableScan => true,
        _ => false,
    };
    if scan || candidate_rows >= active_record_count {
        return table_page_count;
    }
    if candidate_rows < table_page_count {
        candidate_rows
    } else {
        table_page_count
    }
}

/// The estimated comparison work of sorting what an ordered index does not already order.
pub fn estimated_sort_cost(record_count: usize, ordered_prefix: usize) -> (r: usize)
    ensures
        r == sort_cost_of(record_count, ordered_prefix),
{
    if record_count < 2 {
        return 0;
    }
    let full_sort = saturating_mul(record_count, ilog2(record_count));
    if ordered_prefix == 0 {
        full_sort
    } else {
        full_sort.saturating_sub(record_count)
    }
}

/// The estimated cost of an access path for a query sorted on `sort_len` fields.
pub fn estimated_cost(access: &PlannedAccess, stats: &IndexStatistics, active_record_count: usize, sort_len: usize) -> (r: QueryCost)
    ensures
        r == cost_of(*access, *stats, active_record_count, sort_len),
{
    let record_count = match &access.records {
        Some(r) => r.len(),
        None => active_record_count,
    };
    let record_reads = estimated_record_reads(access, stats, record_count);
    let sort_cost = if sort_len > access.ordered_prefix {
        estimated_sort_cost(record_count, access.ordered_prefix)
    } else {
        0
    };
    let index_traversal = index_traversal_cost(access, stats);
    let index_pages = index_page_reads(access, stats);
    let record_pages = estimated_record_page_reads(access, stats.table_page_count, active_record_count, record_count);
    let total = record_reads.saturating_add(record_count).saturating_add(index_traversal).saturating_add(index_pages).saturating_add(
        record_pages,
    ).saturating_add(sort_cost);
    QueryCost {
        candidate_rows: record_count,
        index_traversal,
        index_page_reads: index_pages,
        record_reads,
        record_page_reads: record_pages,
        filter_evaluations: record_count,
        sort_work: sort_cost,
        total,
    }
}

/// The row work and the page reads of an access path, for choosing between plans.
pub fn selection_cost(access: &PlannedAccess, stats: &IndexStatistics, active_record_count: usize, sort_len: usize) -> (r: (usize, usize))
    ensures
        ({
            let c = cost_of(*access, *stats, active_record_count, sort_len);
            r == (sat_add(sat_add(c.candidate_rows, c.index_traversal), c.sort_work), sat_add(c.index_page_reads, c.record_page_reads))
        }),
{
    let cost = estimated_cost(access, stats, active_record_count, sort_len);
    (
        cost.candidate_rows.saturating_add(cost.index_traversal).saturating_add(cost.sort_work),
        cost.index_page_reads.saturating_add(cost.record_page_reads),
    )
}

/// The row work and the page reads by which access paths are compared: the
/// first decides, the second breaks ties.
pub open spec fn selection_key(access: PlannedAccess, stats: IndexStatistics, active: usize, sort_len: usize) -> (usize, usize) {
    let c = cost_of(access, stats, active, sort_len);
    (sat_add(sat_add(c.candidate_rows, c.index_traversal), c.sort_work), sat_add(c.index_page_reads, c.record_page_reads))
}

/// Whether selection key `a` is strictly below `b`, comparing the row work
/// first and then the page reads.
pub open spec fn key_below(a: (usize, usize), b: (usize, usize)) -> bool {
    a.0 < b.0 || (a.0 == b.0 && a.1 < b.1)
}

/// The position of the first cheapest of the first `n` candidates.
pub open spec fn cheapest_index(candidates: Seq<PlannedAccess>, stats: IndexStatistics, active: usize, sort_len: usize, n: nat) -> int
    decreases n,
{
    if n <= 1 {
        0
    } else {
        let best = cheapest_index(candidates, stats, active, sort_len, (n - 1) as nat);
        if key_below(
            selection_key(candidates[n - 1], stats, active, sort_len),
            selection_key(candidates[best], stats, active, sort_len),
        ) {
            n - 1
        } else {
            best
        }
    }
}

proof fn lemma_cheapest(candidates: Seq<PlannedAccess>, stats: IndexStatistics, active: usize, sort_len: usize, n: nat)
    requires
        1 <= n <= candidates.len(),
    ensures
        ({
            let b = cheapest_index(candidates, stats, active, sort_len, n);
            let kb = selection_key(candidates[b], stats, active, sort_len);
            &&& 0 <= b < n
            &&& forall|j: int| 0 <= j < n ==> !key_below(#[trigger] selection_key(candidates[j], stats, active, sort_len), kb)
            &&& forall|j: int| 0 <= j < b ==> key_below(kb, #[trigger] selection_key(candidates[j], stats, active, sort_len))
        }),
    decreases n,
{
    if n > 1 {
        lemma_cheapest(candidates, stats, active, sort_len, (n - 1) as nat);
    }
}

/// A full scan of the table's active records.
pub fn table_scan() -> (r: PlannedAccess)
    ensures
        r.plan is TableScan,
        r.records is None,
        r.ordered_prefix == 0,
{
    PlannedAccess { plan: QueryPlan::TableScan, records: None, ordered_prefix: 0 }
}

/// The candidate of least selection cost, the first among equals; nothing
/// where there is no candidate.
pub fn cheapest(candidates: Vec<PlannedAccess>, stats: &IndexStatistics, active_record_count: usize, sort_len: usize) -> (r: Option<PlannedAccess>)
    ensures
        candidates@.len() == 0 <==> r is None,
        candidates@.len() > 0 ==> {
            let b = cheapest_index(candidates@, *stats, active_record_count, sort_len, candidates@.len());
            let kb = selection_key(candidates@[b], *stats, active_record_count, sort_len);
            &&& r == Some(candidates@[b])
            &&& forall|j: int| 0 <= j < candidates@.len() ==> !key_below(
                #[trigger] selection_key(candidates@[j], *stats, active_record_count, sort_len),
                kb,
            )
            &&& forall|j: int| 0 <= j < b ==> key_below(
                kb,
                #[trigger] selection_key(candidates@[j], *stats, active_record_count, sort_len),
            )
        },
{
    if candidates.len() == 0 {
        return None;
    }
    let mut best: usize = 0;
    let mut best_key = selection_cost(&candidates[0], stats, active_record_count, sort_len);
    let mut i: usize = 1;
    while i < candidates.len()
        invariant
            1 <= i <= candidates@.len(),
            best == cheapest_index(candidates@, *stats, active_record_count, sort_len, i as nat),
            best < i,
            best_key == selection_key(candidates@[best as int], *stats, active_record_count, sort_len),
        decreases candidates.len() - i,
    {
        let key = selection_cost(&candidates[i], stats, active_record_count, sort_len);
        if key.0 < best_key.0 || (key.0 == best_key.0 && key.1 < best_key.1) {
            best = i;
            best_key = key;
        }
        i += 1;
    }
    proof {
        lemma_cheapest(candidates@, *stats, active_record_count, sort_len, candidates@.len());
    }
    let mut candidates = candidates;
    Some(candidates.swap_remove(best))
}

/// The access path of a query: a table scan under a custom collation or
/// without index statistics, else the cheapest of a table scan and the
/// index candidates found, a table scan winning ties.
pub fn choose_access(request_has_collation: bool, stats: Option<&IndexStatistics>, active_record_count: usize, sort_len: usize, found: Vec<PlannedAccess>) -> (r: PlannedAccess)
    ensures
        (request_has_collation || stats is None) ==> r.plan is TableScan && r.records is None && r.ordered_prefix == 0,
        !request_has_collation && stats is Some ==> {
            let all = seq![PlannedAccess { plan: QueryPlan::TableScan, records: None, ordered_prefix: 0 }] + found@;
            r == all[cheapest_index(all, *stats.unwrap(), active_record_count, sort_len, all.len())]
        },
{
    let stats = match stats {
        Some(s) => s,
        None => return table_scan(),
    };
    if request_has_collation {
        return table_scan();
    }
    let mut all: Vec<PlannedAccess> = Vec::new();
    all.push(table_scan());
    let mut found = found;
    all.append(&mut found);
    match cheapest(all, stats, active_record_count, sort_len) {
        Some(access) => access,
        None => table_scan(),
    }
}

/// Whether record `x` is among the records that every lookup after the
/// first found.
pub open spec fn in_every_later(found: Seq<(String, String, Vec<usize>)>, x: usize) -> bool {
    forall|t: int| 1 <= t < found.len() ==> (#[trigger] found[t].2@).contains(x)
}

fn contains_record(records: &Vec<usize>, x: usize) -> (r: bool)
    ensures
        r == records@.contains(x),
{
    let mut i: usize = 0;
    while i < records.len()
        invariant
            i <= records@.len(),
            forall|j: int| 0 <= j < i ==> records@[j] != x,
        decreases records.len() - i,
    {
        if records[i] == x {
            return true;
        }
        i += 1;
    }
    false
}

/// The access path of the equality conditions that an index answered:
/// `found` holds, in the order tried, each index's name, its field and the
/// sorted record numbers it found. One index gives an equality plan, more an
/// intersection, whose records are those of the first that every other found
/// too.
pub fn equality_access(found: &Vec<(String, String, Vec<usize>)>) -> (r: Option<PlannedAccess>)
    ensures
        found@.len() == 0 <==> r is None,
        r matches Some(a) ==> {
            &&& a.ordered_prefix == 0
            &&& a.records matches Some(rs) && rs@ == found@[0].2@.filter(|x: usize| in_every_later(found@, x))
            &&& found@.len() == 1 ==> (a.plan matches QueryPlan::EqualityIndex { name, field }
                && name@ == found@[0].0@ && field@ == found@[0].1@)
            &&& found@.len() > 1 ==> (a.plan matches QueryPlan::IndexIntersection { names, fields }
                && names@.map_values(|n: String| n@) == found@.map_values(|f: (String, String, Vec<usize>)| f.0@)
                && fields@.map_values(|n: String| n@) == found@.map_values(|f: (String, String, Vec<usize>)| f.1@))
        },
{
    if found.len() == 0 {
        return None;
    }
    let first = &found[0].2;
    let mut records: Vec<usize> = Vec::new();
    let mut i: usize = 0;
    while i < first.len()
        invariant
            first@ == found@[0].2@,
            found@.len() > 0,
            i <= first@.len(),
            records@ == first@.subrange(0, i as int).filter(|x: usize| in_every_later(found@, x)),
        decreases first.len() - i,
    {
        let x = first[i];
        let mut keep = true;
        let mut t: usize = 1;
        while t < found.len()
            invariant
                1 <= t <= found@.len(),
                keep == (forall|u: int| 1 <= u < t ==> (#[trigger] found@[u].2@).contains(x)),
            decreases found.len() - t,
        {
            if keep && !contains_record(&found[t].2, x) {
                keep = false;
            }
            t += 1;
        }
        proof {
            reveal(Seq::filter);
            assert(first@.subrange(0, i + 1).drop_last() =~= first@.subrange(0, i as int));
        }
        if keep {
            records.push(x);
        }
        i += 1;
    }
    assert(first@.subrange(0, first@.len() as int) =~= first@);
    let plan = if found.len() == 1 {
        QueryPlan::EqualityIndex { name: found[0].0.clone(), field: found[0].1.clone() }
    } else {
        let mut names: Vec<String> = Vec::new();
        let mut fields: Vec<String> = Vec::new();
        let mut k: usize = 0;
        while k < found.len()
            invariant
                k <= found@.len(),
                names@.len() == k,
                fields@.len() == k,
                names@.map_values(|n: String| n@) == found@.subrange(0, k as int).map_values(|f: (String, String, Vec<usize>)| f.0@),
                fields@.map_values(|n: String| n@) == found@.subrange(0, k as int).map_values(|f: (String, String, Vec<usize>)| f.1@),
            decreases found.len() - k,
        {
            let ghost before_names = names@;
            let ghost before_fields = fields@;
            let n = found[k].0.clone();
            let f = found[k].1.clone();
            names.push(n);
            fields.push(f);
            proof {
                assert(before_names.map_values(|n: String| n@) == found@.subrange(0, k as int).map_values(|f: (String, String, Vec<usize>)| f.0@));
                assert(before_fields.map_values(|n: String| n@) == found@.subrange(0, k as int).map_values(|f: (String, String, Vec<usize>)| f.1@));
                assert(names@ == before_names.push(n));
                assert(fields@ == before_fields.push(f));
                assert(n@ == found@[k as int].0@);
                assert(f@ == found@[k as int].1@);
                assert forall|j: int| 0 <= j < k implies #[trigger] names@[j]@ == found@[j].0@ by {
                    assert(before_names.map_values(|n: String| n@)[j] == found@.subrange(0, k as int).map_values(|f: (String, String, Vec<usize>)| f.0@)[j]);
                }
                assert forall|j: int| 0 <= j < k implies #[trigger] fields@[j]@ == found@[j].1@ by {
                    assert(before_fields.map_values(|n: String| n@)[j] == found@.subrange(0, k as int).map_values(|f: (String, String, Vec<usize>)| f.1@)[j]);
                }
                assert(names@.map_values(|n: String| n@) =~= found@.subrange(0, k + 1).map_values(|f: (String, String, Vec<usize>)| f.0@));
                assert(fields@.map_values(|n: String| n@) =~= found@.subrange(0, k + 1).map_values(|f: (String, String, Vec<usize>)| f.1@));
            }
            k += 1;
        }
        assert(found@.subrange(0, found@.len() as int) =~= found@);
        QueryPlan::IndexIntersection { names, fields }
    };
    Some(PlannedAccess { plan, records: Some(records), ordered_prefix: 0 })
}

/// The access path for a sorted query through an ordered index. `compound`
/// is what an index over several sort fields gave, if one did: its name,
/// fields, directions and records in order; `single` what an index over the
/// first sort field gave, if one did: its name and records. A compound index
/// orders the whole sort, an index on the first field only that field. No
/// sort, no ordered plan.
pub fn ordered_access(
    sort: &Vec<(String, i8)>,
    compound: Option<(String, Vec<String>, Vec<i8>, Vec<usize>)>,
    single: Option<(String, Vec<usize>)>,
) -> (r: Option<PlannedAccess>)
    requires
        compound matches Some(c) ==> c.1@.len() > 0,
    ensures
        sort@.len() == 0 ==> r is None,
        sort@.len() > 0 ==> match compound {
            Some(c) => r matches Some(a) && a.ordered_prefix == sort@.len() && a.records == Some(c.3) && if c.1@.len() == 1 {
                a.plan matches QueryPlan::OrderedIndex { name, field, direction }
                    && name == c.0 && field@ == c.1@[0]@ && direction == sort@[0].1
            } else {
                a.plan == QueryPlan::CompoundOrderedIndex { name: c.0, fields: c.1, directions: c.2 }
            },
            None => match single {
                Some(s) => r matches Some(a) && a.ordered_prefix == 1 && a.records == Some(s.1) && if sort@.len() == 1 {
                    a.plan matches QueryPlan::OrderedIndex { name, field, direction }
                        && name == s.0 && field@ == sort@[0].0@ && direction == sort@[0].1
                } else {
                    a.plan matches QueryPlan::OrderedIndexPrefix { name, field, direction }
                        && name == s.0 && field@ == sort@[0].0@ && direction == sort@[0].1
                },
                None => r is None,
            },
        },
{
    if sort.len() == 0 {
        return None;
    }
    match compound {
        Some((name, index_fields, index_directions, records)) => {
            let plan = if index_fields.len() == 1 {
                QueryPlan::OrderedIndex { name, field: index_fields[0].clone(), direction: sort[0].1 }
            } else {
                QueryPlan::CompoundOrderedIndex { name, fields: index_fields, directions: index_directions }
            };
            Some(PlannedAccess { plan, records: Some(records), ordered_prefix: sort.len() })
        },
        None => match single {
            Some((name, records)) => {
                let field = sort[0].0.clone();
                let direction = sort[0].1;
                let plan = if sort.len() == 1 {
                    QueryPlan::OrderedIndex { name, field, direction }
                } else {
                    QueryPlan::OrderedIndexPrefix { name, field, direction }
                };
                Some(PlannedAccess { plan, records: Some(records), ordered_prefix: 1 })
            },
            None => None,
        },
    }
}

/// The value of the first member of an object named `name`, if any.
pub open spec fn member_value(members: Seq<(String, JsonValue)>, name: Seq<char>) -> Option<JsonValue>
    decreases members.len(),
{
    if members.len() == 0 {
        None
    } else if members[0].0@ == name {
        Some(members[0].1)
    } else {
        member_value(members.drop_first(), name)
    }
}

/// The value that a field's condition fixes it to, if it fixes one: a
/// scalar condition is that value, an operator object its `$eq` operand.
pub open spec fn equality_of(condition: JsonValue) -> Option<JsonValue> {
    match condition {
        JsonValue::Object(members) => member_value(members@, "$eq"@),
        JsonValue::Array(_) => None,
        _ => Some(condition),
    }
}

/// An optional reference, by the value it refers to.
pub open spec fn deref_value(r: Option<&JsonValue>) -> Option<JsonValue> {
    match r {
        Some(v) => Some(*v),
        None => None,
    }
}

/// The value that a field's condition fixes it to, if it fixes one.
pub fn equality_value(condition: &JsonValue) -> (r: Option<&JsonValue>)
    ensures
        deref_value(r) == equality_of(*condition),
{
    match condition {
        JsonValue::Object(members) => {
            let mut i: usize = 0;
            assert(members@.subrange(0, members@.len() as int) =~= members@);
            while i < members.len()
                invariant
                    i <= members@.len(),
                    equality_of(*condition) == member_value(members@, "$eq"@),
                    member_value(members@, "$eq"@) == member_value(members@.subrange(i as int, members@.len() as int), "$eq"@),
                decreases members.len() - i,
            {
                let ghost rest = members@.subrange(i as int, members@.len() as int);
                assert(rest[0] == members@[i as int]);
                assert(rest.drop_first() =~= members@.subrange(i + 1, members@.len() as int));
                if same_text(&members[i].0, "$eq") {
                    return Some(&members[i].1);
                }
                i += 1;
            }
            None
        },
        JsonValue::Array(_) => None,
        _ => Some(condition),
    }
}

/// One end of a range: its value and whether it is included.
pub type Bound<'a> = Option<(&'a JsonValue, bool)>;

/// A bound by the value it refers to.
pub open spec fn bound_value(b: Option<(&JsonValue, bool)>) -> Option<(JsonValue, bool)> {
    match b {
        Some((v, inclusive)) => Some((*v, inclusive)),
        None => None,
    }
}

/// The bounds that the operators `ops[..]` set on top of `lower` and
/// `upper`: `$gt` and `$gte` the lower one, `$lt` and `$lte` the upper one,
/// other operators none; nothing where one end is set twice.
pub open spec fn bounds_from(
    ops: Seq<(String, JsonValue)>,
    lower: Option<(JsonValue, bool)>,
    upper: Option<(JsonValue, bool)>,
) -> Option<(Option<(JsonValue, bool)>, Option<(JsonValue, bool)>)>
    decreases ops.len(),
{
    if ops.len() == 0 {
        Some((lower, upper))
    } else {
        let op = ops[0].0@;
        let v = ops[0].1;
        let rest = ops.drop_first();
        if op == "$gt"@ || op == "$gte"@ {
            if lower is Some {
                None
            } else {
                bounds_from(rest, Some((v, op == "$gte"@)), upper)
            }
        } else if op == "$lt"@ || op == "$lte"@ {
            if upper is Some {
                None
            } else {
                bounds_from(rest, lower, Some((v, op == "$lte"@)))
            }
        } else {
            bounds_from(rest, lower, upper)
        }
    }
}

/// The range that a field's operator object sets, if it sets one: at least
/// one end, and neither end twice.
pub open spec fn range_of(condition: JsonValue) -> Option<(Option<(JsonValue, bool)>, Option<(JsonValue, bool)>)> {
    match condition {
        JsonValue::Object(ops) => match bounds_from(ops@, None, None) {
            Some((lower, upper)) => if lower is Some || upper is Some {
                Some((lower, upper))
            } else {
                None
            },
            None => None,
        },
        _ => None,
    }
}

/// The range that a field's operator object sets, if it sets one.
pub fn range_bounds<'a>(condition: &'a JsonValue) -> (r: Option<(Bound<'a>, Bound<'a>)>)
    ensures
        match r {
            Some((lower, upper)) => range_of(*condition) == Some((bound_value(lower), bound_value(upper))),
            None => range_of(*condition) is None,
        },
{
    match condition {
        JsonValue::Object(ops) => {
            let mut lower: Bound<'a> = None;
            let mut upper: Bound<'a> = None;
            let mut i: usize = 0;
            assert(ops@.subrange(0, ops@.len() as int) =~= ops@);
            while i < ops.len()
                invariant
                    i <= ops@.len(),
                    *condition matches JsonValue::Object(o) && o@ == ops@,
                    bounds_from(ops@, None, None) == bounds_from(
                        ops@.subrange(i as int, ops@.len() as int),
                        bound_value(lower),
                        bound_value(upper),
                    ),
                decreases ops.len() - i,
            {
                let ghost rest = ops@.subrange(i as int, ops@.len() as int);
                assert(rest[0] == ops@[i as int]);
                assert(rest.drop_first() =~= ops@.subrange(i + 1, ops@.len() as int));
                let op = &ops[i].0;
                let value = &ops[i].1;
                if same_text(op, "$gt") || same_text(op, "$gte") {
                    if lower.is_some() {
                        return None;
                    }
                    lower = Some((value, same_text(op, "$gte")));
                } else if same_text(op, "$lt") || same_text(op, "$lte") {
                    if upper.is_some() {
                        return None;
                    }
                    upper = Some((value, same_text(op, "$lte")));
                }
                i += 1;
            }
            if lower.is_some() || upper.is_some() {
                Some((lower, upper))
            } else {
                None
            }
        },
        _ => None,
    }
}

/// `a` is tried before `b`: a lower estimate first, then the earlier entry.
pub open spec fn tried_before(a: (usize, usize), b: (usize, usize)) -> bool {
    a.0 < b.0 || (a.0 == b.0 && a.1 < b.1)
}

/// An absent estimate, or one at most `bound`.
fn within(estimate: Option<usize>, bound: usize) -> (b: bool)
    ensures
        b == (estimate matches Some(f) ==> f <= bound),
{
    match estimate {
        Some(f) => f <= bound,
        None => true,
    }
}

/// The positions `p` of the entries that have an estimate `estimates[p]`,
/// lowest estimate first, equal estimates in entry order.
pub fn by_estimate(estimates: &Vec<Option<usize>>) -> (r: Vec<usize>)
    ensures
        forall|i: int| 0 <= i < r@.len() ==> (#[trigger] r@[i]) < estimates@.len() && estimates@[r@[i] as int] is Some,
        forall|p: int| 0 <= p < estimates@.len() && #[trigger] estimates@[p] is Some ==> exists|i: int| 0 <= i < r@.len() && #[trigger] r@[i] == p,
        forall|i: int, j: int| 0 <= i < j < r@.len() ==> tried_before(
            (estimates@[#[trigger] r@[i] as int].unwrap(), r@[i]),
            (estimates@[#[trigger] r@[j] as int].unwrap(), r@[j]),
        ),
{
    let mut out: Vec<usize> = Vec::new();
    let mut p: usize = 0;
    while p < estimates.len()
        invariant
            p <= estimates@.len(),
            forall|i: int| 0 <= i < out@.len() ==> (#[trigger] out@[i]) < p && estimates@[out@[i] as int] is Some,
            forall|q: int| 0 <= q < p && #[trigger] estimates@[q] is Some ==> exists|i: int| 0 <= i < out@.len() && #[trigger] out@[i] == q,
            forall|i: int, j: int| 0 <= i < j < out@.len() ==> tried_before(
                (estimates@[#[trigger] out@[i] as int].unwrap(), out@[i]),
                (estimates@[#[trigger] out@[j] as int].unwrap(), out@[j]),
            ),
        decreases estimates.len() - p,
    {
        if let Some(e) = estimates[p] {
            let mut idx: usize = 0;
            while idx < out.len() && within(estimates[out[idx]], e)
                invariant
                    p < estimates@.len(),
                    idx <= out@.len(),
                    forall|i: int| 0 <= i < out@.len() ==> (#[trigger] out@[i]) < p && estimates@[out@[i] as int] is Some,
                    forall|j: int| 0 <= j < idx ==> estimates@[#[trigger] out@[j] as int].unwrap() <= e,
                decreases out.len() - idx,
            {
                idx += 1;
            }
            let ghost old_out = out@;
            out.insert(idx, p);
            proof {
                assert forall|i: int| 0 <= i < out@.len() implies (#[trigger] out@[i]) < p + 1 && estimates@[out@[i] as int] is Some by {
                    if i < idx {
                        assert(out@[i] == old_out[i]);
                    } else if i > idx {
                        assert(out@[i] == old_out[i - 1]);
                    }
                }
                assert forall|q: int| 0 <= q < p + 1 && #[trigger] estimates@[q] is Some implies exists|i: int|
                    0 <= i < out@.len() && #[trigger] out@[i] == q by {
                    if q == p {
                        assert(out@[idx as int] == q);
                    } else {
                        let i0 = choose|i: int| 0 <= i < old_out.len() && #[trigger] old_out[i] == q;
                        if i0 < idx {
                            assert(out@[i0] == old_out[i0]);
                        } else {
                            assert(out@[i0 + 1] == old_out[i0]);
                        }
                    }
                }
                assert forall|i: int, j: int| 0 <= i < j < out@.len() implies tried_before(
                    (estimates@[#[trigger] out@[i] as int].unwrap(), out@[i]),
                    (estimates@[#[trigger] out@[j] as int].unwrap(), out@[j]),
                ) by {
                    if j < idx {
                        assert(out@[i] == old_out[i] && out@[j] == old_out[j]);
                    } else if i > idx {
                        assert(out@[i] == old_out[i - 1] && out@[j] == old_out[j - 1]);
                    } else if j == idx {
                        assert(out@[i] == old_out[i]);
                    } else if i == idx {
                        assert(out@[j] == old_out[j - 1]);
                        assert(estimates@[old_out[idx as int] as int].unwrap() > e);
                        if j - 1 > idx {
                            assert(tried_before(
                                (estimates@[old_out[idx as int] as int].unwrap(), old_out[idx as int]),
                                (estimates@[old_out[j - 1] as int].unwrap(), old_out[j - 1]),
                            ));
                        }
                    } else {
                        assert(out@[i] == old_out[i] && out@[j] == old_out[j - 1]);
                    }
                }
            }
        }
        p += 1;
    }
    out
}

/// Each filter entry's estimate as the equality path tries it: the field's
/// equality estimate, or `usize::MAX` without one, for the entries whose
/// condition fixes a value; none for the others.
pub open spec fn equality_estimates(filter: Seq<(String, JsonValue)>, stats: Seq<(String, usize)>) -> Seq<Option<usize>> {
    filter.map_values(|e: (String, JsonValue)| if equality_of(e.1) is Some {
        Some(match lookup(stats, e.0@) {
            Some(n) => n,
            None => usize::MAX,
        })
    } else {
        None
    })
}

/// The filter entries whose condition fixes a value, in the order that the
/// equality path tries their indexes: lowest equality estimate first,
/// entries without an estimate last, ties in filter order.
pub fn equality_fields(filter: &Vec<(String, JsonValue)>, stats: &IndexStatistics) -> (r: Vec<usize>)
    ensures
        forall|i: int| 0 <= i < r@.len() ==> (#[trigger] r@[i]) < filter@.len()
            && equality_estimates(filter@, stats.equality_selectivity@)[r@[i] as int] is Some,
        forall|p: int| 0 <= p < filter@.len() && #[trigger] equality_of(filter@[p].1) is Some ==> exists|i: int|
            0 <= i < r@.len() && #[trigger] r@[i] == p,
        forall|i: int, j: int| 0 <= i < j < r@.len() ==> {
            let es = equality_estimates(filter@, stats.equality_selectivity@);
            tried_before((es[#[trigger] r@[i] as int].unwrap(), r@[i]), (es[#[trigger] r@[j] as int].unwrap(), r@[j]))
        },
{
    let mut estimates: Vec<Option<usize>> = Vec::new();
    let mut p: usize = 0;
    while p < filter.len()
        invariant
            p <= filter@.len(),
            estimates@ == equality_estimates(filter@.subrange(0, p as int), stats.equality_selectivity@),
        decreases filter.len() - p,
    {
        let e = if equality_value(&filter[p].1).is_some() {
            Some(match lookup_entry(&stats.equality_selectivity, &filter[p].0) {
                Some(n) => n,
                None => usize::MAX,
            })
        } else {
            None
        };
        estimates.push(e);
        assert(filter@.subrange(0, p + 1) =~= filter@.subrange(0, p as int).push(filter@[p as int]));
        assert(estimates@ =~= equality_estimates(filter@.subrange(0, p + 1), stats.equality_selectivity@));
        p += 1;
    }
    assert(filter@.subrange(0, filter@.len() as int) =~= filter@);
    let r = by_estimate(&estimates);
    assert forall|p: int| 0 <= p < filter@.len() && #[trigger] equality_of(filter@[p].1) is Some implies exists|i: int|
        0 <= i < r@.len() && #[trigger] r@[i] == p by {
        assert(estimates@[p] is Some);
    }
    r
}

/// The filter entries whose operators set a range, in the order that the
/// range path tries their indexes: `estimates[p]` is the index's estimate for
/// entry `p`'s range (`usize::MAX` where it has none); lowest estimate first,
/// ties in filter order.
pub fn range_fields(filter: &Vec<(String, JsonValue)>, estimates: &Vec<usize>) -> (r: Vec<usize>)
    requires
        estimates@.len() == filter@.len(),
    ensures
        forall|i: int| 0 <= i < r@.len() ==> (#[trigger] r@[i]) < filter@.len() && range_of(filter@[r@[i] as int].1) is Some,
        forall|p: int| 0 <= p < filter@.len() && #[trigger] range_of(filter@[p].1) is Some ==> exists|i: int|
            0 <= i < r@.len() && #[trigger] r@[i] == p,
        forall|i: int, j: int| 0 <= i < j < r@.len() ==> tried_before(
            (estimates@[#[trigger] r@[i] as int], r@[i]),
            (estimates@[#[trigger] r@[j] as int], r@[j]),
        ),
{
    let mut keyed: Vec<Option<usize>> = Vec::new();
    let mut p: usize = 0;
    while p < filter.len()
        invariant
            p <= filter@.len(),
            estimates@.len() == filter@.len(),
            keyed@.len() == p,
            forall|q: int| 0 <= q < p ==> #[trigger] keyed@[q] == if range_of(filter@[q].1) is Some {
                Some(estimates@[q])
            } else {
                None::<usize>
            },
        decreases filter.len() - p,
    {
        let k = if range_bounds(&filter[p].1).is_some() {
            Some(estimates[p])
        } else {
            None
        };
        keyed.push(k);
        p += 1;
    }
    let r = by_estimate(&keyed);
    assert forall|p: int| 0 <= p < filter@.len() && #[trigger] range_of(filter@[p].1) is Some implies exists|i: int|
        0 <= i < r@.len() && #[trigger] r@[i] == p by {
        assert(keyed@[p] is Some);
    }
    assert forall|i: int, j: int| 0 <= i < j < r@.len() implies tried_before(
        (estimates@[#[trigger] r@[i] as int], r@[i]),
        (estimates@[#[trigger] r@[j] as int], r@[j]),
    ) by {
        assert(keyed@[r@[i] as int] == Some(estimates@[r@[i] as int]));
        assert(keyed@[r@[j] as int] == Some(estimates@[r@[j] as int]));
    }
    r
}

} // verus!
