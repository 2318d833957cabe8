//! Running a join of two tables: the executor that the cost model picks
//! yields pairs of records, and each pair's joined row is filtered, counted
//! against the row bound and projected.
//!
//! A record is handed over as its members, named after its table
//! ("table.field", as `qualified_members` names them), with its join key as
//! an integer that is equal exactly when the keys are (absent where a key
//! field is missing or null).
use vstd::prelude::*;
use std::collections::HashMap;
use super::filter::JsonValue;
use super::join::{JoinError, JoinErrorView, JoinProblem, JoinRequest, JoinType, MAX_JOIN_ROWS, request_error, validate};
use super::join_merge::{
    compare_keys, lemma_key_transitive, KeyOrder, OrderedRecord, count_up_to, expected_match, keys_of, keys_sorted, key_less,
    last_position, lemma_key_trichotomy, matching_ranges, run_positions,
};
use super::join_plan::{driving_rows, driving_rows_of, lemma_count_bound, match_count, KeyIndex};
use super::join_rows::{
    NestedJoinRows, MergeJoinRows, StageExecutor, driven_rows, merge_rows, nested_driver_rows, nested_rows,
    single_join_step, single_join_step_of, unmatched_right_rows,
};
use super::join_index::{equality_probe_cost, probe_cost_of};
use super::path::members_of;
use super::predicate::{evaluates_consistently, expression_of, filter_outcome, matches_filter, order_of, orders_consistently};
use super::projection::{JsonData, members_data, project_in, projected};
use super::request::{QueryError, QueryErrorView};
use crate::join_strategy::{JoinProbeCost, JoinStrategy, chosen, choose_with_merge_page_cost, no_worse};

verus! {

broadcast use vstd::std_specs::hash::group_hash_axioms;

/// The members of one side's record in a pair: none where the side is
/// absent.
pub open spec fn side_members(records: Seq<Vec<(String, JsonValue)>>, position: Option<usize>) -> Seq<(String, JsonValue)> {
    match position {
        Some(i) => records[i as int]@,
        None => Seq::empty(),
    }
}

/// The joined row of a pair: the left record's members, then the right
/// record's.
pub open spec fn pair_members(
    left: Seq<Vec<(String, JsonValue)>>,
    right: Seq<Vec<(String, JsonValue)>>,
    pair: (Option<usize>, Option<usize>),
) -> Seq<(String, JsonValue)> {
    side_members(left, pair.0) + side_members(right, pair.1)
}

/// Whether a pair names only records that are there.
pub open spec fn pair_within(pair: (Option<usize>, Option<usize>), left_count: nat, right_count: nat) -> bool {
    &&& (pair.0 matches Some(i) ==> i < left_count)
    &&& (pair.1 matches Some(j) ==> j < right_count)
}

/// The join error of a filter that cannot be applied.
pub open spec fn join_error_of(e: QueryErrorView) -> JoinErrorView {
    match e {
        QueryErrorView::Filter(p) => JoinErrorView::Query(p),
        QueryErrorView::Invalid(q) => JoinErrorView::Request(q),
    }
}

/// The rows that the pairs yield, in order: each pair's joined row is
/// matched against `filter`; a row that matches is projected and kept, up to
/// `MAX_JOIN_ROWS` rows, past which the join fails. A filter that cannot be
/// applied fails the join, and so does a pair that names a record that is
/// not there.
pub open spec fn emitted_rows<F, G>(
    pairs: Seq<(Option<usize>, Option<usize>)>,
    left: Seq<Vec<(String, JsonValue)>>,
    right: Seq<Vec<(String, JsonValue)>>,
    filter: Seq<(String, JsonValue)>,
    projection: Seq<(String, i8)>,
    order: F,
    expression: G,
) -> Result<Seq<Seq<(Seq<char>, JsonData)>>, JoinErrorView> where
    F: Fn(&JsonValue, &JsonValue) -> Option<KeyOrder>,
    G: Fn(&Vec<&(String, JsonValue)>, &JsonValue) -> Result<bool, QueryError>,

    decreases pairs.len(),
{
    if pairs.len() == 0 {
        Ok(Seq::empty())
    } else {
        match emitted_rows(pairs.drop_last(), left, right, filter, projection, order, expression) {
            Err(e) => Err(e),
            Ok(out) => {
                let pair = pairs.last();
                if !pair_within(pair, left.len(), right.len()) {
                    Err(JoinErrorView::Invalid(JoinProblem::IndexRowsMismatch))
                } else {
                    let row = pair_members(left, right, pair);
                    match filter_outcome(row, filter, order_of(order), expression_of(expression, row)) {
                        Err(e) => Err(join_error_of(e)),
                        Ok(false) => Ok(out),
                        Ok(true) => if out.len() >= MAX_JOIN_ROWS {
                            Err(JoinErrorView::Invalid(JoinProblem::ResultTooLarge))
                        } else {
                            Ok(out.push(projected(row, projection)))
                        },
                    }
                }
            },
        }
    }
}

/// Joined rows by what they hold.
pub open spec fn rows_data(rows: Seq<Vec<(String, JsonValue)>>) -> Seq<Seq<(Seq<char>, JsonData)>> {
    rows.map_values(|r: Vec<(String, JsonValue)>| members_data(r@))
}

/// The result of a join by its view.
pub open spec fn join_result(r: Result<Vec<Vec<(String, JsonValue)>>, JoinError>) -> Result<
    Seq<Seq<(Seq<char>, JsonData)>>,
    JoinErrorView,
> {
    match r {
        Ok(rows) => Ok(rows_data(rows@)),
        Err(e) => Err(e@),
    }
}

/// Adds references to a record's members to a row.
pub(crate) fn push_members<'a>(row: &mut Vec<&'a (String, JsonValue)>, record: &'a Vec<(String, JsonValue)>)
    ensures
        members_of(final(row)@) == members_of(old(row)@) + record@,
{
    let ghost start = members_of(row@);
    let mut k: usize = 0;
    while k < record.len()
        invariant
            k <= record@.len(),
            members_of(row@) == start + record@.subrange(0, k as int),
        decreases record.len() - k,
    {
        let ghost prev = row@;
        let m = &record[k];
        row.push(m);
        assert(row@ == prev.push(m));
        assert(members_of(prev.push(m)) =~= members_of(prev).push(*m));
        assert(record@.subrange(0, k + 1) =~= record@.subrange(0, k as int).push(record@[k as int]));
        assert(members_of(row@) =~= start + record@.subrange(0, k + 1));
        k += 1;
    }
    assert(record@.subrange(0, record@.len() as int) =~= record@);
}

/// The joined row of a pair, as references to its records' members.
fn pair_row<'a>(
    left: &'a Vec<Vec<(String, JsonValue)>>,
    right: &'a Vec<Vec<(String, JsonValue)>>,
    pair: (Option<usize>, Option<usize>),
) -> (r: Vec<&'a (String, JsonValue)>)
    requires
        pair_within(pair, left@.len(), right@.len()),
    ensures
        members_of(r@) == pair_members(left@, right@, pair),
{
    let mut row: Vec<&'a (String, JsonValue)> = Vec::new();
    assert(members_of(row@) =~= Seq::<(String, JsonValue)>::empty());
    if let Some(i) = pair.0 {
        push_members(&mut row, &left[i]);
    }
    if let Some(j) = pair.1 {
        push_members(&mut row, &right[j]);
    }
    assert(members_of(row@) =~= pair_members(left@, right@, pair));
    row
}

/// Filters, bounds and projects the joined rows of `pairs`, in order.
pub fn emit_rows<F, G>(
    pairs: &Vec<(Option<usize>, Option<usize>)>,
    left: &Vec<Vec<(String, JsonValue)>>,
    right: &Vec<Vec<(String, JsonValue)>>,
    filter: &Vec<(String, JsonValue)>,
    projection: &Vec<(String, i8)>,
    order: &F,
    expression: &G,
) -> (r: Result<Vec<Vec<(String, JsonValue)>>, JoinError>) where
    F: Fn(&JsonValue, &JsonValue) -> Option<KeyOrder>,
    G: Fn(&Vec<&(String, JsonValue)>, &JsonValue) -> Result<bool, QueryError>,

    requires
        orders_consistently(*order),
        evaluates_consistently(*expression),
    ensures
        join_result(r) == emitted_rows(pairs@, left@, right@, filter@, projection@, *order, *expression),
{
    let mut out: Vec<Vec<(String, JsonValue)>> = Vec::new();
    let mut i: usize = 0;
    assert(pairs@.subrange(0, 0) =~= Seq::<(Option<usize>, Option<usize>)>::empty());
    assert(rows_data(out@) =~= Seq::<Seq<(Seq<char>, JsonData)>>::empty());
    while i < pairs.len()
        invariant
            i <= pairs@.len(),
            orders_consistently(*order),
            evaluates_consistently(*expression),
            emitted_rows(pairs@.subrange(0, i as int), left@, right@, filter@, projection@, *order, *expression)
                == Ok::<Seq<Seq<(Seq<char>, JsonData)>>, JoinErrorView>(rows_data(out@)),
        decreases pairs.len() - i,
    {
        let ghost done = pairs@.subrange(0, i as int);
        let ghost upto = pairs@.subrange(0, i + 1);
        assert(upto.drop_last() =~= done);
        assert(upto.last() == pairs@[i as int]);
        let pair = pairs[i];
        let within = match pair.0 {
            Some(a) => a < left.len(),
            None => true,
        } && match pair.1 {
            Some(b) => b < right.len(),
            None => true,
        };
        if !within {
            assert(!pair_within(pair, left@.len(), right@.len()));
            assert(emitted_rows(upto, left@, right@, filter@, projection@, *order, *expression) == Err::<
                Seq<Seq<(Seq<char>, JsonData)>>,
                JoinErrorView,
            >(JoinErrorView::Invalid(JoinProblem::IndexRowsMismatch)));
            proof {
                lemma_emitted_error_stays(pairs@, i + 1, left@, right@, filter@, projection@, *order, *expression);
            }
            return Err(JoinError::Invalid(JoinProblem::IndexRowsMismatch));
        }
        let row = pair_row(left, right, pair);
        let matched = matches_filter(&row, filter, order, expression);
        match matched {
            Err(QueryError::Filter(p)) => {
                proof {
                    lemma_emitted_error_stays(pairs@, i + 1, left@, right@, filter@, projection@, *order, *expression);
                }
                return Err(JoinError::Query(p));
            },
            Err(QueryError::Invalid(q)) => {
                proof {
                    lemma_emitted_error_stays(pairs@, i + 1, left@, right@, filter@, projection@, *order, *expression);
                }
                return Err(JoinError::Request(q));
            },
            Ok(false) => {},
            Ok(true) => {
                if out.len() >= MAX_JOIN_ROWS {
                    proof {
                        lemma_emitted_error_stays(pairs@, i + 1, left@, right@, filter@, projection@, *order, *expression);
                    }
                    return Err(JoinError::Invalid(JoinProblem::ResultTooLarge));
                }
                let projected_row = project_in(&row, projection);
                let ghost before = out@;
                out.push(projected_row);
                assert(rows_data(out@) =~= rows_data(before).push(members_data(projected_row@)));
            },
        }
        i += 1;
    }
    assert(pairs@.subrange(0, pairs@.len() as int) =~= pairs@);
    Ok(out)
}

/// Once the rows of a prefix of the pairs fail, the rows of the pairs fail
/// with the same error.
proof fn lemma_emitted_error_stays<F, G>(
    pairs: Seq<(Option<usize>, Option<usize>)>,
    n: int,
    left: Seq<Vec<(String, JsonValue)>>,
    right: Seq<Vec<(String, JsonValue)>>,
    filter: Seq<(String, JsonValue)>,
    projection: Seq<(String, i8)>,
    order: F,
    expression: G,
) where
    F: Fn(&JsonValue, &JsonValue) -> Option<KeyOrder>,
    G: Fn(&Vec<&(String, JsonValue)>, &JsonValue) -> Result<bool, QueryError>,

    requires
        0 <= n <= pairs.len(),
    ensures
        emitted_rows(pairs.subrange(0, n), left, right, filter, projection, order, expression) is Err ==> emitted_rows(
            pairs,
            left,
            right,
            filter,
            projection,
            order,
            expression,
        ) == emitted_rows(pairs.subrange(0, n), left, right, filter, projection, order, expression),
    decreases pairs.len() - n,
{
    if n < pairs.len() {
        lemma_emitted_error_stays(pairs, n + 1, left, right, filter, projection, order, expression);
        assert(pairs.subrange(0, n + 1).drop_last() =~= pairs.subrange(0, n));
    } else {
        assert(pairs.subrange(0, n) =~= pairs);
    }
}

/// Whether one side's records in index order fit its table of `count`
/// records: keys never decrease, and each names a distinct position below
/// `count`.
pub open spec fn layout_ok(order: Seq<OrderedRecord>, count: nat) -> bool {
    &&& keys_sorted(keys_of(order))
    &&& forall|i: int| 0 <= i < order.len() ==> (#[trigger] order[i]).position < count
    &&& forall|i: int, j: int| 0 <= i < j < order.len() ==> (#[trigger] order[i]).position != (#[trigger] order[j]).position
}

/// Checks the layout of one side's records in index order.
pub fn check_layout(order: &Vec<OrderedRecord>, count: usize) -> (r: bool)
    ensures
        r == layout_ok(order@, count as nat),
{
    let mut seen: Vec<bool> = Vec::new();
    let mut z: usize = 0;
    while z < count
        invariant
            z <= count,
            seen@.len() == z,
            forall|p: int| 0 <= p < z ==> !(#[trigger] seen@[p]),
        decreases count - z,
    {
        seen.push(false);
        z += 1;
    }
    let mut k: usize = 0;
    while k < order.len()
        invariant
            k <= order@.len(),
            seen@.len() == count,
            keys_sorted(keys_of(order@.subrange(0, k as int))),
            forall|i: int| 0 <= i < k ==> (#[trigger] order@[i]).position < count,
            forall|i: int, j: int| 0 <= i < j < k ==> (#[trigger] order@[i]).position != (#[trigger] order@[j]).position,
            forall|p: int| 0 <= p < count ==> (#[trigger] seen@[p] <==> exists|i: int| 0 <= i < k && order@[i].position == p),
        decreases order.len() - k,
    {
        let ghost before = keys_of(order@.subrange(0, k as int));
        let ghost after = keys_of(order@.subrange(0, k + 1));
        assert(after =~= before.push(order@[k as int].key@));
        let position = order[k].position;
        if position >= count {
            assert(!layout_ok(order@, count as nat));
            return false;
        }
        if seen[position] {
            let ghost i = choose|i: int| 0 <= i < k && order@[i].position == position;
            assert(order@[i].position == order@[k as int].position);
            assert(!layout_ok(order@, count as nat));
            return false;
        }
        if k > 0 {
            let o = compare_keys(&order[k - 1].key, &order[k].key);
            if o == KeyOrder::Greater {
                assert(keys_of(order@)[k - 1] == order@[k - 1].key@);
                assert(keys_of(order@)[k as int] == order@[k as int].key@);
                assert(!layout_ok(order@, count as nat));
                return false;
            }
            assert forall|i: int, j: int| 0 <= i < j < after.len() implies !key_less(#[trigger] after[j], #[trigger] after[i]) by {
                if j == k {
                    if i < k - 1 {
                        assert(!key_less(before[k - 1], before[i]));
                        lemma_key_trichotomy(before[i], before[k - 1]);
                        lemma_key_trichotomy(after[j], before[k - 1]);
                        if key_less(after[j], after[i]) {
                            if key_less(after[i], before[k - 1]) {
                                lemma_key_transitive(after[j], after[i], before[k - 1]);
                            }
                        }
                    }
                } else {
                    assert(after[i] == before[i] && after[j] == before[j]);
                }
            }
        } else {
            assert(after.len() == 1);
        }
        seen.set(position, true);
        assert forall|p: int| 0 <= p < count implies (#[trigger] seen@[p] <==> exists|i: int| 0 <= i < k + 1 && order@[i].position == p) by {
            if p == position {
                assert(order@[k as int].position == p);
            } else {
                if exists|i: int| 0 <= i < k + 1 && order@[i].position == p {
                    let i = choose|i: int| 0 <= i < k + 1 && order@[i].position == p;
                    assert(i < k);
                }
            }
        }
        k += 1;
    }
    assert(order@.subrange(0, order@.len() as int) =~= order@);
    true
}

/// No more keys sort at or below a key than there are keys, so the runs
/// that `matching_ranges` finds lie within the other side.
proof fn lemma_count_up_to_bound(k: Seq<Seq<u64>>, key: Seq<u64>)
    ensures
        count_up_to(k, key) <= k.len(),
    decreases k.len(),
{
    if k.len() > 0 {
        lemma_count_up_to_bound(k.drop_last(), key);
    }
}

/// The pairs of a merge join of the driving side's records in index order
/// with the other side's: each driving record, by table position, pairs
/// with the run of the other side that shares its key. A full join cannot
/// merge, and a layout that does not fit the tables is refused.
pub open spec fn merge_pairs_of(
    kind: JoinType,
    driver: Seq<OrderedRecord>,
    other: Seq<OrderedRecord>,
    driver_count: nat,
    other_count: nat,
) -> Result<Seq<(Option<usize>, Option<usize>)>, JoinProblem> {
    if kind == JoinType::Full {
        Err(JoinProblem::MergeFullJoin)
    } else if kind == JoinType::Cross {
        Err(JoinProblem::MergeCrossJoin)
    } else if !layout_ok(driver, driver_count) || !layout_ok(other, other_count) {
        Err(JoinProblem::IndexRowsMismatch)
    } else {
        Ok(merge_rows(
            kind,
            Seq::new(driver_count, |p: int| expected_match(driver, keys_of(other), p)),
            other.map_values(|o: OrderedRecord| o.position),
            driver_count,
        ))
    }
}

/// Pairs as the executor's result.
pub open spec fn pairs_result(r: Result<Vec<(Option<usize>, Option<usize>)>, JoinError>) -> Result<
    Seq<(Option<usize>, Option<usize>)>,
    JoinErrorView,
> {
    match r {
        Ok(p) => Ok(p@),
        Err(e) => Err(e@),
    }
}

/// A problem as an executor's result.
pub open spec fn problem_result(r: Result<Seq<(Option<usize>, Option<usize>)>, JoinProblem>) -> Result<
    Seq<(Option<usize>, Option<usize>)>,
    JoinErrorView,
> {
    match r {
        Ok(p) => Ok(p),
        Err(e) => Err(JoinErrorView::Invalid(e)),
    }
}

/// The pairs of a merge join, in order.
pub fn merge_pairs(
    kind: JoinType,
    driver: &Vec<OrderedRecord>,
    other: &Vec<OrderedRecord>,
    driver_count: usize,
    other_count: usize,
) -> (r: Result<Vec<(Option<usize>, Option<usize>)>, JoinError>)
    ensures
        pairs_result(r) == problem_result(merge_pairs_of(kind, driver@, other@, driver_count as nat, other_count as nat)),
{
    if kind == JoinType::Full {
        return Err(JoinError::Invalid(JoinProblem::MergeFullJoin));
    }
    if kind == JoinType::Cross {
        return Err(JoinError::Invalid(JoinProblem::MergeCrossJoin));
    }
    if !check_layout(driver, driver_count) || !check_layout(other, other_count) {
        return Err(JoinError::Invalid(JoinProblem::IndexRowsMismatch));
    }
    let runs = matching_ranges(driver, other, driver_count);
    let positions = run_positions(other, 0, other.len());
    proof {
        assert(other@.subrange(0, other@.len() as int) =~= other@);
        assert(runs@ =~= Seq::new(driver_count as nat, |p: int| expected_match(driver@, keys_of(other@), p)));
        assert forall|p: int| 0 <= p < runs@.len() implies (#[trigger] runs@[p] matches Some((s, e)) ==> s <= e
            <= positions@.len()) by {
            if exists|i: int| 0 <= i < driver@.len() && driver@[i].position == p {
                let i = choose|i: int| 0 <= i < driver@.len() && driver@[i].position == p;
                lemma_count_up_to_bound(keys_of(other@), driver@[i].key@);
            }
        }
    }
    let ghost total = merge_rows(kind, runs@, positions@, runs@.len());
    let mut stream = match MergeJoinRows::new(kind, runs, positions) {
        Ok(s) => s,
        Err(e) => {
            return Err(e);
        },
    };
    let mut pairs: Vec<(Option<usize>, Option<usize>)> = Vec::new();
    assert(total.subrange(0, 0) =~= Seq::<(Option<usize>, Option<usize>)>::empty());
    loop
        invariant
            stream.wf(),
            stream.rows() == total,
            0 <= stream.emitted() <= total.len(),
            pairs@ == total.subrange(0, stream.emitted()),
        ensures
            pairs@ == total,
        decreases total.len() - stream.emitted(),
    {
        let ghost before = stream.emitted();
        match stream.next_row() {
            Some(p) => {
                pairs.push(p);
                assert(total.subrange(0, before + 1) =~= total.subrange(0, before).push(p));
            },
            None => {
                assert(total.subrange(0, before) =~= total);
                break;
            },
        }
    }
    Ok(pairs)
}

/// What probing the join index of the side that is not driving gives: the
/// inputs of its probe cost (the fan-out that its file estimates, none where
/// it cannot serve a probe, its pages and its table's pages), the record
/// numbers of that side's records by position, and for each driving record,
/// by position, the record numbers that its key finds.
pub struct IndexProbes {
    pub fanout: Option<usize>,
    pub index_pages: usize,
    pub table_pages: usize,
    pub numbers: Vec<usize>,
    pub answers: Vec<Vec<usize>>,
}

/// The positions of the records whose numbers a probe found, in the order
/// found; a number that no record carries is an error.
pub open spec fn probed_positions(numbers: Seq<usize>, found: Seq<usize>) -> Result<Seq<usize>, JoinProblem>
    decreases found.len(),
{
    if found.len() == 0 {
        Ok(Seq::empty())
    } else {
        match probed_positions(numbers, found.drop_last()) {
            Err(e) => Err(e),
            Ok(ps) => match last_position(numbers, found.last()) {
                None => Err(JoinProblem::MissingIndexedRecord(found.last())),
                Some(p) => Ok(ps.push(p)),
            },
        }
    }
}

/// The pairs of the first `n` driving records of an index join, in order: a
/// semi or anti join asks only whether a probe found anything.
pub open spec fn index_pairs(kind: JoinType, answers: Seq<Vec<usize>>, numbers: Seq<usize>, n: nat) -> Result<
    Seq<(Option<usize>, Option<usize>)>,
    JoinProblem,
>
    decreases n,
{
    if n == 0 {
        Ok(Seq::empty())
    } else {
        match index_pairs(kind, answers, numbers, (n - 1) as nat) {
            Err(e) => Err(e),
            Ok(rows) => if kind == JoinType::Semi || kind == JoinType::Anti {
                Ok(rows + driving_rows_of(kind, (n - 1) as usize, answers[n - 1]@))
            } else {
                match probed_positions(numbers, answers[n - 1]@) {
                    Err(e) => Err(e),
                    Ok(ps) => Ok(rows + driving_rows_of(kind, (n - 1) as usize, ps)),
                }
            },
        }
    }
}

/// The pairs of an index join whose driving side has `driver_count` records
/// and whose other side `other_count`; probes that do not cover both sides
/// are refused.
pub open spec fn index_pairs_of(kind: JoinType, probes: IndexProbes, driver_count: nat, other_count: nat) -> Result<
    Seq<(Option<usize>, Option<usize>)>,
    JoinProblem,
> {
    if probes.numbers@.len() != other_count || probes.answers@.len() != driver_count {
        Err(JoinProblem::IndexRowsMismatch)
    } else {
        index_pairs(kind, probes.answers@, probes.numbers@, driver_count)
    }
}

/// Maps record numbers to the last position that carries each.
fn positions_by_number(numbers: &Vec<usize>) -> (r: HashMap<usize, usize>)
    ensures
        forall|n: usize| #[trigger] r@.contains_key(n) <==> last_position(numbers@, n) is Some,
        forall|n: usize| r@.contains_key(n) ==> Some(#[trigger] r@[n]) == last_position(numbers@, n),
{
    let mut by_number: HashMap<usize, usize> = HashMap::new();
    let mut p: usize = 0;
    while p < numbers.len()
        invariant
            p <= numbers@.len(),
            forall|n: usize| #[trigger] by_number@.contains_key(n) <==> last_position(numbers@.subrange(0, p as int), n) is Some,
            forall|n: usize| by_number@.contains_key(n) ==> Some(#[trigger] by_number@[n]) == last_position(
                numbers@.subrange(0, p as int),
                n,
            ),
        decreases numbers.len() - p,
    {
        proof {
            assert(numbers@.subrange(0, p + 1).drop_last() =~= numbers@.subrange(0, p as int));
        }
        by_number.insert(numbers[p], p);
        p += 1;
    }
    assert(numbers@.subrange(0, numbers@.len() as int) =~= numbers@);
    by_number
}

/// The positions of the records whose numbers a probe found.
fn probe_positions(by_number: &HashMap<usize, usize>, numbers: Ghost<Seq<usize>>, found: &Vec<usize>) -> (r: Result<
    Vec<usize>,
    JoinError,
>)
    requires
        forall|n: usize| #[trigger] by_number@.contains_key(n) <==> last_position(numbers@, n) is Some,
        forall|n: usize| by_number@.contains_key(n) ==> Some(#[trigger] by_number@[n]) == last_position(numbers@, n),
    ensures
        match probed_positions(numbers@, found@) {
            Ok(ps) => r matches Ok(v) && v@ == ps,
            Err(e) => r == Err::<Vec<usize>, JoinError>(JoinError::Invalid(e)),
        },
{
    let mut out: Vec<usize> = Vec::new();
    let mut k: usize = 0;
    assert(found@.subrange(0, 0) =~= Seq::<usize>::empty());
    while k < found.len()
        invariant
            k <= found@.len(),
            forall|n: usize| #[trigger] by_number@.contains_key(n) <==> last_position(numbers@, n) is Some,
            forall|n: usize| by_number@.contains_key(n) ==> Some(#[trigger] by_number@[n]) == last_position(numbers@, n),
            probed_positions(numbers@, found@.subrange(0, k as int)) == Ok::<Seq<usize>, JoinProblem>(out@),
        decreases found.len() - k,
    {
        let ghost upto = found@.subrange(0, k + 1);
        assert(upto.drop_last() =~= found@.subrange(0, k as int));
        proof {
            lemma_probed_error_stays(numbers@, found@, k + 1);
        }
        let number = found[k];
        match by_number.get(&number) {
            Some(p) => {
                out.push(*p);
            },
            None => {
                return Err(JoinError::Invalid(JoinProblem::MissingIndexedRecord(number)));
            },
        }
        k += 1;
    }
    assert(found@.subrange(0, found@.len() as int) =~= found@);
    Ok(out)
}

proof fn lemma_probed_error_stays(numbers: Seq<usize>, found: Seq<usize>, n: int)
    requires
        0 <= n <= found.len(),
    ensures
        probed_positions(numbers, found.subrange(0, n)) is Err ==> probed_positions(numbers, found)
            == probed_positions(numbers, found.subrange(0, n)),
    decreases found.len() - n,
{
    if n < found.len() {
        lemma_probed_error_stays(numbers, found, n + 1);
        assert(found.subrange(0, n + 1).drop_last() =~= found.subrange(0, n));
    } else {
        assert(found.subrange(0, n) =~= found);
    }
}

proof fn lemma_index_error_stays(kind: JoinType, answers: Seq<Vec<usize>>, numbers: Seq<usize>, n: nat, m: nat)
    requires
        n <= m,
    ensures
        index_pairs(kind, answers, numbers, n) is Err ==> index_pairs(kind, answers, numbers, m) == index_pairs(
            kind,
            answers,
            numbers,
            n,
        ),
    decreases m,
{
    if n < m {
        lemma_index_error_stays(kind, answers, numbers, n, (m - 1) as nat);
    }
}

/// The pairs of an index join, in order.
pub fn index_pairs_run(kind: JoinType, probes: &IndexProbes, driver_count: usize, other_count: usize) -> (r: Result<
    Vec<(Option<usize>, Option<usize>)>,
    JoinError,
>)
    ensures
        pairs_result(r) == problem_result(index_pairs_of(kind, *probes, driver_count as nat, other_count as nat)),
{
    if probes.numbers.len() != other_count || probes.answers.len() != driver_count {
        return Err(JoinError::Invalid(JoinProblem::IndexRowsMismatch));
    }
    let by_number = positions_by_number(&probes.numbers);
    let mut pairs: Vec<(Option<usize>, Option<usize>)> = Vec::new();
    let mut i: usize = 0;
    while i < driver_count
        invariant
            i <= driver_count,
            probes.answers@.len() == driver_count,
            probes.numbers@.len() == other_count,
            forall|n: usize| #[trigger] by_number@.contains_key(n) <==> last_position(probes.numbers@, n) is Some,
            forall|n: usize| by_number@.contains_key(n) ==> Some(#[trigger] by_number@[n]) == last_position(probes.numbers@, n),
            index_pairs(kind, probes.answers@, probes.numbers@, i as nat) == Ok::<
                Seq<(Option<usize>, Option<usize>)>,
                JoinProblem,
            >(pairs@),
        decreases driver_count - i,
    {
        proof {
            lemma_index_error_stays(kind, probes.answers@, probes.numbers@, (i + 1) as nat, driver_count as nat);
        }
        let found = &probes.answers[i];
        let part = if kind == JoinType::Semi || kind == JoinType::Anti {
            driving_rows(kind, i, found)
        } else {
            match probe_positions(&by_number, Ghost(probes.numbers@), found) {
                Ok(ps) => driving_rows(kind, i, &ps),
                Err(e) => {
                    assert(probed_positions(probes.numbers@, found@) is Err);
                    assert(index_pairs(kind, probes.answers@, probes.numbers@, (i + 1) as nat) == Err::<
                        Seq<(Option<usize>, Option<usize>)>,
                        JoinProblem,
                    >(probed_positions(probes.numbers@, found@)->Err_0));
                    return Err(e);
                },
            }
        };
        let mut part = part;
        pairs.append(&mut part);
        i += 1;
    }
    Ok(pairs)
}

/// The pairs of a hash join, in the order of a nested-loop join: each
/// driving record in turn with the records of the other side that share its
/// key, found through the other side grouped by key; a full join ends with
/// the right records that match nothing.
pub fn hash_pairs(left: &Vec<Option<u64>>, right: &Vec<Option<u64>>, kind: JoinType) -> (r: Vec<(Option<usize>, Option<usize>)>)
    requires
        kind != JoinType::Cross,
    ensures
        r@ == nested_rows(kind, left@, right@),
{
    let (driver, other) = if kind == JoinType::Right {
        (right, left)
    } else {
        (left, right)
    };
    let ghost all = driven_rows(kind, driver@, other@, driver@.len());
    let index = KeyIndex::build(other);
    let mut rows: Vec<(Option<usize>, Option<usize>)> = Vec::new();
    let mut i: usize = 0;
    while i < driver.len()
        invariant
            kind != JoinType::Cross,
            i <= driver@.len(),
            index.keys() == other@,
            rows@ == driven_rows(kind, driver@, other@, i as nat),
        decreases driver.len() - i,
    {
        let matches = index.matches(driver[i]);
        let mut part = driving_rows(kind, i, &matches);
        assert(part@ == nested_driver_rows(kind, driver@, other@, i as int));
        rows.append(&mut part);
        i += 1;
    }
    if kind == JoinType::Full {
        let left_index = KeyIndex::build(left);
        let mut j: usize = 0;
        while j < right.len()
            invariant
                kind == JoinType::Full,
                j <= right@.len(),
                left_index.keys() == left@,
                driver@ == left@,
                other@ == right@,
                rows@ == driven_rows(kind, left@, right@, left@.len()) + unmatched_right_rows(left@, right@, j as nat),
            decreases right.len() - j,
        {
            let matched = left_index.matches(right[j]);
            proof {
                if let Some(k) = right@[j as int] {
                    lemma_count_bound(left@, k);
                }
            }
            assert(matched@.len() == match_count(right@[j as int], left@));
            if matched.len() == 0 {
                rows.push((None, Some(j)));
                assert(rows@ =~= driven_rows(kind, left@, right@, left@.len()) + unmatched_right_rows(left@, right@, (j + 1) as nat));
            } else {
                assert(unmatched_right_rows(left@, right@, (j + 1) as nat) =~= unmatched_right_rows(left@, right@, j as nat));
            }
            j += 1;
        }
    }
    rows
}

/// The pairs of a nested-loop join, in order.
pub fn nested_pairs(left: &Vec<Option<u64>>, right: &Vec<Option<u64>>, kind: JoinType) -> (r: Vec<(Option<usize>, Option<usize>)>)
    requires
        kind == JoinType::Cross ==> left@.len() * right@.len() <= MAX_JOIN_ROWS,
    ensures
        r@ == nested_rows(kind, left@, right@),
{
    let ghost total = nested_rows(kind, left@, right@);
    let mut stream = match NestedJoinRows::new(copy_keys(left), copy_keys(right), kind) {
        Ok(s) => s,
        Err(_) => {
            assert(false);
            return Vec::new();
        },
    };
    let mut pairs: Vec<(Option<usize>, Option<usize>)> = Vec::new();
    assert(total.subrange(0, 0) =~= Seq::<(Option<usize>, Option<usize>)>::empty());
    loop
        invariant
            stream.wf(),
            stream.rows() == total,
            0 <= stream.emitted() <= total.len(),
            pairs@ == total.subrange(0, stream.emitted()),
        ensures
            pairs@ == total,
        decreases total.len() - stream.emitted(),
    {
        let ghost before = stream.emitted();
        match stream.next_row() {
            Some(p) => {
                pairs.push(p);
                assert(total.subrange(0, before + 1) =~= total.subrange(0, before).push(p));
            },
            None => {
                assert(total.subrange(0, before) =~= total);
                break;
            },
        }
    }
    pairs
}

/// A copy of a side's join keys.
fn copy_keys(keys: &Vec<Option<u64>>) -> (r: Vec<Option<u64>>)
    ensures
        r@ == keys@,
{
    let mut out: Vec<Option<u64>> = Vec::new();
    let mut i: usize = 0;
    while i < keys.len()
        invariant
            i <= keys@.len(),
            out@ == keys@.subrange(0, i as int),
        decreases keys.len() - i,
    {
        out.push(keys[i]);
        assert(keys@.subrange(0, i + 1) =~= keys@.subrange(0, i as int).push(keys@[i as int]));
        i += 1;
    }
    assert(keys@.subrange(0, keys@.len() as int) =~= keys@);
    out
}

/// One side's records in join-index order, as loaded from its join index,
/// with the pages that reading the index costs.
pub struct LoadedOrder {
    pub records: Vec<OrderedRecord>,
    pub page_reads: usize,
}

/// What a direct join knows besides its records: whether it reads the
/// current catalog or a historical image, the index orders of the two sides
/// where both join indexes are fresh, and the probes of the join index of
/// the side that does not drive the join (the left side's for a right join,
/// the right side's else) where that index is fresh.
pub struct DirectJoinInputs {
    pub current_catalog: bool,
    pub historical: bool,
    pub left_order: Option<LoadedOrder>,
    pub right_order: Option<LoadedOrder>,
    pub probes: Option<IndexProbes>,
}

/// The strategy that the join cost model picks.
pub open spec fn chosen_strategy(
    driver_count: usize,
    other_count: usize,
    probe_cost: Option<JoinProbeCost>,
    merge_page_reads: Option<usize>,
) -> JoinStrategy {
    choose|s: JoinStrategy| chosen(s, driver_count, other_count, probe_cost, merge_page_reads)
}

/// The cost model picks one strategy for given inputs.
pub proof fn lemma_chosen_unique(
    a: JoinStrategy,
    b: JoinStrategy,
    driver_count: usize,
    other_count: usize,
    probe_cost: Option<JoinProbeCost>,
    merge_page_reads: Option<usize>,
)
    requires
        chosen(a, driver_count, other_count, probe_cost, merge_page_reads),
        chosen(b, driver_count, other_count, probe_cost, merge_page_reads),
    ensures
        a == b,
{
    if crate::arith::sat_mul(driver_count, other_count) > crate::join_strategy::NESTED_LOOP_PAIR_LIMIT {
        assert(no_worse(a, b, driver_count, other_count, probe_cost, merge_page_reads));
        assert(no_worse(b, a, driver_count, other_count, probe_cost, merge_page_reads));
    }
}

/// The pages that a merge join reads from the two join indexes, where both
/// orders were loaded.
pub open spec fn merge_reads_of(inputs: DirectJoinInputs) -> Option<usize> {
    match inputs.left_order {
        Some(a) => match inputs.right_order {
            Some(b) => Some(crate::arith::sat_add(a.page_reads, b.page_reads)),
            None => None,
        },
        None => None,
    }
}

/// The cost of probing the join index, where it was loaded and can serve a
/// probe.
pub open spec fn probe_cost_in(inputs: DirectJoinInputs, other_count: usize) -> Option<JoinProbeCost> {
    match inputs.probes {
        Some(p) => probe_cost_of(p.fanout, p.index_pages, p.table_pages, other_count),
        None => None,
    }
}

/// The number of records on the side that drives a join: the right side of
/// a right join, the left side of any other.
pub open spec fn driver_count_of(kind: JoinType, left_count: usize, right_count: usize) -> usize {
    if kind == JoinType::Right { right_count } else { left_count }
}

/// The number of records on the side that a join's driving records are
/// matched against.
pub open spec fn other_count_of(kind: JoinType, left_count: usize, right_count: usize) -> usize {
    if kind == JoinType::Right { left_count } else { right_count }
}

/// The executor of a direct join: `single_join_step_of`, with the merge
/// choice made on the merge pages of the loaded orders and the index choice
/// on the probe cost of the loaded index, both for the driving side against
/// the other.
pub open spec fn direct_executor_of(
    kind: JoinType,
    left_count: usize,
    right_count: usize,
    inputs: DirectJoinInputs,
) -> Result<StageExecutor, JoinProblem> {
    let d = driver_count_of(kind, left_count, right_count);
    let o = other_count_of(kind, left_count, right_count);
    single_join_step_of(
        kind,
        left_count,
        right_count,
        inputs.current_catalog,
        inputs.historical,
        chosen_strategy(d, o, None, merge_reads_of(inputs)),
        merge_reads_of(inputs) is Some,
        chosen_strategy(d, o, probe_cost_in(inputs, o), None),
        inputs.probes is Some,
    )
}

/// The pairs of records that a direct join's executor yields, in order: a
/// merge runs over the loaded orders (the driving side's first), an index
/// join over the probes, and every other executor yields the pairs of a
/// nested-loop join.
pub open spec fn direct_pairs_of(
    kind: JoinType,
    left_keys: Seq<Option<u64>>,
    right_keys: Seq<Option<u64>>,
    inputs: DirectJoinInputs,
) -> Result<Seq<(Option<usize>, Option<usize>)>, JoinProblem> {
    let lc = left_keys.len() as usize;
    let rc = right_keys.len() as usize;
    let d = driver_count_of(kind, lc, rc);
    let o = other_count_of(kind, lc, rc);
    match direct_executor_of(kind, lc, rc, inputs) {
        Err(p) => Err(p),
        Ok(StageExecutor::Merge) => if kind == JoinType::Right {
            merge_pairs_of(kind, inputs.right_order.unwrap().records@, inputs.left_order.unwrap().records@, d as nat, o as nat)
        } else {
            merge_pairs_of(kind, inputs.left_order.unwrap().records@, inputs.right_order.unwrap().records@, d as nat, o as nat)
        },
        Ok(StageExecutor::IndexLeft) => index_pairs_of(kind, inputs.probes.unwrap(), d as nat, o as nat),
        Ok(StageExecutor::IndexRight) => index_pairs_of(kind, inputs.probes.unwrap(), d as nat, o as nat),
        Ok(_) => Ok(nested_rows(kind, left_keys, right_keys)),
    }
}

/// Picks the executor of a direct join.
pub fn direct_executor(kind: JoinType, left_count: usize, right_count: usize, inputs: &DirectJoinInputs) -> (r: Result<
    StageExecutor,
    JoinError,
>)
    ensures
        match direct_executor_of(kind, left_count, right_count, *inputs) {
            Ok(e) => r == Ok::<StageExecutor, JoinError>(e),
            Err(p) => r == Err::<StageExecutor, JoinError>(JoinError::Invalid(p)),
        },
{
    let d = if kind == JoinType::Right { right_count } else { left_count };
    let o = if kind == JoinType::Right { left_count } else { right_count };
    let merge_reads = match (&inputs.left_order, &inputs.right_order) {
        (Some(a), Some(b)) => Some(a.page_reads.saturating_add(b.page_reads)),
        _ => None,
    };
    let probe = match &inputs.probes {
        Some(p) => equality_probe_cost(p.fanout, p.index_pages, p.table_pages, o),
        None => None,
    };
    let merge_choice = choose_with_merge_page_cost(d, o, None, merge_reads);
    let index_choice = choose_with_merge_page_cost(d, o, probe, None);
    proof {
        assert(merge_reads == merge_reads_of(*inputs));
        assert(probe == probe_cost_in(*inputs, o));
        lemma_chosen_unique(merge_choice, chosen_strategy(d, o, None, merge_reads), d, o, None, merge_reads);
        lemma_chosen_unique(index_choice, chosen_strategy(d, o, probe, None), d, o, probe, None);
    }
    single_join_step(
        kind,
        left_count,
        right_count,
        inputs.current_catalog,
        inputs.historical,
        merge_choice,
        merge_reads.is_some(),
        index_choice,
        inputs.probes.is_some(),
    )
}

/// The pairs of records that a direct join's executor yields, in order.
pub fn direct_pairs(kind: JoinType, left_keys: &Vec<Option<u64>>, right_keys: &Vec<Option<u64>>, inputs: &DirectJoinInputs) -> (r: Result<
    Vec<(Option<usize>, Option<usize>)>,
    JoinError,
>)
    ensures
        pairs_result(r) == problem_result(direct_pairs_of(kind, left_keys@, right_keys@, *inputs)),
{
    let lc = left_keys.len();
    let rc = right_keys.len();
    let d = if kind == JoinType::Right { rc } else { lc };
    let o = if kind == JoinType::Right { lc } else { rc };
    let executor = match direct_executor(kind, lc, rc, inputs) {
        Ok(e) => e,
        Err(e) => {
            return Err(e);
        },
    };
    match executor {
        StageExecutor::Merge => {
            match (&inputs.left_order, &inputs.right_order) {
                (Some(a), Some(b)) => if kind == JoinType::Right {
                    merge_pairs(kind, &b.records, &a.records, d, o)
                } else {
                    merge_pairs(kind, &a.records, &b.records, d, o)
                },
                _ => {
                    assert(false);
                    Err(JoinError::Invalid(JoinProblem::IndexRowsMismatch))
                },
            }
        },
        StageExecutor::IndexLeft | StageExecutor::IndexRight => {
            match &inputs.probes {
                Some(p) => index_pairs_run(kind, p, d, o),
                None => {
                    assert(false);
                    Err(JoinError::Invalid(JoinProblem::IndexRowsMismatch))
                },
            }
        },
        StageExecutor::HashLeft | StageExecutor::HashRight => Ok(hash_pairs(left_keys, right_keys, kind)),
        _ => Ok(nested_pairs(left_keys, right_keys, kind)),
    }
}

/// The rows of a direct join of the records `left` of `request.from` with
/// the records `right` of `request.join.table`: a refused request fails with
/// its error; else the executor's pairs are filtered, bounded and projected.
pub open spec fn direct_join_of<F, G>(
    request: JoinRequest,
    left: Seq<Vec<(String, JsonValue)>>,
    right: Seq<Vec<(String, JsonValue)>>,
    left_keys: Seq<Option<u64>>,
    right_keys: Seq<Option<u64>>,
    inputs: DirectJoinInputs,
    order: F,
    expression: G,
) -> Result<Seq<Seq<(Seq<char>, JsonData)>>, JoinErrorView> where
    F: Fn(&JsonValue, &JsonValue) -> Option<KeyOrder>,
    G: Fn(&Vec<&(String, JsonValue)>, &JsonValue) -> Result<bool, QueryError>,
 {
    match request_error(request) {
        Some(e) => Err(e),
        None => match direct_pairs_of(request.join.kind, left_keys, right_keys, inputs) {
            Err(p) => Err(JoinErrorView::Invalid(p)),
            Ok(pairs) => emitted_rows(pairs, left, right, request.filter@, request.projection@, order, expression),
        },
    }
}

/// Runs a join of the records `left` of `request.from` with the records
/// `right` of `request.join.table`, each record with its members named after
/// its table and with its join key. The executor is the one that the cost
/// model picks from the record counts and `inputs`; each joined row is
/// matched against the request's filter (`order` is the scalar order of JSON
/// values, `expression` evaluates `$expr`), counted against `MAX_JOIN_ROWS`
/// and projected.
pub fn execute_direct_join<F, G>(
    request: &JoinRequest,
    left: &Vec<Vec<(String, JsonValue)>>,
    right: &Vec<Vec<(String, JsonValue)>>,
    left_keys: &Vec<Option<u64>>,
    right_keys: &Vec<Option<u64>>,
    inputs: &DirectJoinInputs,
    order: &F,
    expression: &G,
) -> (r: Result<Vec<Vec<(String, JsonValue)>>, JoinError>) where
    F: Fn(&JsonValue, &JsonValue) -> Option<KeyOrder>,
    G: Fn(&Vec<&(String, JsonValue)>, &JsonValue) -> Result<bool, QueryError>,

    requires
        orders_consistently(*order),
        evaluates_consistently(*expression),
    ensures
        join_result(r) == direct_join_of(*request, left@, right@, left_keys@, right_keys@, *inputs, *order, *expression),
{
    if let Err(e) = validate(request) {
        return Err(e);
    }
    let pairs = match direct_pairs(request.join.kind, left_keys, right_keys, inputs) {
        Ok(p) => p,
        Err(e) => {
            return Err(e);
        },
    };
    emit_rows(&pairs, left, right, &request.filter, &request.projection, order, expression)
}

/// A join returns at most `MAX_JOIN_ROWS` rows: the rows that any pairs
/// yield, once they are filtered, never pass the bound.
pub proof fn law_join_rows_are_bounded<F, G>(
    pairs: Seq<(Option<usize>, Option<usize>)>,
    left: Seq<Vec<(String, JsonValue)>>,
    right: Seq<Vec<(String, JsonValue)>>,
    filter: Seq<(String, JsonValue)>,
    projection: Seq<(String, i8)>,
    order: F,
    expression: G,
) where
    F: Fn(&JsonValue, &JsonValue) -> Option<KeyOrder>,
    G: Fn(&Vec<&(String, JsonValue)>, &JsonValue) -> Result<bool, QueryError>,

    ensures
        emitted_rows(pairs, left, right, filter, projection, order, expression) matches Ok(out) ==> out.len()
            <= MAX_JOIN_ROWS,
    decreases pairs.len(),
{
    if pairs.len() > 0 {
        law_join_rows_are_bounded(pairs.drop_last(), left, right, filter, projection, order, expression);
    }
}

} // verus!
