//! Running a join pipeline: `from` joined with each stage's table in turn.
//!
//! A pipeline row is the position, in each table joined so far, of the
//! record it combines (none where a stage kept a row without a partner):
//! its members are those records' members, table by table. Each stage pairs
//! the rows with its table's records, through the executor that its plan
//! picks, and bounds its rows by `MAX_JOIN_ROWS`; the rows left after the
//! last stage are filtered and projected.
use vstd::prelude::*;
use super::filter::JsonValue;
use super::join::{
    JoinError, JoinErrorView, JoinProblem, JoinRequest, JoinSpec, JoinType, MAX_JOIN_ROWS, conditions, request_error, validate,
};
use super::join_exec::{
    IndexProbes, push_members, hash_pairs, index_pairs_of, index_pairs_run, join_error_of, join_result, merge_pairs,
    merge_pairs_of, nested_pairs, pairs_result, problem_result, rows_data, side_members,
};
use super::join_merge::{KeyOrder, OrderedRecord};
use super::join_pipeline::stage_fields;
use super::join_rows::{StageExecutor, nested_rows, stage_executor, stage_executor_of};
use super::path::members_of;
use super::predicate::{evaluates_consistently, expression_of, filter_outcome, matches_filter, order_of, orders_consistently};
use super::projection::{JsonData, members_data, project_in, projected};
use super::request::QueryError;
use crate::join_strategy::JoinStrategy;

verus! {

/// What a stage's plan knows: the strategy that its cost model picked and
/// the one it falls back to, the rows in key order and the stage table's
/// records in join-index order where a fresh index gives that order, and
/// the probes of the stage table's join index where that index is fresh.
pub struct StageInputs {
    pub strategy: JoinStrategy,
    pub fallback: JoinStrategy,
    pub left_order: Option<Vec<OrderedRecord>>,
    pub right_order: Option<Vec<OrderedRecord>>,
    pub probes: Option<IndexProbes>,
}

/// The executor of a stage, from its plan.
pub open spec fn stage_plan_executor(kind: JoinType, inputs: StageInputs) -> StageExecutor {
    stage_executor_of(
        kind,
        inputs.strategy,
        inputs.fallback,
        inputs.left_order is Some && inputs.right_order is Some,
        inputs.probes is Some,
    )
}

/// The pairs of rows and records that a stage's executor yields, in order:
/// a cross join first bounds its candidate pairs; a merge runs over the two
/// orders (the driving side's first), an index join over the probes, and
/// every other executor yields the pairs of a nested-loop join.
pub open spec fn stage_pairs_of(
    kind: JoinType,
    left_keys: Seq<Option<u64>>,
    right_keys: Seq<Option<u64>>,
    inputs: StageInputs,
) -> Result<Seq<(Option<usize>, Option<usize>)>, JoinProblem> {
    let lc = left_keys.len();
    let rc = right_keys.len();
    let d = if kind == JoinType::Right { rc } else { lc };
    let o = if kind == JoinType::Right { lc } else { rc };
    match stage_plan_executor(kind, inputs) {
        StageExecutor::Cross => if lc * rc > usize::MAX {
            Err(JoinProblem::CrossPairOverflow)
        } else if lc * rc > MAX_JOIN_ROWS {
            Err(JoinProblem::CrossPairsExceedLimit)
        } else {
            Ok(nested_rows(kind, left_keys, right_keys))
        },
        StageExecutor::Merge => if kind == JoinType::Right {
            merge_pairs_of(kind, inputs.right_order.unwrap()@, inputs.left_order.unwrap()@, d, o)
        } else {
            merge_pairs_of(kind, inputs.left_order.unwrap()@, inputs.right_order.unwrap()@, d, o)
        },
        StageExecutor::IndexLeft => index_pairs_of(kind, inputs.probes.unwrap(), d, o),
        StageExecutor::IndexRight => index_pairs_of(kind, inputs.probes.unwrap(), d, o),
        _ => Ok(nested_rows(kind, left_keys, right_keys)),
    }
}

/// The pairs of rows and records that a stage's executor yields, in order.
pub fn stage_pairs(kind: JoinType, left_keys: &Vec<Option<u64>>, right_keys: &Vec<Option<u64>>, inputs: &StageInputs) -> (r: Result<
    Vec<(Option<usize>, Option<usize>)>,
    JoinError,
>)
    ensures
        pairs_result(r) == problem_result(stage_pairs_of(kind, left_keys@, right_keys@, *inputs)),
{
    let lc = left_keys.len();
    let rc = right_keys.len();
    let d = if kind == JoinType::Right { rc } else { lc };
    let o = if kind == JoinType::Right { lc } else { rc };
    let executor = stage_executor(
        kind,
        inputs.strategy,
        inputs.fallback,
        inputs.left_order.is_some() && inputs.right_order.is_some(),
        inputs.probes.is_some(),
    );
    match executor {
        StageExecutor::Cross => {
            match lc.checked_mul(rc) {
                None => Err(JoinError::Invalid(JoinProblem::CrossPairOverflow)),
                Some(n) => if n > MAX_JOIN_ROWS {
                    Err(JoinError::Invalid(JoinProblem::CrossPairsExceedLimit))
                } else {
                    Ok(nested_pairs(left_keys, right_keys, kind))
                },
            }
        },
        StageExecutor::Merge => {
            match (&inputs.left_order, &inputs.right_order) {
                (Some(a), Some(b)) => if kind == JoinType::Right {
                    merge_pairs(kind, b, a, d, o)
                } else {
                    merge_pairs(kind, a, b, d, o)
                },
                _ => {
                    assert(false);
                    Err(JoinError::Invalid(JoinProblem::IndexRowsMismatch))
                },
            }
        },
        StageExecutor::IndexLeft | StageExecutor::IndexRight => {
            match &inputs.probes {
                Some(p) => index_pairs_run(kind, p, d, o),
                None => {
                    assert(false);
                    Err(JoinError::Invalid(JoinProblem::IndexRowsMismatch))
                },
            }
        },
        StageExecutor::HashLeft | StageExecutor::HashRight => Ok(hash_pairs(left_keys, right_keys, kind)),
        _ => {
            assert(kind != JoinType::Cross);
            Ok(nested_pairs(left_keys, right_keys, kind))
        },
    }
}

/// The rows of a stage over rows of `width` tables and a table of
/// `right_count` records, from its pairs in order: a row extended by its
/// partner's position, or by none; a row without a left partner holds no
/// record of the earlier tables. Pairs that name a row or record that is
/// not there are refused, and so is a stage of more than `MAX_JOIN_ROWS`
/// rows.
pub open spec fn stage_rows_of(
    rows: Seq<Seq<Option<usize>>>,
    width: nat,
    right_count: nat,
    pairs: Seq<(Option<usize>, Option<usize>)>,
) -> Result<Seq<Seq<Option<usize>>>, JoinProblem>
    decreases pairs.len(),
{
    if pairs.len() == 0 {
        Ok(Seq::empty())
    } else {
        match stage_rows_of(rows, width, right_count, pairs.drop_last()) {
            Err(e) => Err(e),
            Ok(out) => {
                let pair = pairs.last();
                if (pair.0 matches Some(i) && i >= rows.len()) || (pair.1 matches Some(j) && j >= right_count) {
                    Err(JoinProblem::IndexRowsMismatch)
                } else if out.len() >= MAX_JOIN_ROWS {
                    Err(JoinProblem::ResultTooLarge)
                } else {
                    let left = match pair.0 {
                        Some(i) => rows[i as int],
                        None => Seq::new(width, |t: int| None::<usize>),
                    };
                    Ok(out.push(left.push(pair.1)))
                }
            },
        }
    }
}

/// Rows by their positions.
pub open spec fn rows_of(rows: Seq<Vec<Option<usize>>>) -> Seq<Seq<Option<usize>>> {
    rows.map_values(|r: Vec<Option<usize>>| r@)
}

/// Whether every row holds a position in each of the first `width` tables,
/// within that table.
pub open spec fn rows_within(rows: Seq<Seq<Option<usize>>>, tables: Seq<Vec<Vec<(String, JsonValue)>>>, width: nat) -> bool {
    &&& width <= tables.len()
    &&& forall|r: int| 0 <= r < rows.len() ==> (#[trigger] rows[r]).len() == width
    &&& forall|r: int, t: int| 0 <= r < rows.len() && 0 <= t < width ==> (#[trigger] rows[r][t] matches Some(i) ==> i
        < tables[t]@.len())
}

fn copy_row(row: &Vec<Option<usize>>) -> (r: Vec<Option<usize>>)
    ensures
        r@ == row@,
{
    let mut out: Vec<Option<usize>> = Vec::new();
    let mut i: usize = 0;
    while i < row.len()
        invariant
            i <= row@.len(),
            out@ == row@.subrange(0, i as int),
        decreases row.len() - i,
    {
        out.push(row[i]);
        assert(row@.subrange(0, i + 1) =~= row@.subrange(0, i as int).push(row@[i as int]));
        i += 1;
    }
    assert(row@.subrange(0, row@.len() as int) =~= row@);
    out
}

proof fn lemma_stage_error_stays(
    rows: Seq<Seq<Option<usize>>>,
    width: nat,
    right_count: nat,
    pairs: Seq<(Option<usize>, Option<usize>)>,
    n: int,
)
    requires
        0 <= n <= pairs.len(),
    ensures
        stage_rows_of(rows, width, right_count, pairs.subrange(0, n)) is Err ==> stage_rows_of(rows, width, right_count, pairs)
            == stage_rows_of(rows, width, right_count, pairs.subrange(0, n)),
    decreases pairs.len() - n,
{
    if n < pairs.len() {
        lemma_stage_error_stays(rows, width, right_count, pairs, n + 1);
        assert(pairs.subrange(0, n + 1).drop_last() =~= pairs.subrange(0, n));
    } else {
        assert(pairs.subrange(0, n) =~= pairs);
    }
}

/// The rows of a stage, from its pairs in order.
pub fn stage_rows(rows: &Vec<Vec<Option<usize>>>, width: usize, right_count: usize, pairs: &Vec<(Option<usize>, Option<usize>)>) -> (r: Result<
    Vec<Vec<Option<usize>>>,
    JoinError,
>)
    requires
        forall|i: int| 0 <= i < rows@.len() ==> (#[trigger] rows@[i])@.len() == width,
    ensures
        match stage_rows_of(rows_of(rows@), width as nat, right_count as nat, pairs@) {
            Ok(v) => r matches Ok(out) && rows_of(out@) == v,
            Err(p) => r == Err::<Vec<Vec<Option<usize>>>, JoinError>(JoinError::Invalid(p)),
        },
{
    let ghost rv = rows_of(rows@);
    let mut out: Vec<Vec<Option<usize>>> = Vec::new();
    let mut k: usize = 0;
    assert(pairs@.subrange(0, 0) =~= Seq::<(Option<usize>, Option<usize>)>::empty());
    assert(rows_of(out@) =~= Seq::<Seq<Option<usize>>>::empty());
    while k < pairs.len()
        invariant
            k <= pairs@.len(),
            rv == rows_of(rows@),
            forall|i: int| 0 <= i < rows@.len() ==> (#[trigger] rows@[i])@.len() == width,
            stage_rows_of(rv, width as nat, right_count as nat, pairs@.subrange(0, k as int)) == Ok::<
                Seq<Seq<Option<usize>>>,
                JoinProblem,
            >(rows_of(out@)),
        decreases pairs.len() - k,
    {
        let ghost upto = pairs@.subrange(0, k + 1);
        assert(upto.drop_last() =~= pairs@.subrange(0, k as int));
        assert(upto.last() == pairs@[k as int]);
        proof {
            lemma_stage_error_stays(rv, width as nat, right_count as nat, pairs@, k + 1);
        }
        let (a, b) = pairs[k];
        let bad_left = match a {
            Some(i) => i >= rows.len(),
            None => false,
        };
        let bad_right = match b {
            Some(j) => j >= right_count,
            None => false,
        };
        if bad_left || bad_right {
            return Err(JoinError::Invalid(JoinProblem::IndexRowsMismatch));
        }
        if out.len() >= MAX_JOIN_ROWS {
            return Err(JoinError::Invalid(JoinProblem::ResultTooLarge));
        }
        let mut row = match a {
            Some(i) => copy_row(&rows[i]),
            None => {
                let mut blank: Vec<Option<usize>> = Vec::new();
                let mut t: usize = 0;
                while t < width
                    invariant
                        t <= width,
                        blank@ =~= Seq::new(t as nat, |x: int| None::<usize>),
                    decreases width - t,
                {
                    blank.push(None);
                    t += 1;
                }
                blank
            },
        };
        row.push(b);
        let ghost before = out@;
        out.push(row);
        assert(rows_of(out@) =~= rows_of(before).push(row@));
        k += 1;
    }
    assert(pairs@.subrange(0, pairs@.len() as int) =~= pairs@);
    Ok(out)
}

/// The members of a pipeline row: each table's record's members, table by
/// table, none for a table without a record in the row.
pub open spec fn row_members(tables: Seq<Vec<Vec<(String, JsonValue)>>>, row: Seq<Option<usize>>) -> Seq<(String, JsonValue)>
    decreases row.len(),
{
    if row.len() == 0 {
        Seq::empty()
    } else {
        row_members(tables, row.drop_last()) + side_members(tables[row.len() - 1]@, row.last())
    }
}

/// The members of a pipeline row, as references to its records' members.
fn row_refs<'a>(tables: &'a Vec<Vec<Vec<(String, JsonValue)>>>, row: &Vec<Option<usize>>) -> (r: Vec<&'a (String, JsonValue)>)
    requires
        row@.len() <= tables@.len(),
        forall|t: int| 0 <= t < row@.len() ==> (#[trigger] row@[t] matches Some(i) ==> i < tables@[t]@.len()),
    ensures
        members_of(r@) == row_members(tables@, row@),
{
    let mut refs: Vec<&'a (String, JsonValue)> = Vec::new();
    let mut t: usize = 0;
    assert(row@.subrange(0, 0) =~= Seq::<Option<usize>>::empty());
    assert(members_of(refs@) =~= Seq::<(String, JsonValue)>::empty());
    while t < row.len()
        invariant
            t <= row@.len(),
            row@.len() <= tables@.len(),
            forall|u: int| 0 <= u < row@.len() ==> (#[trigger] row@[u] matches Some(i) ==> i < tables@[u]@.len()),
            members_of(refs@) == row_members(tables@, row@.subrange(0, t as int)),
        decreases row.len() - t,
    {
        let ghost upto = row@.subrange(0, t + 1);
        assert(upto.drop_last() =~= row@.subrange(0, t as int));
        if let Some(i) = row[t] {
            push_members(&mut refs, &tables[t][i]);
        }
        assert(members_of(refs@) =~= row_members(tables@, upto));
        t += 1;
    }
    assert(row@.subrange(0, row@.len() as int) =~= row@);
    refs
}

/// `key_of` gives `k` as the join key of the fields `fields` of some record
/// with the members `values`.
pub open spec fn keyed_with<K: Fn(&Vec<&(String, JsonValue)>, &Vec<String>) -> Option<u64>>(
    key_of: K,
    values: Seq<(String, JsonValue)>,
    fields: Seq<Seq<char>>,
    k: Option<u64>,
) -> bool {
    exists|v: &Vec<&(String, JsonValue)>, f: &Vec<String>|
        members_of(v@) == values && f@.map_values(|s: String| s@) == fields && #[trigger] key_of.ensures((v, f), k)
}

/// The join key that `key_of` gives the fields `fields` of a record with
/// the members `values`.
pub open spec fn key_by<K: Fn(&Vec<&(String, JsonValue)>, &Vec<String>) -> Option<u64>>(
    key_of: K,
    values: Seq<(String, JsonValue)>,
    fields: Seq<Seq<char>>,
) -> Option<u64> {
    choose|k: Option<u64>| keyed_with(key_of, values, fields, k)
}

/// `key_of` may be asked of any record and fields, and answers by the
/// record's members and the fields' names alone, one way.
pub open spec fn keys_consistently<K: Fn(&Vec<&(String, JsonValue)>, &Vec<String>) -> Option<u64>>(key_of: K) -> bool {
    &&& forall|v: &Vec<&(String, JsonValue)>, f: &Vec<String>| #[trigger] key_of.requires((v, f))
    &&& forall|v: &Vec<&(String, JsonValue)>, w: &Vec<&(String, JsonValue)>, f: &Vec<String>, g: &Vec<String>, a: Option<u64>, b: Option<u64>|
        members_of(v@) == members_of(w@) && f@.map_values(|s: String| s@) == g@.map_values(|s: String| s@)
            && #[trigger] key_of.ensures((v, f), a) && #[trigger] key_of.ensures((w, g), b) ==> a == b
}

fn ask_key<K: Fn(&Vec<&(String, JsonValue)>, &Vec<String>) -> Option<u64>>(
    key_of: &K,
    values: &Vec<&(String, JsonValue)>,
    fields: &Vec<String>,
) -> (r: Option<u64>)
    requires
        keys_consistently(*key_of),
    ensures
        r == key_by(*key_of, members_of(values@), fields@.map_values(|s: String| s@)),
{
    let r = key_of(values, fields);
    proof {
        let fv = fields@.map_values(|s: String| s@);
        assert(key_of.ensures((values, fields), r));
        assert(keyed_with(*key_of, members_of(values@), fv, r));
        let c = choose|k: Option<u64>| keyed_with(*key_of, members_of(values@), fv, k);
        let (w, g) = choose|v: &Vec<&(String, JsonValue)>, f: &Vec<String>|
            members_of(v@) == members_of(values@) && f@.map_values(|s: String| s@) == fv && #[trigger] key_of.ensures((v, f), c);
        assert(key_of.ensures((w, g), c));
    }
    r
}

/// The join keys of pipeline rows.
pub open spec fn row_keys<K: Fn(&Vec<&(String, JsonValue)>, &Vec<String>) -> Option<u64>>(
    key_of: K,
    tables: Seq<Vec<Vec<(String, JsonValue)>>>,
    rows: Seq<Seq<Option<usize>>>,
    fields: Seq<Seq<char>>,
) -> Seq<Option<u64>> {
    Seq::new(rows.len(), |i: int| key_by(key_of, row_members(tables, rows[i]), fields))
}

/// The join keys of a table's records.
pub open spec fn record_keys<K: Fn(&Vec<&(String, JsonValue)>, &Vec<String>) -> Option<u64>>(
    key_of: K,
    records: Seq<Vec<(String, JsonValue)>>,
    fields: Seq<Seq<char>>,
) -> Seq<Option<u64>> {
    Seq::new(records.len(), |j: int| key_by(key_of, records[j]@, fields))
}

fn row_keys_run<K: Fn(&Vec<&(String, JsonValue)>, &Vec<String>) -> Option<u64>>(
    key_of: &K,
    tables: &Vec<Vec<Vec<(String, JsonValue)>>>,
    rows: &Vec<Vec<Option<usize>>>,
    width: usize,
    fields: &Vec<String>,
) -> (r: Vec<Option<u64>>)
    requires
        keys_consistently(*key_of),
        rows_within(rows_of(rows@), tables@, width as nat),
    ensures
        r@ == row_keys(*key_of, tables@, rows_of(rows@), fields@.map_values(|s: String| s@)),
{
    let ghost want = row_keys(*key_of, tables@, rows_of(rows@), fields@.map_values(|s: String| s@));
    let mut out: Vec<Option<u64>> = Vec::new();
    let mut i: usize = 0;
    while i < rows.len()
        invariant
            i <= rows@.len(),
            keys_consistently(*key_of),
            rows_within(rows_of(rows@), tables@, width as nat),
            want == row_keys(*key_of, tables@, rows_of(rows@), fields@.map_values(|s: String| s@)),
            out@ == want.subrange(0, i as int),
        decreases rows.len() - i,
    {
        assert(rows_of(rows@)[i as int] == rows@[i as int]@);
        assert forall|t: int| 0 <= t < rows@[i as int]@.len() implies (#[trigger] rows@[i as int]@[t] matches Some(p) ==> p
            < tables@[t]@.len()) by {
            assert(rows_of(rows@)[i as int][t] == rows@[i as int]@[t]);
        }
        let refs = row_refs(tables, &rows[i]);
        let k = ask_key(key_of, &refs, fields);
        out.push(k);
        assert(out@ =~= want.subrange(0, i + 1));
        i += 1;
    }
    assert(out@ =~= want);
    out
}

fn record_keys_run<K: Fn(&Vec<&(String, JsonValue)>, &Vec<String>) -> Option<u64>>(
    key_of: &K,
    records: &Vec<Vec<(String, JsonValue)>>,
    fields: &Vec<String>,
) -> (r: Vec<Option<u64>>)
    requires
        keys_consistently(*key_of),
    ensures
        r@ == record_keys(*key_of, records@, fields@.map_values(|s: String| s@)),
{
    let ghost want = record_keys(*key_of, records@, fields@.map_values(|s: String| s@));
    let mut out: Vec<Option<u64>> = Vec::new();
    let mut j: usize = 0;
    while j < records.len()
        invariant
            j <= records@.len(),
            keys_consistently(*key_of),
            want == record_keys(*key_of, records@, fields@.map_values(|s: String| s@)),
            out@ == want.subrange(0, j as int),
        decreases records.len() - j,
    {
        let mut refs: Vec<&(String, JsonValue)> = Vec::new();
        assert(members_of(refs@) =~= Seq::<(String, JsonValue)>::empty());
        push_members(&mut refs, &records[j]);
        assert(members_of(refs@) =~= records@[j as int]@);
        let k = ask_key(key_of, &refs, fields);
        out.push(k);
        assert(out@ =~= want.subrange(0, j + 1));
        j += 1;
    }
    assert(out@ =~= want);
    out
}

/// Stage `k` of a request: its `join`, then each of its `joins`.
pub open spec fn stage_of(r: JoinRequest, k: int) -> JoinSpec {
    if k == 0 {
        r.join
    } else {
        r.joins@[k - 1]
    }
}

/// The local fields of a stage, in condition order.
pub open spec fn local_fields_of(s: JoinSpec) -> Seq<Seq<char>> {
    conditions(s.on@).map_values(|c: (Seq<char>, Seq<char>)| c.0)
}

/// The joined table's fields of a stage, in condition order.
pub open spec fn foreign_fields_of(s: JoinSpec) -> Seq<Seq<char>> {
    conditions(s.on@).map_values(|c: (Seq<char>, Seq<char>)| c.1)
}

/// The rows before any stage: each record of `from` on its own.
pub open spec fn first_rows(count: nat) -> Seq<Seq<Option<usize>>> {
    Seq::new(count, |i: int| seq![Some(i as usize)])
}

/// The rows after the first `n` stages: each stage pairs the rows, keyed by
/// its local fields, with its table's records, keyed by its joined fields,
/// and its executor's pairs make its rows.
pub open spec fn pipeline_rows<K: Fn(&Vec<&(String, JsonValue)>, &Vec<String>) -> Option<u64>>(
    r: JoinRequest,
    tables: Seq<Vec<Vec<(String, JsonValue)>>>,
    inputs: Seq<StageInputs>,
    key_of: K,
    n: nat,
) -> Result<Seq<Seq<Option<usize>>>, JoinProblem>
    decreases n,
{
    if n == 0 {
        Ok(first_rows(tables[0]@.len()))
    } else {
        match pipeline_rows(r, tables, inputs, key_of, (n - 1) as nat) {
            Err(e) => Err(e),
            Ok(rows) => {
                let s = stage_of(r, n - 1);
                match stage_pairs_of(
                    s.kind,
                    row_keys(key_of, tables, rows, local_fields_of(s)),
                    record_keys(key_of, tables[n as int]@, foreign_fields_of(s)),
                    inputs[n - 1],
                ) {
                    Err(e) => Err(e),
                    Ok(pairs) => stage_rows_of(rows, n, tables[n as int]@.len(), pairs),
                }
            },
        }
    }
}

/// The output of a pipeline's rows, in order: each row's members matched
/// against `filter`, a matching row projected; a filter that cannot be
/// applied fails the join.
pub open spec fn pipeline_output<F, G>(
    rows: Seq<Seq<Option<usize>>>,
    tables: Seq<Vec<Vec<(String, JsonValue)>>>,
    filter: Seq<(String, JsonValue)>,
    projection: Seq<(String, i8)>,
    order: F,
    expression: G,
) -> Result<Seq<Seq<(Seq<char>, JsonData)>>, JoinErrorView> where
    F: Fn(&JsonValue, &JsonValue) -> Option<KeyOrder>,
    G: Fn(&Vec<&(String, JsonValue)>, &JsonValue) -> Result<bool, QueryError>,

    decreases rows.len(),
{
    if rows.len() == 0 {
        Ok(Seq::empty())
    } else {
        match pipeline_output(rows.drop_last(), tables, filter, projection, order, expression) {
            Err(e) => Err(e),
            Ok(out) => {
                let row = row_members(tables, rows.last());
                match filter_outcome(row, filter, order_of(order), expression_of(expression, row)) {
                    Err(e) => Err(join_error_of(e)),
                    Ok(false) => Ok(out),
                    Ok(true) => Ok(out.push(projected(row, projection))),
                }
            },
        }
    }
}

/// The result of a join pipeline over `tables` (the records of `from`, then
/// of each stage's table) with `inputs` (each stage's plan): a refused
/// request fails with its error, tables or plans that do not match the
/// stages are refused, and otherwise the rows after the last stage are
/// filtered and projected.
pub open spec fn pipeline_of<F, G, K>(
    r: JoinRequest,
    tables: Seq<Vec<Vec<(String, JsonValue)>>>,
    inputs: Seq<StageInputs>,
    key_of: K,
    order: F,
    expression: G,
) -> Result<Seq<Seq<(Seq<char>, JsonData)>>, JoinErrorView> where
    F: Fn(&JsonValue, &JsonValue) -> Option<KeyOrder>,
    G: Fn(&Vec<&(String, JsonValue)>, &JsonValue) -> Result<bool, QueryError>,
    K: Fn(&Vec<&(String, JsonValue)>, &Vec<String>) -> Option<u64>,
 {
    match request_error(r) {
        Some(e) => Err(e),
        None => if tables.len() != r.joins@.len() + 2 || inputs.len() != r.joins@.len() + 1 {
            Err(JoinErrorView::Invalid(JoinProblem::IndexRowsMismatch))
        } else {
            match pipeline_rows(r, tables, inputs, key_of, (r.joins@.len() + 1) as nat) {
                Err(p) => Err(JoinErrorView::Invalid(p)),
                Ok(rows) => pipeline_output(rows, tables, r.filter@, r.projection@, order, expression),
            }
        },
    }
}

/// A stage's rows stay within the tables joined so far.
proof fn lemma_stage_rows_within(
    rows: Seq<Seq<Option<usize>>>,
    tables: Seq<Vec<Vec<(String, JsonValue)>>>,
    width: nat,
    pairs: Seq<(Option<usize>, Option<usize>)>,
)
    requires
        rows_within(rows, tables, width),
        width < tables.len(),
    ensures
        stage_rows_of(rows, width, tables[width as int]@.len(), pairs) matches Ok(out) ==> rows_within(out, tables, width + 1),
    decreases pairs.len(),
{
    if pairs.len() > 0 {
        lemma_stage_rows_within(rows, tables, width, pairs.drop_last());
        let rc = tables[width as int]@.len();
        if let Ok(out) = stage_rows_of(rows, width, rc, pairs) {
            let prev = stage_rows_of(rows, width, rc, pairs.drop_last())->Ok_0;
            let pair = pairs.last();
            let left = match pair.0 {
                Some(i) => rows[i as int],
                None => Seq::new(width, |t: int| None::<usize>),
            };
            assert(out == prev.push(left.push(pair.1)));
            assert forall|q: int, t: int| 0 <= q < out.len() && 0 <= t < width + 1 implies (#[trigger] out[q][t] matches Some(i)
                ==> i < tables[t]@.len()) by {
                if q < prev.len() {
                    assert(out[q] == prev[q]);
                } else {
                    if t < width {
                        if let Some(i) = pair.0 {
                            assert(out[q][t] == rows[i as int][t]);
                        }
                    }
                }
            }
        }
    }
}

proof fn lemma_output_error_stays<F, G>(
    rows: Seq<Seq<Option<usize>>>,
    n: int,
    tables: Seq<Vec<Vec<(String, JsonValue)>>>,
    filter: Seq<(String, JsonValue)>,
    projection: Seq<(String, i8)>,
    order: F,
    expression: G,
) where
    F: Fn(&JsonValue, &JsonValue) -> Option<KeyOrder>,
    G: Fn(&Vec<&(String, JsonValue)>, &JsonValue) -> Result<bool, QueryError>,

    requires
        0 <= n <= rows.len(),
    ensures
        pipeline_output(rows.subrange(0, n), tables, filter, projection, order, expression) is Err ==> pipeline_output(
            rows,
            tables,
            filter,
            projection,
            order,
            expression,
        ) == pipeline_output(rows.subrange(0, n), tables, filter, projection, order, expression),
    decreases rows.len() - n,
{
    if n < rows.len() {
        lemma_output_error_stays(rows, n + 1, tables, filter, projection, order, expression);
        assert(rows.subrange(0, n + 1).drop_last() =~= rows.subrange(0, n));
    } else {
        assert(rows.subrange(0, n) =~= rows);
    }
}

proof fn lemma_pipeline_error_stays<K: Fn(&Vec<&(String, JsonValue)>, &Vec<String>) -> Option<u64>>(
    r: JoinRequest,
    tables: Seq<Vec<Vec<(String, JsonValue)>>>,
    inputs: Seq<StageInputs>,
    key_of: K,
    n: nat,
    m: nat,
)
    requires
        n <= m,
    ensures
        pipeline_rows(r, tables, inputs, key_of, n) is Err ==> pipeline_rows(r, tables, inputs, key_of, m) == pipeline_rows(
            r,
            tables,
            inputs,
            key_of,
            n,
        ),
    decreases m,
{
    if n < m {
        lemma_pipeline_error_stays(r, tables, inputs, key_of, n, (m - 1) as nat);
    }
}

/// Filters and projects a pipeline's rows, in order.
fn pipeline_finish<F, G>(
    rows: &Vec<Vec<Option<usize>>>,
    width: usize,
    tables: &Vec<Vec<Vec<(String, JsonValue)>>>,
    filter: &Vec<(String, JsonValue)>,
    projection: &Vec<(String, i8)>,
    order: &F,
    expression: &G,
) -> (r: Result<Vec<Vec<(String, JsonValue)>>, JoinError>) where
    F: Fn(&JsonValue, &JsonValue) -> Option<KeyOrder>,
    G: Fn(&Vec<&(String, JsonValue)>, &JsonValue) -> Result<bool, QueryError>,

    requires
        orders_consistently(*order),
        evaluates_consistently(*expression),
        rows_within(rows_of(rows@), tables@, width as nat),
    ensures
        join_result(r) == pipeline_output(rows_of(rows@), tables@, filter@, projection@, *order, *expression),
{
    let ghost rv = rows_of(rows@);
    let mut out: Vec<Vec<(String, JsonValue)>> = Vec::new();
    let mut i: usize = 0;
    assert(rv.subrange(0, 0) =~= Seq::<Seq<Option<usize>>>::empty());
    assert(rows_data(out@) =~= Seq::<Seq<(Seq<char>, JsonData)>>::empty());
    while i < rows.len()
        invariant
            i <= rows@.len(),
            rv == rows_of(rows@),
            orders_consistently(*order),
            evaluates_consistently(*expression),
            rows_within(rv, tables@, width as nat),
            pipeline_output(rv.subrange(0, i as int), tables@, filter@, projection@, *order, *expression) == Ok::<
                Seq<Seq<(Seq<char>, JsonData)>>,
                JoinErrorView,
            >(rows_data(out@)),
        decreases rows.len() - i,
    {
        let ghost upto = rv.subrange(0, i + 1);
        assert(upto.drop_last() =~= rv.subrange(0, i as int));
        assert(upto.last() == rows@[i as int]@);
        proof {
            lemma_output_error_stays(rv, i + 1, tables@, filter@, projection@, *order, *expression);
        }
        assert(rv[i as int] == rows@[i as int]@);
        assert forall|t: int| 0 <= t < rows@[i as int]@.len() implies (#[trigger] rows@[i as int]@[t] matches Some(p) ==> p
            < tables@[t]@.len()) by {
            assert(rv[i as int][t] == rows@[i as int]@[t]);
        }
        let refs = row_refs(tables, &rows[i]);
        match matches_filter(&refs, filter, order, expression) {
            Err(QueryError::Filter(p)) => {
                return Err(JoinError::Query(p));
            },
            Err(QueryError::Invalid(q)) => {
                return Err(JoinError::Request(q));
            },
            Ok(false) => {},
            Ok(true) => {
                let projected_row = project_in(&refs, projection);
                let ghost before = out@;
                out.push(projected_row);
                assert(rows_data(out@) =~= rows_data(before).push(members_data(projected_row@)));
            },
        }
        i += 1;
    }
    assert(rv.subrange(0, rv.len() as int) =~= rv);
    Ok(out)
}

/// Runs a join pipeline: the records of `from` (`tables[0]`) joined with
/// each stage's table (`tables[k + 1]` for stage `k`, the request's `join`
/// then its `joins`) under each stage's plan (`inputs[k]`), each record with
/// its members named after its table. `key_of` gives a record's or row's
/// join key over a stage's fields, equal exactly when the fields' values
/// are; `order` is the scalar order of JSON values and `expression`
/// evaluates `$expr`.
pub fn execute_pipeline<F, G, K>(
    request: &JoinRequest,
    tables: &Vec<Vec<Vec<(String, JsonValue)>>>,
    inputs: &Vec<StageInputs>,
    key_of: &K,
    order: &F,
    expression: &G,
) -> (r: Result<Vec<Vec<(String, JsonValue)>>, JoinError>) where
    F: Fn(&JsonValue, &JsonValue) -> Option<KeyOrder>,
    G: Fn(&Vec<&(String, JsonValue)>, &JsonValue) -> Result<bool, QueryError>,
    K: Fn(&Vec<&(String, JsonValue)>, &Vec<String>) -> Option<u64>,

    requires
        orders_consistently(*order),
        evaluates_consistently(*expression),
        keys_consistently(*key_of),
    ensures
        join_result(r) == pipeline_of(*request, tables@, inputs@, *key_of, *order, *expression),
{
    if let Err(e) = validate(request) {
        return Err(e);
    }
    let stages = request.joins.len();
    if stages >= usize::MAX - 1 || tables.len() != stages + 2 || inputs.len() != stages + 1 {
        return Err(JoinError::Invalid(JoinProblem::IndexRowsMismatch));
    }
    let mut rows: Vec<Vec<Option<usize>>> = Vec::new();
    let mut i: usize = 0;
    while i < tables[0].len()
        invariant
            tables@.len() == stages + 2,
            i <= tables@[0]@.len(),
            rows_of(rows@) =~= first_rows(i as nat),
        decreases tables[0].len() - i,
    {
        let mut row: Vec<Option<usize>> = Vec::new();
        row.push(Some(i));
        let ghost before = rows@;
        rows.push(row);
        assert(rows_of(rows@) =~= rows_of(before).push(seq![Some(i)]));
        i += 1;
    }
    assert(rows_within(rows_of(rows@), tables@, 1));
    let mut n: usize = 0;
    while n <= stages
        invariant
            n <= stages + 1,
            stages < usize::MAX - 1,
            request_error(*request) is None,
            stages == request.joins@.len(),
            tables@.len() == stages + 2,
            inputs@.len() == stages + 1,
            keys_consistently(*key_of),
            rows_within(rows_of(rows@), tables@, (n + 1) as nat),
            pipeline_rows(*request, tables@, inputs@, *key_of, n as nat) == Ok::<Seq<Seq<Option<usize>>>, JoinProblem>(
                rows_of(rows@),
            ),
        decreases stages + 1 - n,
    {
        let spec = if n == 0 { &request.join } else { &request.joins[n - 1] };
        assert(*spec == stage_of(*request, n as int));
        let (local, foreign) = stage_fields(spec);
        let left_keys = row_keys_run(key_of, tables, &rows, n + 1, &local);
        let right_keys = record_keys_run(key_of, &tables[n + 1], &foreign);
        proof {
            lemma_pipeline_error_stays(*request, tables@, inputs@, *key_of, (n + 1) as nat, (stages + 1) as nat);
        }
        let pairs = match stage_pairs(spec.kind, &left_keys, &right_keys, &inputs[n]) {
            Ok(p) => p,
            Err(e) => {
                return Err(e);
            },
        };
        assert forall|q: int| 0 <= q < rows@.len() implies (#[trigger] rows@[q])@.len() == n + 1 by {
            assert(rows_of(rows@)[q] == rows@[q]@);
        }
        let next = match stage_rows(&rows, n + 1, tables[n + 1].len(), &pairs) {
            Ok(v) => v,
            Err(e) => {
                return Err(e);
            },
        };
        proof {
            lemma_stage_rows_within(rows_of(rows@), tables@, (n + 1) as nat, pairs@);
        }
        rows = next;
        n += 1;
    }
    pipeline_finish(&rows, stages + 2, tables, &request.filter, &request.projection, order, expression)
}

/// A pipeline stage holds at most `MAX_JOIN_ROWS` rows.
pub proof fn law_stage_rows_are_bounded(
    rows: Seq<Seq<Option<usize>>>,
    width: nat,
    right_count: nat,
    pairs: Seq<(Option<usize>, Option<usize>)>,
)
    ensures
        stage_rows_of(rows, width, right_count, pairs) matches Ok(out) ==> out.len() <= MAX_JOIN_ROWS,
    decreases pairs.len(),
{
    if pairs.len() > 0 {
        law_stage_rows_are_bounded(rows, width, right_count, pairs.drop_last());
    }
}

} // verus!
