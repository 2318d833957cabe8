//! Which rows a join produces, over join keys.
//!
//! A record's join key is the list of its join-field values; it is absent
//! when a field is missing or null. Keys are given here as integers that are
//! equal exactly when the keys are, one per record in table order.
use vstd::prelude::*;
use std::collections::HashMap;
use super::join::{JoinError, JoinProblem, JoinType, MAX_JOIN_ROWS};
use crate::arith::sat_add;

verus! {

broadcast use vstd::std_specs::hash::group_hash_axioms;

/// How many records carry the key `k`.
pub open spec fn count_key(keys: Seq<Option<u64>>, k: u64) -> nat
    decreases keys.len(),
{
    if keys.len() == 0 {
        0
    } else {
        count_key(keys.drop_last(), k) + if keys.last() == Some(k) { 1nat } else { 0nat }
    }
}

/// The positions of the records that carry the key `k`, in table order.
pub open spec fn positions_of(keys: Seq<Option<u64>>, k: u64) -> Seq<usize>
    decreases keys.len(),
{
    if keys.len() == 0 {
        Seq::empty()
    } else {
        positions_of(keys.drop_last(), k) + if keys.last() == Some(k) {
            seq![(keys.len() - 1) as usize]
        } else {
            Seq::empty()
        }
    }
}

/// How many records of `other` a record with key `key` matches.
pub open spec fn match_count(key: Option<u64>, other: Seq<Option<u64>>) -> nat {
    match key {
        Some(k) => count_key(other, k),
        None => 0,
    }
}

/// The number of matching pairs between `keys` and `other`.
pub open spec fn pair_total(keys: Seq<Option<u64>>, other: Seq<Option<u64>>) -> nat
    decreases keys.len(),
{
    if keys.len() == 0 {
        0
    } else {
        pair_total(keys.drop_last(), other) + match_count(keys.last(), other)
    }
}

/// The number of records of `keys` that match at least one record of `other`.
pub open spec fn matched_total(keys: Seq<Option<u64>>, other: Seq<Option<u64>>) -> nat
    decreases keys.len(),
{
    if keys.len() == 0 {
        0
    } else {
        matched_total(keys.drop_last(), other) + if match_count(keys.last(), other) > 0 { 1nat } else { 0nat }
    }
}

/// `n` clamped to `usize::MAX`.
pub open spec fn clamp(n: int) -> usize {
    if n > usize::MAX { usize::MAX } else { n as usize }
}

/// The estimated row count of an equality join of `left` with `right`:
/// matching pairs, plus the unmatched records that the join keeps, each sum
/// clamped to `usize::MAX`.
pub open spec fn estimated_rows(left: Seq<Option<u64>>, right: Seq<Option<u64>>, kind: JoinType) -> usize {
    let pairs = pair_total(left, right);
    let left_matched = matched_total(left, right);
    let right_matched = matched_total(right, left);
    let left_unmatched = left.len() - left_matched;
    let right_unmatched = right.len() - right_matched;
    match kind {
        JoinType::Inner => clamp(pairs as int),
        JoinType::Left => clamp(pairs + left_unmatched),
        JoinType::Right => clamp(pairs + right_unmatched),
        JoinType::Full => clamp(pairs + left_unmatched + right_unmatched),
        JoinType::Semi => left_matched as usize,
        JoinType::Anti => left_unmatched as usize,
        JoinType::Cross => 0,
    }
}

pub(crate) proof fn lemma_counts_step(keys: Seq<Option<u64>>, j: int, k: u64)
    requires
        0 <= j < keys.len(),
    ensures
        count_key(keys.subrange(0, j + 1), k) == count_key(keys.subrange(0, j), k) + if keys[j] == Some(k) {
            1nat
        } else {
            0nat
        },
        positions_of(keys.subrange(0, j + 1), k) == positions_of(keys.subrange(0, j), k) + if keys[j] == Some(k) {
            seq![j as usize]
        } else {
            Seq::<usize>::empty()
        },
{
    assert(keys.subrange(0, j + 1).drop_last() =~= keys.subrange(0, j));
}

pub(crate) proof fn lemma_count_bound(keys: Seq<Option<u64>>, k: u64)
    ensures
        count_key(keys, k) <= keys.len(),
        count_key(keys, k) == positions_of(keys, k).len(),
    decreases keys.len(),
{
    if keys.len() > 0 {
        lemma_count_bound(keys.drop_last(), k);
    }
}

proof fn lemma_totals_step(keys: Seq<Option<u64>>, other: Seq<Option<u64>>, i: int)
    requires
        0 <= i < keys.len(),
    ensures
        pair_total(keys.subrange(0, i + 1), other) == pair_total(keys.subrange(0, i), other) + match_count(
            keys[i],
            other,
        ),
        matched_total(keys.subrange(0, i + 1), other) == matched_total(keys.subrange(0, i), other) + if match_count(
            keys[i],
            other,
        ) > 0 {
            1nat
        } else {
            0nat
        },
{
    assert(keys.subrange(0, i + 1).drop_last() =~= keys.subrange(0, i));
}

proof fn lemma_matched_bound(keys: Seq<Option<u64>>, other: Seq<Option<u64>>)
    ensures
        matched_total(keys, other) <= keys.len(),
    decreases keys.len(),
{
    if keys.len() > 0 {
        lemma_matched_bound(keys.drop_last(), other);
    }
}

/// The number of records carrying each key.
fn key_counts(keys: &Vec<Option<u64>>) -> (r: HashMap<u64, usize>)
    ensures
        forall|k: u64| #[trigger] r@.contains_key(k) <==> count_key(keys@, k) > 0,
        forall|k: u64| r@.contains_key(k) ==> #[trigger] r@[k] == count_key(keys@, k),
{
    let mut counts: HashMap<u64, usize> = HashMap::new();
    let mut j: usize = 0;
    while j < keys.len()
        invariant
            j <= keys@.len(),
            forall|k: u64| #[trigger] counts@.contains_key(k) <==> count_key(keys@.subrange(0, j as int), k) > 0,
            forall|k: u64| counts@.contains_key(k) ==> #[trigger] counts@[k] == count_key(keys@.subrange(0, j as int), k),
        decreases keys.len() - j,
    {
        proof {
            assert forall|k: u64| true implies count_key(keys@.subrange(0, j + 1), k) == count_key(
                keys@.subrange(0, j as int),
                k,
            ) + if keys@[j as int] == Some(k) { 1nat } else { 0nat } by {
                lemma_counts_step(keys@, j as int, k);
            }
        }
        if let Some(k) = keys[j] {
            let current: usize = match counts.get(&k) {
                Some(c) => *c,
                None => 0,
            };
            proof {
                lemma_count_bound(keys@.subrange(0, j as int), k);
            }
            counts.insert(k, current + 1);
        }
        j += 1;
    }
    assert(keys@.subrange(0, keys@.len() as int) =~= keys@);
    counts
}

/// The number of records of `keys` that `counts` matches, and the matching
/// pairs clamped to `usize::MAX`.
fn match_totals(keys: &Vec<Option<u64>>, counts: &HashMap<u64, usize>, Ghost(other): Ghost<Seq<Option<u64>>>) -> (r: (usize, usize))
    requires
        forall|k: u64| #[trigger] counts@.contains_key(k) <==> count_key(other, k) > 0,
        forall|k: u64| counts@.contains_key(k) ==> #[trigger] counts@[k] == count_key(other, k),
    ensures
        r.0 == matched_total(keys@, other),
        r.1 == clamp(pair_total(keys@, other) as int),
{
    let mut matched: usize = 0;
    let mut pairs: usize = 0;
    let mut i: usize = 0;
    while i < keys.len()
        invariant
            i <= keys@.len(),
            forall|k: u64| #[trigger] counts@.contains_key(k) <==> count_key(other, k) > 0,
            forall|k: u64| counts@.contains_key(k) ==> #[trigger] counts@[k] == count_key(other, k),
            matched == matched_total(keys@.subrange(0, i as int), other),
            pairs == clamp(pair_total(keys@.subrange(0, i as int), other) as int),
        decreases keys.len() - i,
    {
        proof {
            lemma_totals_step(keys@, other, i as int);
            lemma_matched_bound(keys@.subrange(0, i as int), other);
        }
        let term: usize = match keys[i] {
            Some(k) => match counts.get(&k) {
                Some(c) => *c,
                None => 0,
            },
            None => 0,
        };
        assert(term == match_count(keys@[i as int], other));
        if term > 0 {
            matched = matched + 1;
        }
        pairs = pairs.saturating_add(term);
        i += 1;
    }
    assert(keys@.subrange(0, keys@.len() as int) =~= keys@);
    (matched, pairs)
}

/// Estimates the rows of an equality join from its keys; cross joins have
/// no equality estimate.
pub fn estimate_join_rows(left: &Vec<Option<u64>>, right: &Vec<Option<u64>>, kind: JoinType) -> (r: Result<usize, JoinError>)
    ensures
        kind == JoinType::Cross ==> r == Err::<usize, JoinError>(JoinError::Invalid(JoinProblem::CrossEstimation)),
        kind != JoinType::Cross ==> r == Ok::<usize, JoinError>(estimated_rows(left@, right@, kind)),
{
    if kind == JoinType::Cross {
        return Err(JoinError::Invalid(JoinProblem::CrossEstimation));
    }
    let left_counts = key_counts(left);
    let right_counts = key_counts(right);
    let (left_matched, pairs) = match_totals(left, &right_counts, Ghost(right@));
    let (right_matched, _) = match_totals(right, &left_counts, Ghost(left@));
    proof {
        lemma_matched_bound(left@, right@);
        lemma_matched_bound(right@, left@);
    }
    let left_unmatched = left.len() - left_matched;
    let right_unmatched = right.len() - right_matched;
    let rows = match kind {
        JoinType::Inner => pairs,
        JoinType::Left => pairs.saturating_add(left_unmatched),
        JoinType::Right => pairs.saturating_add(right_unmatched),
        JoinType::Full => pairs.saturating_add(left_unmatched).saturating_add(right_unmatched),
        JoinType::Semi => left_matched,
        JoinType::Anti => left_unmatched,
        JoinType::Cross => 0,
    };
    Ok(rows)
}

/// The records of one table grouped by join key, for probing with the keys
/// of the other table.
pub struct KeyIndex {
    positions: HashMap<u64, Vec<usize>>,
    keys: Ghost<Seq<Option<u64>>>,
}

impl KeyIndex {
    /// The keys, one per record in table order, that this index groups.
    pub closed spec fn keys(&self) -> Seq<Option<u64>> {
        self.keys@
    }

    #[verifier::type_invariant]
    closed spec fn wf(&self) -> bool {
        &&& forall|k: u64| #[trigger] self.positions@.contains_key(k) <==> positions_of(self.keys@, k).len() > 0
        &&& forall|k: u64| self.positions@.contains_key(k) ==> (#[trigger] self.positions@[k])@ == positions_of(self.keys@, k)
    }

    /// Groups the records of one table by their keys.
    pub fn build(keys: &Vec<Option<u64>>) -> (r: KeyIndex)
        ensures
            r.keys() == keys@,
    {
        let mut positions: HashMap<u64, Vec<usize>> = HashMap::new();
        let mut j: usize = 0;
        while j < keys.len()
            invariant
                j <= keys@.len(),
                forall|k: u64| #[trigger] positions@.contains_key(k) <==> positions_of(keys@.subrange(0, j as int), k).len() > 0,
                forall|k: u64| positions@.contains_key(k) ==> (#[trigger] positions@[k])@ == positions_of(
                    keys@.subrange(0, j as int),
                    k,
                ),
            decreases keys.len() - j,
        {
            proof {
                assert forall|k: u64| true implies positions_of(keys@.subrange(0, j + 1), k) == positions_of(
                    keys@.subrange(0, j as int),
                    k,
                ) + if keys@[j as int] == Some(k) { seq![j as usize] } else { Seq::<usize>::empty() } by {
                    lemma_counts_step(keys@, j as int, k);
                }
            }
            if let Some(k) = keys[j] {
                let mut group: Vec<usize> = match positions.remove(&k) {
                    Some(g) => g,
                    None => Vec::new(),
                };
                group.push(j);
                positions.insert(k, group);
            }
            j += 1;
        }
        assert(keys@.subrange(0, keys@.len() as int) =~= keys@);
        KeyIndex { positions, keys: Ghost(keys@) }
    }

    /// The positions of the records whose key is `key`, in table order;
    /// none for an absent key.
    pub fn matches(&self, key: Option<u64>) -> (r: Vec<usize>)
        ensures
            r@ == match key {
                Some(k) => positions_of(self.keys(), k),
                None => Seq::empty(),
            },
    {
        proof {
            use_type_invariant(self);
        }
        match key {
            Some(k) => match self.positions.get(&k) {
                Some(group) => group.clone(),
                None => Vec::new(),
            },
            None => Vec::new(),
        }
    }
}

/// The rows that one driving record yields, given the positions of the
/// records of the other table that share its key. The left table drives
/// every join but a right join, which the right table drives; the rows are
/// (left position, right position) pairs, a side being absent where the
/// join keeps an unmatched record.
pub open spec fn driving_rows_of(kind: JoinType, position: usize, matches: Seq<usize>) -> Seq<(Option<usize>, Option<usize>)> {
    match kind {
        JoinType::Right => if matches.len() == 0 {
            seq![(None, Some(position))]
        } else {
            matches.map_values(|m: usize| (Some(m), Some(position)))
        },
        JoinType::Semi => if matches.len() == 0 {
            Seq::empty()
        } else {
            seq![(Some(position), None)]
        },
        JoinType::Anti => if matches.len() == 0 {
            seq![(Some(position), None)]
        } else {
            Seq::empty()
        },
        JoinType::Inner => matches.map_values(|m: usize| (Some(position), Some(m))),
        _ => if matches.len() == 0 {
            seq![(Some(position), None)]
        } else {
            matches.map_values(|m: usize| (Some(position), Some(m)))
        },
    }
}

/// The rows that one driving record yields in a join of the given kind.
pub fn driving_rows(kind: JoinType, position: usize, matches: &Vec<usize>) -> (r: Vec<(Option<usize>, Option<usize>)>)
    ensures
        r@ == driving_rows_of(kind, position, matches@),
{
    let mut rows: Vec<(Option<usize>, Option<usize>)> = Vec::new();
    if matches.len() == 0 {
        match kind {
            JoinType::Right => rows.push((None, Some(position))),
            JoinType::Inner | JoinType::Semi => {},
            _ => rows.push((Some(position), None)),
        }
        return rows;
    }
    match kind {
        JoinType::Semi => {
            rows.push((Some(position), None));
            return rows;
        },
        JoinType::Anti => {
            return rows;
        },
        _ => {},
    }
    let mut i: usize = 0;
    while i < matches.len()
        invariant
            kind != JoinType::Semi && kind != JoinType::Anti,
            i <= matches@.len(),
            rows@ == matches@.subrange(0, i as int).map_values(
                |m: usize| if kind == JoinType::Right { (Some(m), Some(position)) } else { (Some(position), Some(m)) },
            ),
        decreases matches.len() - i,
    {
        let m = matches[i];
        if kind == JoinType::Right {
            rows.push((Some(m), Some(position)));
        } else {
            rows.push((Some(position), Some(m)));
        }
        assert(matches@.subrange(0, i + 1) =~= matches@.subrange(0, i as int).push(m));
        i += 1;
    }
    assert(matches@.subrange(0, matches@.len() as int) =~= matches@);
    proof {
        if kind == JoinType::Right {
            assert(rows@ =~= matches@.map_values(|m: usize| (Some(m), Some(position))));
        } else {
            assert(rows@ =~= matches@.map_values(|m: usize| (Some(position), Some(m))));
        }
    }
    rows
}

/// The positions of the records of `keys` that match no record of the
/// table that `other` groups: the rows that a full join keeps on its own.
pub fn unmatched_positions(keys: &Vec<Option<u64>>, other: &KeyIndex) -> (r: Vec<usize>)
    ensures
        forall|i: int| 0 <= i < r@.len() ==> (#[trigger] r@[i]) < keys@.len() && match_count(keys@[r@[i] as int], other.keys()) == 0,
        forall|i: int, j: int| 0 <= i < j < r@.len() ==> r@[i] < r@[j],
        forall|p: int| 0 <= p < keys@.len() && match_count(#[trigger] keys@[p], other.keys()) == 0 ==> r@.contains(p as usize),
{
    let mut out: Vec<usize> = Vec::new();
    let mut j: usize = 0;
    while j < keys.len()
        invariant
            j <= keys@.len(),
            forall|i: int| 0 <= i < out@.len() ==> (#[trigger] out@[i]) < j && match_count(keys@[out@[i] as int], other.keys()) == 0,
            forall|i: int, l: int| 0 <= i < l < out@.len() ==> out@[i] < out@[l],
            forall|p: int| 0 <= p < j && match_count(#[trigger] keys@[p], other.keys()) == 0 ==> out@.contains(p as usize),
        decreases keys.len() - j,
    {
        let found = other.matches(keys[j]);
        proof {
            if let Some(k) = keys@[j as int] {
                lemma_count_bound(other.keys(), k);
            }
        }
        if found.len() == 0 {
            let ghost before = out@;
            out.push(j);
            assert(out@[out@.len() - 1] == j);
            assert forall|p: int| 0 <= p < j + 1 && match_count(#[trigger] keys@[p], other.keys()) == 0 implies out@.contains(p as usize) by {
                if p < j {
                    let w = choose|w: int| 0 <= w < before.len() && before[w] == p as usize;
                    assert(out@[w] == p as usize);
                } else {
                    assert(out@[out@.len() - 1] == p as usize);
                }
            }
        }
        j += 1;
    }
    out
}

/// The candidate pairs of a cross join, within the row limit.
pub fn cross_pair_count(left_count: usize, right_count: usize) -> (r: Result<usize, JoinError>)
    ensures
        left_count * right_count > usize::MAX ==> r == Err::<usize, JoinError>(JoinError::Invalid(JoinProblem::CrossPairOverflow)),
        left_count * right_count <= usize::MAX && left_count * right_count > MAX_JOIN_ROWS ==> r == Err::<usize, JoinError>(
            JoinError::Invalid(JoinProblem::CrossPairsExceedLimit),
        ),
        left_count * right_count <= MAX_JOIN_ROWS ==> r == Ok::<usize, JoinError>((left_count * right_count) as usize),
{
    let pairs = match left_count.checked_mul(right_count) {
        Some(p) => p,
        None => {
            return Err(JoinError::Invalid(JoinProblem::CrossPairOverflow));
        },
    };
    if pairs > MAX_JOIN_ROWS {
        return Err(JoinError::Invalid(JoinProblem::CrossPairsExceedLimit));
    }
    Ok(pairs)
}

/// Refuses one more output row once the join result holds the most rows allowed.
pub fn check_output_room(rows: usize) -> (r: Result<(), JoinError>)
    ensures
        rows >= MAX_JOIN_ROWS ==> r == Err::<(), JoinError>(JoinError::Invalid(JoinProblem::ResultTooLarge)),
        rows < MAX_JOIN_ROWS ==> r is Ok,
{
    if rows >= MAX_JOIN_ROWS {
        return Err(JoinError::Invalid(JoinProblem::ResultTooLarge));
    }
    Ok(())
}

/// Whole pages of `page_size` bytes that `bytes` take, at least one.
pub open spec fn pages_of(bytes: usize, page_size: usize) -> usize {
    let pages: int = if bytes % page_size == 0 { (bytes / page_size) as int } else { bytes / page_size + 1 };
    if pages < 1 { 1 } else { pages as usize }
}

/// The logical pages read to scan a table file of `byte_len` bytes.
pub fn logical_page_reads(byte_len: usize, page_size: usize) -> (r: usize)
    requires
        page_size > 0,
    ensures
        r == pages_of(byte_len, page_size),
{
    let whole = byte_len / page_size;
    if byte_len % page_size != 0 {
        assert(whole < usize::MAX) by (nonlinear_arith)
            requires
                byte_len % page_size != 0,
                page_size > 0,
                whole == byte_len / page_size,
                byte_len <= usize::MAX,
        {
            if page_size == 1 {
                assert(byte_len % 1 == 0);
            }
        }
    }
    let pages = if byte_len % page_size == 0 { whole } else { whole + 1 };
    if pages < 1 { 1 } else { pages }
}

/// The summed byte length of rows, clamped to `usize::MAX`.
pub open spec fn total_bytes(rows: Seq<usize>) -> usize
    decreases rows.len(),
{
    if rows.len() == 0 {
        0
    } else {
        sat_add(total_bytes(rows.drop_last()), rows.last())
    }
}

/// The logical pages that materialized join rows take, from the byte
/// lengths of their JSON encodings.
pub fn materialized_page_reads(row_bytes: &Vec<usize>, page_size: usize) -> (r: usize)
    requires
        page_size > 0,
    ensures
        r == pages_of(total_bytes(row_bytes@), page_size),
{
    let mut total: usize = 0;
    let mut i: usize = 0;
    while i < row_bytes.len()
        invariant
            i <= row_bytes@.len(),
            total == total_bytes(row_bytes@.subrange(0, i as int)),
        decreases row_bytes.len() - i,
    {
        assert(row_bytes@.subrange(0, i + 1).drop_last() =~= row_bytes@.subrange(0, i as int));
        total = total.saturating_add(row_bytes[i]);
        i += 1;
    }
    assert(row_bytes@.subrange(0, row_bytes@.len() as int) =~= row_bytes@);
    logical_page_reads(total, page_size)
}

/// The widest row, by column count; zero without rows.
pub open spec fn widest(widths: Seq<usize>) -> usize
    decreases widths.len(),
{
    if widths.len() == 0 {
        0
    } else if widths.last() > widest(widths.drop_last()) {
        widths.last()
    } else {
        widest(widths.drop_last())
    }
}

fn widest_of(widths: &Vec<usize>) -> (r: usize)
    ensures
        r == widest(widths@),
{
    let mut best: usize = 0;
    let mut i: usize = 0;
    while i < widths.len()
        invariant
            i <= widths@.len(),
            best == widest(widths@.subrange(0, i as int)),
        decreases widths.len() - i,
    {
        assert(widths@.subrange(0, i + 1).drop_last() =~= widths@.subrange(0, i as int));
        if widths[i] > best {
            best = widths[i];
        }
        i += 1;
    }
    assert(widths@.subrange(0, widths@.len() as int) =~= widths@);
    best
}

/// The output columns of a join stage, at least one: the widest left row,
/// plus the widest right row unless the join keeps left rows only.
pub open spec fn output_columns_of(left: Seq<usize>, right: Seq<usize>, kind: JoinType) -> usize {
    let columns = if kind == JoinType::Semi || kind == JoinType::Anti {
        widest(left)
    } else {
        sat_add(widest(left), widest(right))
    };
    if columns < 1 { 1 } else { columns }
}

/// The output columns of a join stage from the column counts of its rows.
pub fn output_columns(left_widths: &Vec<usize>, right_widths: &Vec<usize>, kind: JoinType) -> (r: usize)
    ensures
        r == output_columns_of(left_widths@, right_widths@, kind),
{
    let left = widest_of(left_widths);
    let columns = if kind == JoinType::Semi || kind == JoinType::Anti {
        left
    } else {
        left.saturating_add(widest_of(right_widths))
    };
    if columns < 1 { 1 } else { columns }
}

} // verus!
