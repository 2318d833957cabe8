//! Join rows produced one at a time, over join keys.
//!
//! As in `join_plan`, a record's join key is an integer that is equal exactly
//! when the keys are, absent where a key field is missing or null. A row is a
//! pair of record positions (left, right), a side being absent where the join
//! keeps an unmatched record.
use vstd::prelude::*;
use std::collections::HashMap;
use super::join::{JoinError, JoinProblem, JoinType, MAX_JOIN_ROWS};
use super::join_plan::{
    count_key, positions_of, match_count, driving_rows_of, driving_rows, lemma_counts_step, lemma_count_bound,
    cross_pair_count, KeyIndex,
};
use super::join_merge::{check_merge_kind, last_position, lemma_last_position_bound};
use crate::join_strategy::JoinStrategy;

verus! {

broadcast use vstd::std_specs::hash::group_hash_axioms;

/// The positions of the records of `keys` that carry `key`; none for an
/// absent key.
pub open spec fn key_matches(key: Option<u64>, keys: Seq<Option<u64>>) -> Seq<usize> {
    match key {
        Some(k) => positions_of(keys, k),
        None => Seq::empty(),
    }
}

/// The rows that driving record `i` yields in a nested-loop join: every
/// record of the other side for a cross join, else the rows of its key
/// matches.
pub open spec fn nested_driver_rows(
    kind: JoinType,
    driver: Seq<Option<u64>>,
    other: Seq<Option<u64>>,
    i: int,
) -> Seq<(Option<usize>, Option<usize>)> {
    if kind == JoinType::Cross {
        Seq::new(other.len(), |j: int| (Some(i as usize), Some(j as usize)))
    } else {
        driving_rows_of(kind, i as usize, key_matches(driver[i], other))
    }
}

/// The rows of the first `n` driving records, in order.
pub open spec fn driven_rows(
    kind: JoinType,
    driver: Seq<Option<u64>>,
    other: Seq<Option<u64>>,
    n: nat,
) -> Seq<(Option<usize>, Option<usize>)>
    decreases n,
{
    if n == 0 {
        Seq::empty()
    } else {
        driven_rows(kind, driver, other, (n - 1) as nat) + nested_driver_rows(kind, driver, other, n - 1)
    }
}

/// The rows of the first `n` right records that match no left record.
pub open spec fn unmatched_right_rows(
    left: Seq<Option<u64>>,
    right: Seq<Option<u64>>,
    n: nat,
) -> Seq<(Option<usize>, Option<usize>)>
    decreases n,
{
    if n == 0 {
        Seq::empty()
    } else {
        unmatched_right_rows(left, right, (n - 1) as nat) + if match_count(right[n - 1], left) == 0 {
            seq![(None, Some((n - 1) as usize))]
        } else {
            Seq::empty()
        }
    }
}

/// Every row of a nested-loop join of `left` with `right`, in the order in
/// which it is produced: the right side drives a right join and the left side
/// every other; a full join ends with the unmatched right records.
pub open spec fn nested_rows(
    kind: JoinType,
    left: Seq<Option<u64>>,
    right: Seq<Option<u64>>,
) -> Seq<(Option<usize>, Option<usize>)> {
    match kind {
        JoinType::Right => driven_rows(kind, right, left, right.len()),
        JoinType::Full => driven_rows(kind, left, right, left.len()) + unmatched_right_rows(
            left,
            right,
            right.len(),
        ),
        _ => driven_rows(kind, left, right, left.len()),
    }
}

pub(crate) proof fn lemma_driven_prefix(
    kind: JoinType,
    driver: Seq<Option<u64>>,
    other: Seq<Option<u64>>,
    n: nat,
    m: nat,
)
    requires
        n <= m,
    ensures
        driven_rows(kind, driver, other, n).len() <= driven_rows(kind, driver, other, m).len(),
        driven_rows(kind, driver, other, m).subrange(0, driven_rows(kind, driver, other, n).len() as int)
            == driven_rows(kind, driver, other, n),
    decreases m,
{
    if n < m {
        lemma_driven_prefix(kind, driver, other, n, (m - 1) as nat);
        let a = driven_rows(kind, driver, other, (m - 1) as nat);
        let b = nested_driver_rows(kind, driver, other, m - 1);
        let p = driven_rows(kind, driver, other, n);
        assert((a + b).subrange(0, p.len() as int) =~= a.subrange(0, p.len() as int));
    } else {
        let p = driven_rows(kind, driver, other, n);
        assert(p.subrange(0, p.len() as int) =~= p);
    }
}

pub(crate) proof fn lemma_unmatched_prefix(left: Seq<Option<u64>>, right: Seq<Option<u64>>, n: nat, m: nat)
    requires
        n <= m,
    ensures
        unmatched_right_rows(left, right, n).len() <= unmatched_right_rows(left, right, m).len(),
        unmatched_right_rows(left, right, m).subrange(0, unmatched_right_rows(left, right, n).len() as int)
            == unmatched_right_rows(left, right, n),
    decreases m,
{
    if n < m {
        lemma_unmatched_prefix(left, right, n, (m - 1) as nat);
        let a = unmatched_right_rows(left, right, (m - 1) as nat);
        let p = unmatched_right_rows(left, right, n);
        let b = if match_count(right[m - 1], left) == 0 {
            seq![(None, Some((m - 1) as usize))]
        } else {
            Seq::<(Option<usize>, Option<usize>)>::empty()
        };
        assert((a + b).subrange(0, p.len() as int) =~= a.subrange(0, p.len() as int));
    } else {
        let p = unmatched_right_rows(left, right, n);
        assert(p.subrange(0, p.len() as int) =~= p);
    }
}

/// The positions of the records of `keys` that carry `key`.
pub fn matching_positions(key: Option<u64>, keys: &Vec<Option<u64>>) -> (r: Vec<usize>)
    ensures
        r@ == key_matches(key, keys@),
{
    let mut found: Vec<usize> = Vec::new();
    let k = match key {
        Some(k) => k,
        None => return found,
    };
    let mut j: usize = 0;
    while j < keys.len()
        invariant
            j <= keys@.len(),
            found@ == positions_of(keys@.subrange(0, j as int), k),
        decreases keys.len() - j,
    {
        proof {
            lemma_counts_step(keys@, j as int, k);
        }
        if keys[j] == Some(k) {
            found.push(j);
        }
        j += 1;
    }
    assert(keys@.subrange(0, keys@.len() as int) =~= keys@);
    found
}

/// Whether a record with key `key` matches any record of `keys`.
pub fn has_match(key: Option<u64>, keys: &Vec<Option<u64>>) -> (r: bool)
    ensures
        r == (match_count(key, keys@) > 0),
{
    let k = match key {
        Some(k) => k,
        None => return false,
    };
    let mut j: usize = 0;
    while j < keys.len()
        invariant
            j <= keys@.len(),
            key == Some(k),
            count_key(keys@.subrange(0, j as int), k) == 0,
        decreases keys.len() - j,
    {
        proof {
            lemma_counts_step(keys@, j as int, k);
        }
        if keys[j] == Some(k) {
            proof {
                lemma_counts_step(keys@, j as int, k);
                lemma_count_prefix(keys@, j + 1, k);
            }
            return true;
        }
        j += 1;
    }
    assert(keys@.subrange(0, keys@.len() as int) =~= keys@);
    false
}

proof fn lemma_count_prefix(keys: Seq<Option<u64>>, n: int, k: u64)
    requires
        0 <= n <= keys.len(),
    ensures
        count_key(keys.subrange(0, n), k) <= count_key(keys, k),
    decreases keys.len() - n,
{
    if n < keys.len() {
        lemma_counts_step(keys, n, k);
        lemma_count_prefix(keys, n + 1, k);
    } else {
        assert(keys.subrange(0, n) =~= keys);
    }
}

/// A nested-loop join that yields its rows one at a time, keeping at most the
/// rows of one driving record at once.
pub struct NestedJoinRows {
    left: Vec<Option<u64>>,
    right: Vec<Option<u64>>,
    kind: JoinType,
    driver: usize,
    pending: Vec<(Option<usize>, Option<usize>)>,
    pending_position: usize,
    tail_position: usize,
}

impl NestedJoinRows {
    /// The keys of the side that drives the join.
    pub closed spec fn drivers(&self) -> Seq<Option<u64>> {
        if self.kind == JoinType::Right {
            self.right@
        } else {
            self.left@
        }
    }

    /// The keys of the side that the driving records are matched against.
    pub closed spec fn others(&self) -> Seq<Option<u64>> {
        if self.kind == JoinType::Right {
            self.left@
        } else {
            self.right@
        }
    }

    /// Every row of this join, in order.
    pub closed spec fn rows(&self) -> Seq<(Option<usize>, Option<usize>)> {
        nested_rows(self.kind, self.left@, self.right@)
    }

    /// How many rows have been yielded so far.
    pub closed spec fn emitted(&self) -> int {
        (if self.driver == 0 {
            0
        } else {
            driven_rows(self.kind, self.drivers(), self.others(), (self.driver - 1) as nat).len() as int
        }) + self.pending_position + if self.kind == JoinType::Full {
            unmatched_right_rows(self.left@, self.right@, self.tail_position as nat).len() as int
        } else {
            0
        }
    }

    /// The stream's internal consistency, which every operation keeps.
    pub closed spec fn wf(&self) -> bool {
        &&& self.driver <= self.drivers().len()
        &&& self.pending@ == if self.driver == 0 {
            Seq::empty()
        } else {
            nested_driver_rows(self.kind, self.drivers(), self.others(), self.driver - 1)
        }
        &&& self.pending_position <= self.pending@.len()
        &&& self.tail_position <= self.right@.len()
        &&& self.tail_position > 0 ==> {
            &&& self.kind == JoinType::Full
            &&& self.driver == self.drivers().len()
            &&& self.pending_position == self.pending@.len()
        }
    }

    /// Starts a nested-loop join of `left` with `right`. A cross join whose
    /// candidate pairs overflow or exceed the row limit is refused.
    pub fn new(left: Vec<Option<u64>>, right: Vec<Option<u64>>, kind: JoinType) -> (r: Result<
        NestedJoinRows,
        JoinError,
    >)
        ensures
            match r {
                Ok(s) => {
                    &&& !(kind == JoinType::Cross && left@.len() * right@.len() > MAX_JOIN_ROWS)
                    &&& s.wf()
                    &&& s.rows() == nested_rows(kind, left@, right@)
                    &&& s.emitted() == 0
                },
                Err(e) => kind == JoinType::Cross && left@.len() * right@.len() > MAX_JOIN_ROWS && e
                    == JoinError::Invalid(JoinProblem::CrossPairsExceedLimit),
            },
    {
        if kind == JoinType::Cross {
            let too_many = match left.len().checked_mul(right.len()) {
                Some(pairs) => pairs > MAX_JOIN_ROWS,
                None => true,
            };
            if too_many {
                return Err(JoinError::Invalid(JoinProblem::CrossPairsExceedLimit));
            }
        }
        Ok(NestedJoinRows {
            left,
            right,
            kind,
            driver: 0,
            pending: Vec::new(),
            pending_position: 0,
            tail_position: 0,
        })
    }

    fn driver_rows(&self, i: usize) -> (r: Vec<(Option<usize>, Option<usize>)>)
        requires
            i < self.drivers().len(),
        ensures
            r@ == nested_driver_rows(self.kind, self.drivers(), self.others(), i as int),
    {
        let (driver, other) = if self.kind == JoinType::Right {
            (&self.right, &self.left)
        } else {
            (&self.left, &self.right)
        };
        if self.kind == JoinType::Cross {
            let mut rows: Vec<(Option<usize>, Option<usize>)> = Vec::new();
            let mut j: usize = 0;
            while j < other.len()
                invariant
                    j <= other@.len(),
                    rows@ =~= Seq::new(j as nat, |t: int| (Some(i), Some(t as usize))),
                decreases other.len() - j,
            {
                rows.push((Some(i), Some(j)));
                j += 1;
            }
            rows
        } else {
            let matches = matching_positions(driver[i], other);
            driving_rows(self.kind, i, &matches)
        }
    }

    /// Yields the next row of the join, or nothing once every row has been
    /// yielded.
    pub fn next_row(&mut self) -> (r: Option<(Option<usize>, Option<usize>)>)
        requires
            old(self).wf(),
        ensures
            final(self).wf(),
            final(self).rows() == old(self).rows(),
            0 <= old(self).emitted() <= old(self).rows().len(),
            0 <= final(self).emitted() <= final(self).rows().len(),
            old(self).emitted() < old(self).rows().len() ==> {
                &&& r == Some(old(self).rows()[old(self).emitted()])
                &&& final(self).emitted() == old(self).emitted() + 1
            },
            old(self).emitted() == old(self).rows().len() ==> r is None && final(self).emitted()
                == old(self).emitted(),
    {
        let ghost start = self.emitted();
        proof {
            self.lemma_emitted_bound();
        }
        let count = if self.kind == JoinType::Right {
            self.right.len()
        } else {
            self.left.len()
        };
        while self.pending_position == self.pending.len() && self.driver < count
            invariant
                self.wf(),
                count == self.drivers().len(),
                self.rows() == old(self).rows(),
                self.emitted() == start,
                start == old(self).emitted(),
            decreases count - self.driver,
        {
            let rows = self.driver_rows(self.driver);
            proof {
                if self.driver > 0 {
                    assert(driven_rows(self.kind, self.drivers(), self.others(), self.driver as nat)
                        == driven_rows(self.kind, self.drivers(), self.others(), (self.driver - 1) as nat)
                        + self.pending@);
                }
            }
            self.pending = rows;
            self.pending_position = 0;
            self.driver = self.driver + 1;
        }
        proof {
            self.lemma_emitted_bound();
        }
        if self.pending_position < self.pending.len() {
            let row = self.pending[self.pending_position];
            proof {
                self.lemma_pending_row();
            }
            self.pending_position = self.pending_position + 1;
            return Some(row);
        }
        if self.kind == JoinType::Full {
            while self.tail_position < self.right.len()
                invariant
                    self.wf(),
                    self.kind == JoinType::Full,
                    self.driver == self.drivers().len(),
                    self.pending_position == self.pending@.len(),
                    self.rows() == old(self).rows(),
                    self.emitted() == start,
                    start == old(self).emitted(),
                decreases self.right.len() - self.tail_position,
            {
                let j = self.tail_position;
                let matched = has_match(self.right[j], &self.left);
                proof {
                    self.lemma_tail_row();
                }
                self.tail_position = j + 1;
                if !matched {
                    return Some((None, Some(j)));
                }
            }
        }
        proof {
            self.lemma_finished();
        }
        None
    }

    proof fn lemma_emitted_bound(&self)
        requires
            self.wf(),
        ensures
            0 <= self.emitted() <= self.rows().len(),
    {
        let d = self.drivers();
        let o = self.others();
        let n = d.len();
        lemma_driven_prefix(self.kind, d, o, self.driver as nat, n);
        if self.driver > 0 {
            assert(driven_rows(self.kind, d, o, self.driver as nat) == driven_rows(
                self.kind,
                d,
                o,
                (self.driver - 1) as nat,
            ) + self.pending@);
        }
        if self.kind == JoinType::Full {
            lemma_unmatched_prefix(self.left@, self.right@, self.tail_position as nat, self.right@.len());
        }
    }

    proof fn lemma_pending_row(&self)
        requires
            self.wf(),
            self.pending_position < self.pending@.len(),
        ensures
            self.emitted() < self.rows().len(),
            self.rows()[self.emitted()] == self.pending@[self.pending_position as int],
    {
        let d = self.drivers();
        let o = self.others();
        let n = d.len();
        let before = driven_rows(self.kind, d, o, (self.driver - 1) as nat);
        let through = driven_rows(self.kind, d, o, self.driver as nat);
        assert(through == before + self.pending@);
        lemma_driven_prefix(self.kind, d, o, self.driver as nat, n);
        let all = driven_rows(self.kind, d, o, n);
        assert(all.subrange(0, through.len() as int)[before.len() + self.pending_position]
            == through[before.len() + self.pending_position]);
        if self.kind == JoinType::Full {
            let tail = unmatched_right_rows(self.left@, self.right@, self.right@.len());
            assert((all + tail)[before.len() + self.pending_position] == all[before.len() + self.pending_position]);
        }
    }

    proof fn lemma_tail_row(&self)
        requires
            self.wf(),
            self.kind == JoinType::Full,
            self.driver == self.drivers().len(),
            self.pending_position == self.pending@.len(),
            self.tail_position < self.right@.len(),
        ensures
            ({
                let j = self.tail_position as int;
                let next = unmatched_right_rows(self.left@, self.right@, (j + 1) as nat);
                let now = unmatched_right_rows(self.left@, self.right@, j as nat);
                &&& match_count(self.right@[j], self.left@) == 0 ==> {
                    &&& next.len() == now.len() + 1
                    &&& self.emitted() < self.rows().len()
                    &&& self.rows()[self.emitted()] == (None::<usize>, Some(j as usize))
                }
                &&& match_count(self.right@[j], self.left@) != 0 ==> next == now
            }),
    {
        let j = self.tail_position as int;
        let d = self.drivers();
        let o = self.others();
        let n = d.len();
        let all = driven_rows(self.kind, d, o, n);
        if self.driver > 0 {
            assert(all == driven_rows(self.kind, d, o, (self.driver - 1) as nat) + self.pending@);
        }
        assert(self.emitted() - all.len() == unmatched_right_rows(self.left@, self.right@, j as nat).len());
        let tail = unmatched_right_rows(self.left@, self.right@, self.right@.len());
        let next = unmatched_right_rows(self.left@, self.right@, (j + 1) as nat);
        let now = unmatched_right_rows(self.left@, self.right@, j as nat);
        lemma_unmatched_prefix(self.left@, self.right@, (j + 1) as nat, self.right@.len());
        if match_count(self.right@[j], self.left@) == 0 {
            assert(next[now.len() as int] == (None::<usize>, Some(j as usize)));
            assert(tail.subrange(0, next.len() as int)[now.len() as int] == next[now.len() as int]);
            assert((all + tail)[(all.len() + now.len()) as int] == tail[now.len() as int]);
        } else {
            assert(next =~= now);
        }
    }

    proof fn lemma_finished(&self)
        requires
            self.wf(),
            self.driver == self.drivers().len(),
            self.pending_position == self.pending@.len(),
            self.kind == JoinType::Full ==> self.tail_position == self.right@.len(),
        ensures
            self.emitted() == self.rows().len(),
    {
        let d = self.drivers();
        let o = self.others();
        if self.driver > 0 {
            assert(driven_rows(self.kind, d, o, self.driver as nat) == driven_rows(
                self.kind,
                d,
                o,
                (self.driver - 1) as nat,
            ) + self.pending@);
        }
    }
}

/// What an index join asks for, or yields, next.
#[derive(Debug, Clone, Copy, PartialEq, Eq, Structural)]
pub enum IndexJoinStep {
    /// Look up in the joined table's index the records whose key is the key
    /// of the left record at this position, and answer with
    /// `IndexJoinRows::probe_answered`.
    Probe(usize),
    /// A row: the positions of a left record and of its matching right
    /// record, if any.
    Row(Option<usize>, Option<usize>),
    /// Every row has been yielded.
    Done,
}

/// Whether an index join can run a join of this kind: the left side drives
/// it, so right, full and cross joins are out.
pub open spec fn index_join_kind(kind: JoinType) -> bool {
    kind == JoinType::Inner || kind == JoinType::Left || kind == JoinType::Semi || kind == JoinType::Anti
}

/// Whether an index join can run a join of this kind.
pub fn index_join_supports(kind: JoinType) -> (r: bool)
    ensures
        r == index_join_kind(kind),
{
    match kind {
        JoinType::Inner | JoinType::Left | JoinType::Semi | JoinType::Anti => true,
        _ => false,
    }
}

/// The step that follows once the left record at `position` is done: a probe
/// for the next left record, or the end.
pub open spec fn after_left(position: usize, left_count: usize) -> IndexJoinStep {
    if position + 1 >= left_count {
        IndexJoinStep::Done
    } else {
        IndexJoinStep::Probe((position + 1) as usize)
    }
}

/// A join driven by the left records that finds the matching right records
/// through an index on the joined table. The index lookups are the caller's:
/// the join asks for each with `IndexJoinStep::Probe` and is answered with the
/// record numbers found, which it maps to positions among the right records.
pub struct IndexJoinRows {
    left_count: usize,
    kind: JoinType,
    by_number: HashMap<usize, usize>,
    numbers: Ghost<Seq<usize>>,
    left_position: usize,
    match_position: usize,
    current_matches: Vec<usize>,
    left_started: bool,
}

impl IndexJoinRows {
    /// The number of left records.
    pub closed spec fn left_count(&self) -> usize {
        self.left_count
    }

    /// The kind of join.
    pub closed spec fn kind(&self) -> JoinType {
        self.kind
    }

    /// The record numbers of the right records, in position order.
    pub closed spec fn numbers(&self) -> Seq<usize> {
        self.numbers@
    }

    /// The position of the left record being joined.
    pub closed spec fn left_position(&self) -> usize {
        self.left_position
    }

    /// Whether the current left record has been probed.
    pub closed spec fn started(&self) -> bool {
        self.left_started
    }

    /// The record numbers that the probe of the current left record found.
    pub closed spec fn current(&self) -> Seq<usize> {
        self.current_matches@
    }

    /// How many of those numbers have been taken.
    pub closed spec fn taken(&self) -> usize {
        self.match_position
    }

    /// The join's internal consistency, which every operation keeps.
    pub closed spec fn wf(&self) -> bool {
        &&& index_join_kind(self.kind)
        &&& self.left_position <= self.left_count
        &&& self.left_started ==> self.left_position < self.left_count
        &&& !self.left_started ==> self.current_matches@.len() == 0 && self.match_position == 0
        &&& self.numbers@.len() <= usize::MAX
        &&& forall|n: usize| #[trigger] self.by_number@.contains_key(n) <==> last_position(self.numbers@, n) is Some
        &&& forall|n: usize| self.by_number@.contains_key(n) ==> Some(#[trigger] self.by_number@[n]) == last_position(self.numbers@, n)
    }

    /// Starts an index join of `left_count` left records with the right
    /// records whose record numbers are `right_numbers`; `right_count` is the
    /// number of right records loaded, which must match.
    pub fn new(left_count: usize, right_count: usize, right_numbers: Vec<usize>, kind: JoinType) -> (r: Result<
        IndexJoinRows,
        JoinError,
    >)
        requires
            index_join_kind(kind),
        ensures
            right_count != right_numbers@.len() <==> r == Err::<IndexJoinRows, JoinError>(
                JoinError::Invalid(JoinProblem::IndexRowsMismatch),
            ),
            r matches Ok(s) ==> {
                &&& s.wf()
                &&& s.left_count() == left_count
                &&& s.kind() == kind
                &&& s.numbers() == right_numbers@
                &&& s.left_position() == 0
                &&& !s.started()
            },
    {
        if right_count != right_numbers.len() {
            return Err(JoinError::Invalid(JoinProblem::IndexRowsMismatch));
        }
        let mut by_number: HashMap<usize, usize> = HashMap::new();
        let mut p: usize = 0;
        while p < right_numbers.len()
            invariant
                p <= right_numbers@.len(),
                forall|n: usize| #[trigger] by_number@.contains_key(n) <==> last_position(
                    right_numbers@.subrange(0, p as int),
                    n,
                ) is Some,
                forall|n: usize| by_number@.contains_key(n) ==> Some(#[trigger] by_number@[n]) == last_position(
                    right_numbers@.subrange(0, p as int),
                    n,
                ),
            decreases right_numbers.len() - p,
        {
            proof {
                assert(right_numbers@.subrange(0, p + 1).drop_last() =~= right_numbers@.subrange(0, p as int));
            }
            by_number.insert(right_numbers[p], p);
            p += 1;
        }
        assert(right_numbers@.subrange(0, right_numbers@.len() as int) =~= right_numbers@);
        Ok(IndexJoinRows {
            left_count,
            kind,
            by_number,
            numbers: Ghost(right_numbers@),
            left_position: 0,
            match_position: 0,
            current_matches: Vec::new(),
            left_started: false,
        })
    }

    /// Answers the probe of the current left record with the record numbers
    /// of the right records that share its key; none where its key is
    /// absent.
    pub fn probe_answered(&mut self, matches: Vec<usize>)
        requires
            old(self).wf(),
            !old(self).started(),
            old(self).left_position() < old(self).left_count(),
        ensures
            final(self).wf(),
            final(self).started(),
            final(self).current() == matches@,
            final(self).taken() == 0,
            final(self).left_position() == old(self).left_position(),
            final(self).left_count() == old(self).left_count(),
            final(self).kind() == old(self).kind(),
            final(self).numbers() == old(self).numbers(),
    {
        self.current_matches = matches;
        self.match_position = 0;
        self.left_started = true;
    }

    fn advance_left(&mut self)
        requires
            old(self).wf(),
            old(self).started(),
        ensures
            final(self).wf(),
            !final(self).started(),
            final(self).left_position() == old(self).left_position() + 1,
            final(self).left_count() == old(self).left_count(),
            final(self).kind() == old(self).kind(),
            final(self).numbers() == old(self).numbers(),
    {
        self.left_position = self.left_position + 1;
        self.match_position = 0;
        self.current_matches = Vec::new();
        self.left_started = false;
    }

    /// The next step of the join. A semi join yields each left record with a
    /// match, an anti join each without; an inner join yields a row for
    /// each record number found, in the order found, a left join too and a
    /// lone left row where nothing was found. A record number that no right
    /// record carries is an error.
    pub fn next_step(&mut self) -> (r: Result<IndexJoinStep, JoinError>)
        requires
            old(self).wf(),
        ensures
            final(self).wf(),
            final(self).left_count() == old(self).left_count(),
            final(self).kind() == old(self).kind(),
            final(self).numbers() == old(self).numbers(),
            ({
                let lp = old(self).left_position();
                let cur = old(self).current();
                let mp = old(self).taken();
                let kind = old(self).kind();
                let advanced = !final(self).started() && final(self).left_position() == lp + 1;
                let next = after_left(lp, old(self).left_count());
                if lp >= old(self).left_count() {
                    r == Ok::<IndexJoinStep, JoinError>(IndexJoinStep::Done) && *final(self) == *old(self)
                } else if !old(self).started() {
                    r == Ok::<IndexJoinStep, JoinError>(IndexJoinStep::Probe(lp)) && *final(self) == *old(self)
                } else if kind == JoinType::Semi || kind == JoinType::Anti {
                    &&& advanced
                    &&& r == Ok::<IndexJoinStep, JoinError>(
                        if (cur.len() > 0) == (kind == JoinType::Semi) {
                            IndexJoinStep::Row(Some(lp), None)
                        } else {
                            next
                        },
                    )
                } else if mp < cur.len() {
                    &&& final(self).started()
                    &&& final(self).left_position() == lp
                    &&& final(self).current() == cur
                    &&& final(self).taken() == mp + 1
                    &&& r == match last_position(old(self).numbers(), cur[mp as int]) {
                        Some(p) => Ok::<IndexJoinStep, JoinError>(IndexJoinStep::Row(Some(lp), Some(p))),
                        None => Err(JoinError::Invalid(JoinProblem::MissingIndexedRecord(cur[mp as int]))),
                    }
                } else {
                    &&& advanced
                    &&& r == Ok::<IndexJoinStep, JoinError>(
                        if kind == JoinType::Left && cur.len() == 0 {
                            IndexJoinStep::Row(Some(lp), None)
                        } else {
                            next
                        },
                    )
                }
            }),
    {
        let lp = self.left_position;
        if lp >= self.left_count {
            return Ok(IndexJoinStep::Done);
        }
        if !self.left_started {
            return Ok(IndexJoinStep::Probe(lp));
        }
        let next = if lp + 1 >= self.left_count {
            IndexJoinStep::Done
        } else {
            IndexJoinStep::Probe(lp + 1)
        };
        match self.kind {
            JoinType::Semi | JoinType::Anti => {
                let emit = (self.current_matches.len() > 0) == (self.kind == JoinType::Semi);
                self.advance_left();
                if emit {
                    Ok(IndexJoinStep::Row(Some(lp), None))
                } else {
                    Ok(next)
                }
            },
            _ => {
                if self.match_position < self.current_matches.len() {
                    let number = self.current_matches[self.match_position];
                    self.match_position = self.match_position + 1;
                    proof {
                        lemma_last_position_bound(self.numbers@, number);
                    }
                    match self.by_number.get(&number) {
                        Some(p) => Ok(IndexJoinStep::Row(Some(lp), Some(*p))),
                        None => Err(JoinError::Invalid(JoinProblem::MissingIndexedRecord(number))),
                    }
                } else {
                    let lone = self.kind == JoinType::Left && self.current_matches.len() == 0;
                    self.advance_left();
                    if lone {
                        Ok(IndexJoinStep::Row(Some(lp), None))
                    } else {
                        Ok(next)
                    }
                }
            },
        }
    }
}

/// Which executor runs one stage of a join pipeline.
#[derive(Debug, Clone, Copy, PartialEq, Eq, Structural)]
pub enum StageExecutor {
    Cross,
    Full,
    Merge,
    IndexRight,
    IndexLeft,
    NestedRight,
    NestedLeft,
    HashRight,
    HashLeft,
}

/// The executor that a stage falls back to: a nested loop when the fallback
/// strategy is one, else a hash join; the right side drives a right join.
pub open spec fn fallback_executor_of(kind: JoinType, fallback: JoinStrategy) -> StageExecutor {
    if fallback == JoinStrategy::NestedLoop {
        if kind == JoinType::Right { StageExecutor::NestedRight } else { StageExecutor::NestedLeft }
    } else if kind == JoinType::Right {
        StageExecutor::HashRight
    } else {
        StageExecutor::HashLeft
    }
}

/// The executor of a stage: cross and full joins have their own; a merge
/// plan needs the right side's index order, an index plan the index; any
/// other plan, or one whose index or order is missing, falls back.
pub open spec fn stage_executor_of(
    kind: JoinType,
    strategy: JoinStrategy,
    fallback: JoinStrategy,
    has_right_order: bool,
    has_index: bool,
) -> StageExecutor {
    if kind == JoinType::Cross {
        StageExecutor::Cross
    } else if kind == JoinType::Full {
        StageExecutor::Full
    } else if strategy == JoinStrategy::Merge && has_right_order {
        StageExecutor::Merge
    } else if strategy == JoinStrategy::IndexNestedLoop && has_index {
        if kind == JoinType::Right { StageExecutor::IndexRight } else { StageExecutor::IndexLeft }
    } else {
        fallback_executor_of(kind, fallback)
    }
}

/// The executor that a stage falls back to.
pub fn fallback_executor(kind: JoinType, fallback: JoinStrategy) -> (r: StageExecutor)
    ensures
        r == fallback_executor_of(kind, fallback),
{
    match (fallback, kind) {
        (JoinStrategy::NestedLoop, JoinType::Right) => StageExecutor::NestedRight,
        (JoinStrategy::NestedLoop, _) => StageExecutor::NestedLeft,
        (_, JoinType::Right) => StageExecutor::HashRight,
        _ => StageExecutor::HashLeft,
    }
}

/// The executor of one pipeline stage. An index executor may find the index
/// unusable; the stage then runs on `fallback_executor`.
pub fn stage_executor(
    kind: JoinType,
    strategy: JoinStrategy,
    fallback: JoinStrategy,
    has_right_order: bool,
    has_index: bool,
) -> (r: StageExecutor)
    ensures
        r == stage_executor_of(kind, strategy, fallback, has_right_order, has_index),
{
    match kind {
        JoinType::Cross => return StageExecutor::Cross,
        JoinType::Full => return StageExecutor::Full,
        _ => {},
    }
    match strategy {
        JoinStrategy::Merge if has_right_order => StageExecutor::Merge,
        JoinStrategy::IndexNestedLoop if has_index => {
            if kind == JoinType::Right {
                StageExecutor::IndexRight
            } else {
                StageExecutor::IndexLeft
            }
        },
        _ => fallback_executor(kind, fallback),
    }
}

/// A direct join is large enough to consult indexes: it reads a current
/// catalog, not a historical image, and its candidate pairs exceed the
/// nested-loop bound.
pub open spec fn large_join(current_catalog: bool, historical: bool, left_count: usize, right_count: usize) -> bool {
    current_catalog && !historical && crate::arith::sat_mul(left_count, right_count) > crate::join_strategy::NESTED_LOOP_PAIR_LIMIT
}

/// The executor of a join of two tables without further stages. A cross
/// join runs its bounded candidate pairs. Otherwise a large join merges when
/// the cost choice `merge_choice` picks a merge and both index orders were
/// loaded; a full join then runs as one; a large join probes an index when
/// the cost choice `index_choice` picks index probes and the index was
/// loaded (the driving side's for a right join, the other side's else); any
/// other join runs a nested loop up to the nested-loop bound and a hash join
/// above it.
pub open spec fn single_join_step_of(
    kind: JoinType,
    left_count: usize,
    right_count: usize,
    current_catalog: bool,
    historical: bool,
    merge_choice: JoinStrategy,
    orders_loaded: bool,
    index_choice: JoinStrategy,
    index_loaded: bool,
) -> Result<StageExecutor, JoinProblem> {
    let large = large_join(current_catalog, historical, left_count, right_count);
    if kind == JoinType::Cross {
        if left_count * right_count > usize::MAX {
            Err(JoinProblem::CrossPairOverflow)
        } else if left_count * right_count > MAX_JOIN_ROWS {
            Err(JoinProblem::CrossPairsExceedLimit)
        } else {
            Ok(StageExecutor::Cross)
        }
    } else if large && merge_choice == JoinStrategy::Merge && orders_loaded {
        Ok(StageExecutor::Merge)
    } else if kind == JoinType::Full {
        Ok(StageExecutor::Full)
    } else if large && index_choice == JoinStrategy::IndexNestedLoop && index_loaded {
        Ok(if kind == JoinType::Right { StageExecutor::IndexRight } else { StageExecutor::IndexLeft })
    } else {
        Ok(fallback_executor_of(
            kind,
            if crate::arith::sat_mul(left_count, right_count) <= crate::join_strategy::NESTED_LOOP_PAIR_LIMIT {
                JoinStrategy::NestedLoop
            } else {
                JoinStrategy::Hash
            },
        ))
    }
}

/// The executor of a join of two tables without further stages. The cost
/// choices come from the join cost model, which weighs page reads and
/// output; an index executor may find the index unusable, and the join then
/// runs on `fallback_executor`.
pub fn single_join_step(
    kind: JoinType,
    left_count: usize,
    right_count: usize,
    current_catalog: bool,
    historical: bool,
    merge_choice: JoinStrategy,
    orders_loaded: bool,
    index_choice: JoinStrategy,
    index_loaded: bool,
) -> (r: Result<StageExecutor, JoinError>)
    ensures
        match single_join_step_of(
            kind,
            left_count,
            right_count,
            current_catalog,
            historical,
            merge_choice,
            orders_loaded,
            index_choice,
            index_loaded,
        ) {
            Ok(e) => r == Ok::<StageExecutor, JoinError>(e),
            Err(p) => r == Err::<StageExecutor, JoinError>(JoinError::Invalid(p)),
        },
{
    if kind == JoinType::Cross {
        return match left_count.checked_mul(right_count) {
            None => Err(JoinError::Invalid(JoinProblem::CrossPairOverflow)),
            Some(pairs) => if pairs > MAX_JOIN_ROWS {
                Err(JoinError::Invalid(JoinProblem::CrossPairsExceedLimit))
            } else {
                Ok(StageExecutor::Cross)
            },
        };
    }
    let large = current_catalog && !historical
        && crate::arith::saturating_mul(left_count, right_count) > crate::join_strategy::NESTED_LOOP_PAIR_LIMIT;
    if large && merge_choice == JoinStrategy::Merge && orders_loaded {
        return Ok(StageExecutor::Merge);
    }
    if kind == JoinType::Full {
        return Ok(StageExecutor::Full);
    }
    if large && index_choice == JoinStrategy::IndexNestedLoop && index_loaded {
        return Ok(if kind == JoinType::Right { StageExecutor::IndexRight } else { StageExecutor::IndexLeft });
    }
    let fallback = crate::join_strategy::choose_join(left_count, right_count, false);
    Ok(fallback_executor(kind, fallback))
}

/// How a pipeline stage streams its rows.
#[derive(Debug, Clone, Copy, PartialEq, Eq, Structural)]
pub enum RowStreamKind {
    Merge,
    Index,
    Nested,
    Hash,
}

/// How a stage streams its rows: a merge plan with the right side's index
/// order merges; an index plan whose index the left side can probe probes
/// it; a nested-loop plan or fallback loops; any other hashes.
pub open spec fn row_stream_of(
    kind: JoinType,
    strategy: JoinStrategy,
    fallback: JoinStrategy,
    has_right_order: bool,
    index_usable: bool,
) -> RowStreamKind {
    if strategy == JoinStrategy::Merge && has_right_order {
        RowStreamKind::Merge
    } else if strategy == JoinStrategy::IndexNestedLoop && index_usable && index_join_kind(kind) {
        RowStreamKind::Index
    } else if strategy == JoinStrategy::NestedLoop || fallback == JoinStrategy::NestedLoop {
        RowStreamKind::Nested
    } else {
        RowStreamKind::Hash
    }
}

/// How a stage streams its rows; `index_usable` says whether the stage has
/// an index, with its fields, over which every left record can be probed.
pub fn row_stream(
    kind: JoinType,
    strategy: JoinStrategy,
    fallback: JoinStrategy,
    has_right_order: bool,
    index_usable: bool,
) -> (r: RowStreamKind)
    ensures
        r == row_stream_of(kind, strategy, fallback, has_right_order, index_usable),
{
    if strategy == JoinStrategy::Merge && has_right_order {
        return RowStreamKind::Merge;
    }
    if strategy == JoinStrategy::IndexNestedLoop && index_usable && index_join_supports(kind) {
        return RowStreamKind::Index;
    }
    if strategy == JoinStrategy::NestedLoop || fallback == JoinStrategy::NestedLoop {
        return RowStreamKind::Nested;
    }
    RowStreamKind::Hash
}

/// The other side's records that a driving record of a merge join matches:
/// the run `s..e` of the other side in index order, if it has one.
pub open spec fn run_of(other: Seq<usize>, run: Option<(usize, usize)>) -> Option<Seq<usize>> {
    match run {
        Some((s, e)) => Some(other.subrange(s as int, e as int)),
        None => None,
    }
}

/// The rows that driving record `p` yields in a merge join, given its run:
/// a semi join keeps a record with a run and an anti join one without; an
/// inner join pairs it with each record of its run, a left join too or keeps
/// it alone without one; a right join, which the right side drives, pairs
/// each record of the run with it or keeps it alone.
pub open spec fn merge_driver_rows(kind: JoinType, p: usize, run: Option<Seq<usize>>) -> Seq<(Option<usize>, Option<usize>)> {
    match run {
        Some(m) => match kind {
            JoinType::Semi => seq![(Some(p), None)],
            JoinType::Anti => Seq::empty(),
            JoinType::Right => m.map_values(|o: usize| (Some(o), Some(p))),
            _ => m.map_values(|o: usize| (Some(p), Some(o))),
        },
        None => match kind {
            JoinType::Semi | JoinType::Inner => Seq::empty(),
            JoinType::Right => seq![(None, Some(p))],
            _ => seq![(Some(p), None)],
        },
    }
}

/// The rows of the first `n` driving records of a merge join, in order.
pub open spec fn merge_rows(
    kind: JoinType,
    runs: Seq<Option<(usize, usize)>>,
    other: Seq<usize>,
    n: nat,
) -> Seq<(Option<usize>, Option<usize>)>
    decreases n,
{
    if n == 0 {
        Seq::empty()
    } else {
        merge_rows(kind, runs, other, (n - 1) as nat) + merge_driver_rows(
            kind,
            (n - 1) as usize,
            run_of(other, runs[n - 1]),
        )
    }
}

proof fn lemma_merge_prefix(kind: JoinType, runs: Seq<Option<(usize, usize)>>, other: Seq<usize>, n: nat, m: nat)
    requires
        n <= m,
    ensures
        merge_rows(kind, runs, other, n).len() <= merge_rows(kind, runs, other, m).len(),
        merge_rows(kind, runs, other, m).subrange(0, merge_rows(kind, runs, other, n).len() as int)
            == merge_rows(kind, runs, other, n),
    decreases m,
{
    if n < m {
        lemma_merge_prefix(kind, runs, other, n, (m - 1) as nat);
        let a = merge_rows(kind, runs, other, (m - 1) as nat);
        let b = merge_driver_rows(kind, (m - 1) as usize, run_of(other, runs[m - 1]));
        let p = merge_rows(kind, runs, other, n);
        assert((a + b).subrange(0, p.len() as int) =~= a.subrange(0, p.len() as int));
    } else {
        let p = merge_rows(kind, runs, other, n);
        assert(p.subrange(0, p.len() as int) =~= p);
    }
}

/// A merge join that yields its rows one at a time from the runs that its
/// driving records match: the left side drives it, but the right side a
/// right join.
pub struct MergeJoinRows {
    kind: JoinType,
    runs: Vec<Option<(usize, usize)>>,
    other: Vec<usize>,
    driver: usize,
    pending: Vec<(Option<usize>, Option<usize>)>,
    pending_position: usize,
}

impl MergeJoinRows {
    /// Every row of this join, in order.
    pub closed spec fn rows(&self) -> Seq<(Option<usize>, Option<usize>)> {
        merge_rows(self.kind, self.runs@, self.other@, self.runs@.len())
    }

    /// How many rows have been yielded so far.
    pub closed spec fn emitted(&self) -> int {
        (if self.driver == 0 {
            0
        } else {
            merge_rows(self.kind, self.runs@, self.other@, (self.driver - 1) as nat).len() as int
        }) + self.pending_position
    }

    /// The join's internal consistency, which every operation keeps.
    pub closed spec fn wf(&self) -> bool {
        &&& self.kind != JoinType::Full && self.kind != JoinType::Cross
        &&& forall|p: int| 0 <= p < self.runs@.len() ==> (#[trigger] self.runs@[p] matches Some((s, e)) ==> s <= e
            <= self.other@.len())
        &&& self.driver <= self.runs@.len()
        &&& self.pending@ == if self.driver == 0 {
            Seq::empty()
        } else {
            merge_driver_rows(
                self.kind,
                (self.driver - 1) as usize,
                run_of(self.other@, self.runs@[self.driver - 1]),
            )
        }
        &&& self.pending_position <= self.pending@.len()
    }

    /// Starts a merge join. `runs` holds, for each driving record by
    /// position, the run of the other side in index order that shares its
    /// key, and `other` the table positions of the other side's records in
    /// index order. Full and cross joins are refused.
    pub fn new(kind: JoinType, runs: Vec<Option<(usize, usize)>>, other: Vec<usize>) -> (r: Result<MergeJoinRows, JoinError>)
        requires
            forall|p: int| 0 <= p < runs@.len() ==> (#[trigger] runs@[p] matches Some((s, e)) ==> s <= e
                <= other@.len()),
        ensures
            kind == JoinType::Full ==> r == Err::<MergeJoinRows, JoinError>(JoinError::Invalid(JoinProblem::MergeFullJoin)),
            kind == JoinType::Cross ==> r == Err::<MergeJoinRows, JoinError>(JoinError::Invalid(JoinProblem::MergeCrossJoin)),
            kind != JoinType::Full && kind != JoinType::Cross ==> (r matches Ok(s) && s.wf() && s.emitted() == 0
                && s.rows() == merge_rows(kind, runs@, other@, runs@.len())),
    {
        if let Err(e) = check_merge_kind(kind) {
            return Err(e);
        }
        Ok(MergeJoinRows { kind, runs, other, driver: 0, pending: Vec::new(), pending_position: 0 })
    }

    fn driver_rows(&self, p: usize) -> (r: Vec<(Option<usize>, Option<usize>)>)
        requires
            self.wf(),
            p < self.runs@.len(),
        ensures
            r@ == merge_driver_rows(self.kind, p, run_of(self.other@, self.runs@[p as int])),
    {
        let mut rows: Vec<(Option<usize>, Option<usize>)> = Vec::new();
        match self.runs[p] {
            None => {
                match self.kind {
                    JoinType::Semi | JoinType::Inner => {},
                    JoinType::Right => rows.push((None, Some(p))),
                    _ => rows.push((Some(p), None)),
                }
            },
            Some((s, e)) => {
                assert(self.runs@[p as int] matches Some((s2, e2)) && s2 <= e2 <= self.other@.len());
                match self.kind {
                    JoinType::Semi => rows.push((Some(p), None)),
                    JoinType::Anti => {},
                    _ => {
                        let ghost run = self.other@.subrange(s as int, e as int);
                        let mut i = s;
                        while i < e
                            invariant
                                self.kind != JoinType::Semi && self.kind != JoinType::Anti,
                                s <= i <= e <= self.other@.len(),
                                run == self.other@.subrange(s as int, e as int),
                                rows@ == run.subrange(0, i - s).map_values(
                                    |o: usize| if self.kind == JoinType::Right { (Some(o), Some(p)) } else { (Some(p), Some(o)) },
                                ),
                            decreases e - i,
                        {
                            let o = self.other[i];
                            if self.kind == JoinType::Right {
                                rows.push((Some(o), Some(p)));
                            } else {
                                rows.push((Some(p), Some(o)));
                            }
                            assert(run.subrange(0, i + 1 - s) =~= run.subrange(0, i - s).push(o));
                            i += 1;
                        }
                        assert(run.subrange(0, e - s) =~= run);
                        proof {
                            if self.kind == JoinType::Right {
                                assert(rows@ =~= run.map_values(|o: usize| (Some(o), Some(p))));
                            } else {
                                assert(rows@ =~= run.map_values(|o: usize| (Some(p), Some(o))));
                            }
                        }
                    },
                }
            },
        }
        rows
    }

    /// Yields the next row of the join, or nothing once every row has been
    /// yielded.
    pub fn next_row(&mut self) -> (r: Option<(Option<usize>, Option<usize>)>)
        requires
            old(self).wf(),
        ensures
            final(self).wf(),
            final(self).rows() == old(self).rows(),
            0 <= old(self).emitted() <= old(self).rows().len(),
            0 <= final(self).emitted() <= final(self).rows().len(),
            old(self).emitted() < old(self).rows().len() ==> {
                &&& r == Some(old(self).rows()[old(self).emitted()])
                &&& final(self).emitted() == old(self).emitted() + 1
            },
            old(self).emitted() == old(self).rows().len() ==> r is None && final(self).emitted()
                == old(self).emitted(),
    {
        let ghost start = self.emitted();
        proof {
            self.lemma_emitted_bound();
        }
        while self.pending_position == self.pending.len() && self.driver < self.runs.len()
            invariant
                self.wf(),
                self.rows() == old(self).rows(),
                self.emitted() == start,
                start == old(self).emitted(),
            decreases self.runs@.len() - self.driver,
        {
            let rows = self.driver_rows(self.driver);
            proof {
                if self.driver > 0 {
                    assert(merge_rows(self.kind, self.runs@, self.other@, self.driver as nat) == merge_rows(
                        self.kind,
                        self.runs@,
                        self.other@,
                        (self.driver - 1) as nat,
                    ) + self.pending@);
                }
            }
            self.pending = rows;
            self.pending_position = 0;
            self.driver = self.driver + 1;
        }
        proof {
            self.lemma_emitted_bound();
        }
        if self.pending_position < self.pending.len() {
            let row = self.pending[self.pending_position];
            proof {
                self.lemma_pending_row();
            }
            self.pending_position = self.pending_position + 1;
            return Some(row);
        }
        proof {
            if self.driver > 0 {
                assert(merge_rows(self.kind, self.runs@, self.other@, self.driver as nat) == merge_rows(
                    self.kind,
                    self.runs@,
                    self.other@,
                    (self.driver - 1) as nat,
                ) + self.pending@);
            }
        }
        None
    }

    proof fn lemma_emitted_bound(&self)
        requires
            self.wf(),
        ensures
            0 <= self.emitted() <= self.rows().len(),
    {
        lemma_merge_prefix(self.kind, self.runs@, self.other@, self.driver as nat, self.runs@.len());
        if self.driver > 0 {
            assert(merge_rows(self.kind, self.runs@, self.other@, self.driver as nat) == merge_rows(
                self.kind,
                self.runs@,
                self.other@,
                (self.driver - 1) as nat,
            ) + self.pending@);
        }
    }

    proof fn lemma_pending_row(&self)
        requires
            self.wf(),
            self.pending_position < self.pending@.len(),
        ensures
            self.emitted() < self.rows().len(),
            self.rows()[self.emitted()] == self.pending@[self.pending_position as int],
    {
        let before = merge_rows(self.kind, self.runs@, self.other@, (self.driver - 1) as nat);
        let through = merge_rows(self.kind, self.runs@, self.other@, self.driver as nat);
        assert(through == before + self.pending@);
        lemma_merge_prefix(self.kind, self.runs@, self.other@, self.driver as nat, self.runs@.len());
        let all = merge_rows(self.kind, self.runs@, self.other@, self.runs@.len());
        assert(all.subrange(0, through.len() as int)[before.len() + self.pending_position] == through[before.len()
            + self.pending_position]);
    }
}

proof fn lemma_cross_rows_len(driver: Seq<Option<u64>>, other: Seq<Option<u64>>, n: nat)
    ensures
        driven_rows(JoinType::Cross, driver, other, n).len() == n * other.len(),
    decreases n,
{
    if n > 0 {
        lemma_cross_rows_len(driver, other, (n - 1) as nat);
        assert(driven_rows(JoinType::Cross, driver, other, n).len() == driven_rows(JoinType::Cross, driver, other, (n - 1) as nat).len()
            + other.len());
        let m = (n - 1) as nat;
        let o = other.len();
        assert(n == m + 1);
        assert(m * o + o == (m + 1) * o) by (nonlinear_arith);
        assert((m + 1) * o == n * o);
    } else {
        assert(n * other.len() == 0) by (nonlinear_arith)
            requires
                n == 0,
        ;
    }
}

/// Every row of an equality join of `left` with `right`, the records of the
/// other side grouped by key: a right join is driven by the right side, any
/// other by the left, and a full join ends with the right records that match
/// nothing. A cross join must pass its pair count first. A result of more
/// than `MAX_JOIN_ROWS` rows is refused.
pub fn hash_join_rows(left: &Vec<Option<u64>>, right: &Vec<Option<u64>>, kind: JoinType) -> (r: Result<
    Vec<(Option<usize>, Option<usize>)>,
    JoinError,
>)
    ensures
        kind == JoinType::Cross && left@.len() * right@.len() > usize::MAX ==> r == Err::<
            Vec<(Option<usize>, Option<usize>)>,
            JoinError,
        >(JoinError::Invalid(JoinProblem::CrossPairOverflow)),
        kind == JoinType::Cross && left@.len() * right@.len() <= usize::MAX && left@.len() * right@.len()
            > MAX_JOIN_ROWS ==> r == Err::<Vec<(Option<usize>, Option<usize>)>, JoinError>(
            JoinError::Invalid(JoinProblem::CrossPairsExceedLimit),
        ),
        (kind != JoinType::Cross || left@.len() * right@.len() <= MAX_JOIN_ROWS) ==> if nested_rows(
            kind,
            left@,
            right@,
        ).len() <= MAX_JOIN_ROWS {
            r matches Ok(rows) && rows@ == nested_rows(kind, left@, right@)
        } else {
            r == Err::<Vec<(Option<usize>, Option<usize>)>, JoinError>(JoinError::Invalid(JoinProblem::ResultTooLarge))
        },
{
    if kind == JoinType::Cross {
        if let Err(e) = cross_pair_count(left.len(), right.len()) {
            return Err(e);
        }
        proof {
            lemma_cross_rows_len(left@, right@, left@.len());
        }
    }
    let (driver, other) = if kind == JoinType::Right {
        (right, left)
    } else {
        (left, right)
    };
    let ghost total = nested_rows(kind, left@, right@);
    let ghost all = driven_rows(kind, driver@, other@, driver@.len());
    proof {
        if kind == JoinType::Full {
            assert(total == all + unmatched_right_rows(left@, right@, right@.len()));
        } else {
            assert(total == all);
        }
    }
    let index = KeyIndex::build(other);
    let mut rows: Vec<(Option<usize>, Option<usize>)> = Vec::new();
    let mut i: usize = 0;
    while i < driver.len()
        invariant
            i <= driver@.len(),
            index.keys() == other@,
            rows@ == driven_rows(kind, driver@, other@, i as nat),
            rows@.len() <= MAX_JOIN_ROWS,
            all == driven_rows(kind, driver@, other@, driver@.len()),
            total == nested_rows(kind, left@, right@),
            total.len() >= all.len(),
            kind == JoinType::Cross ==> total.len() <= MAX_JOIN_ROWS,
            kind == JoinType::Cross ==> left@.len() * right@.len() <= MAX_JOIN_ROWS,
            kind == JoinType::Right ==> driver@ == right@ && other@ == left@,
            kind != JoinType::Right ==> driver@ == left@ && other@ == right@,
        decreases driver.len() - i,
    {
        let part = if kind == JoinType::Cross {
            let mut pairs: Vec<(Option<usize>, Option<usize>)> = Vec::new();
            let mut j: usize = 0;
            while j < other.len()
                invariant
                    j <= other@.len(),
                    pairs@ =~= Seq::new(j as nat, |t: int| (Some(i), Some(t as usize))),
                decreases other.len() - j,
            {
                pairs.push((Some(i), Some(j)));
                j += 1;
            }
            pairs
        } else {
            let matches = index.matches(driver[i]);
            driving_rows(kind, i, &matches)
        };
        assert(part@ == nested_driver_rows(kind, driver@, other@, i as int));
        proof {
            lemma_driven_prefix(kind, driver@, other@, (i + 1) as nat, driver@.len());
        }
        assert(driven_rows(kind, driver@, other@, (i + 1) as nat) == rows@ + part@);
        if part.len() > MAX_JOIN_ROWS - rows.len() {
            assert(all.len() >= rows@.len() + part@.len());
            return Err(JoinError::Invalid(JoinProblem::ResultTooLarge));
        }
        let mut part = part;
        rows.append(&mut part);
        i += 1;
    }
    if kind == JoinType::Full {
        let left_index = KeyIndex::build(left);
        let mut j: usize = 0;
        while j < right.len()
            invariant
                kind == JoinType::Full,
                j <= right@.len(),
                left_index.keys() == left@,
                rows@ == all + unmatched_right_rows(left@, right@, j as nat),
                rows@.len() <= MAX_JOIN_ROWS,
                total == nested_rows(kind, left@, right@),
                total == all + unmatched_right_rows(left@, right@, right@.len()),
            decreases right.len() - j,
        {
            let matched = left_index.matches(right[j]);
            proof {
                lemma_unmatched_prefix(left@, right@, (j + 1) as nat, right@.len());
                if let Some(k) = right@[j as int] {
                    lemma_count_bound(left@, k);
                }
            }
            assert(matched@.len() == match_count(right@[j as int], left@));
            assert(unmatched_right_rows(left@, right@, (j + 1) as nat) == unmatched_right_rows(left@, right@, j as nat)
                + if match_count(right@[j as int], left@) == 0 {
                seq![(None::<usize>, Some(j))]
            } else {
                Seq::<(Option<usize>, Option<usize>)>::empty()
            });
            if matched.len() == 0 {
                if rows.len() >= MAX_JOIN_ROWS {
                    assert(rows@.len() == all.len() + unmatched_right_rows(left@, right@, j as nat).len());
                    assert(unmatched_right_rows(left@, right@, (j + 1) as nat).len() == unmatched_right_rows(left@, right@, j as nat).len() + 1);
                    assert(total.len() == all.len() + unmatched_right_rows(left@, right@, right@.len()).len());
                    assert(total.len() >= all.len() + unmatched_right_rows(left@, right@, (j + 1) as nat).len());
                    assert(total.len() > MAX_JOIN_ROWS);
                    return Err(JoinError::Invalid(JoinProblem::ResultTooLarge));
                }
                rows.push((None, Some(j)));
            } else {
                assert(unmatched_right_rows(left@, right@, (j + 1) as nat) =~= unmatched_right_rows(left@, right@, j as nat));
            }
            j += 1;
        }
    }
    Ok(rows)
}

} // verus!
