//! The merge step of a merge join: both sides in join-index order, each
//! record's key a list of component ranks, compared lexicographically.
use vstd::prelude::*;
use std::collections::HashMap;
use super::join::{JoinError, JoinProblem, JoinType};

verus! {

broadcast use vstd::std_specs::hash::group_hash_axioms;

/// A record of one join side in index order: its position in table order
/// and the ranks of its key components.
#[derive(Debug)]
pub struct OrderedRecord {
    pub position: usize,
    pub key: Vec<u64>,
}

/// How two keys compare.
#[derive(Debug, Clone, Copy, PartialEq, Eq, Structural)]
pub enum KeyOrder {
    Less,
    Equal,
    Greater,
}

/// `a` sorts before `b`: at the first differing component, or as a proper prefix.
pub open spec fn key_less(a: Seq<u64>, b: Seq<u64>) -> bool
    decreases a.len(),
{
    if a.len() == 0 {
        b.len() > 0
    } else if b.len() == 0 {
        false
    } else if a[0] != b[0] {
        a[0] < b[0]
    } else {
        key_less(a.drop_first(), b.drop_first())
    }
}

/// Key order is a strict total order: exactly one of less, equal, greater.
pub proof fn lemma_key_trichotomy(a: Seq<u64>, b: Seq<u64>)
    ensures
        key_less(a, b) || key_less(b, a) || a == b,
        !(key_less(a, b) && key_less(b, a)),
        !key_less(a, a),
    decreases a.len(),
{
    if a.len() > 0 && b.len() > 0 {
        lemma_key_trichotomy(a.drop_first(), b.drop_first());
        if a[0] == b[0] && a.drop_first() == b.drop_first() {
            assert(a =~= seq![a[0]] + a.drop_first());
            assert(b =~= seq![b[0]] + b.drop_first());
        }
        lemma_key_trichotomy(a.drop_first(), a.drop_first());
    } else if a.len() == 0 && b.len() == 0 {
        assert(a =~= b);
    } else if a.len() > 0 {
        lemma_key_trichotomy(a.drop_first(), a.drop_first());
    }
}

/// Key order is transitive.
pub proof fn lemma_key_transitive(a: Seq<u64>, b: Seq<u64>, c: Seq<u64>)
    requires
        key_less(a, b),
        key_less(b, c),
    ensures
        key_less(a, c),
    decreases a.len(),
{
    if a.len() > 0 && b.len() > 0 && c.len() > 0 && a[0] == b[0] && b[0] == c[0] {
        lemma_key_transitive(a.drop_first(), b.drop_first(), c.drop_first());
    }
}

/// Compares two keys lexicographically, a proper prefix first.
pub fn compare_keys(left: &Vec<u64>, right: &Vec<u64>) -> (r: KeyOrder)
    ensures
        r == KeyOrder::Less <==> key_less(left@, right@),
        r == KeyOrder::Equal <==> left@ == right@,
        r == KeyOrder::Greater <==> key_less(right@, left@),
{
    proof {
        lemma_key_trichotomy(left@, right@);
    }
    let mut i: usize = 0;
    assert(left@.subrange(0, left@.len() as int) =~= left@);
    assert(right@.subrange(0, right@.len() as int) =~= right@);
    while i < left.len() && i < right.len()
        invariant
            i <= left@.len(),
            i <= right@.len(),
            left@.subrange(0, i as int) == right@.subrange(0, i as int),
            key_less(left@, right@) == key_less(left@.subrange(i as int, left@.len() as int), right@.subrange(i as int, right@.len() as int)),
            key_less(right@, left@) == key_less(right@.subrange(i as int, right@.len() as int), left@.subrange(i as int, left@.len() as int)),
        decreases left.len() - i,
    {
        let ghost l = left@.subrange(i as int, left@.len() as int);
        let ghost r = right@.subrange(i as int, right@.len() as int);
        assert(l[0] == left@[i as int] && r[0] == right@[i as int]);
        if left[i] < right[i] {
            return KeyOrder::Less;
        }
        if left[i] > right[i] {
            return KeyOrder::Greater;
        }
        assert(l.drop_first() =~= left@.subrange(i + 1, left@.len() as int));
        assert(r.drop_first() =~= right@.subrange(i + 1, right@.len() as int));
        assert(left@.subrange(0, i + 1) =~= left@.subrange(0, i as int).push(left@[i as int]));
        assert(right@.subrange(0, i + 1) =~= right@.subrange(0, i as int).push(right@[i as int]));
        i += 1;
    }
    if left.len() < right.len() {
        KeyOrder::Less
    } else if left.len() > right.len() {
        KeyOrder::Greater
    } else {
        assert(left@ =~= left@.subrange(0, i as int));
        assert(right@ =~= right@.subrange(0, i as int));
        KeyOrder::Equal
    }
}

/// The keys of a side, in index order.
pub open spec fn keys_of(s: Seq<OrderedRecord>) -> Seq<Seq<u64>> {
    s.map_values(|r: OrderedRecord| r.key@)
}

/// Keys in index order never decrease.
pub open spec fn keys_sorted(k: Seq<Seq<u64>>) -> bool {
    forall|i: int, j: int| 0 <= i < j < k.len() ==> !key_less(#[trigger] k[j], #[trigger] k[i])
}

/// How many keys sort before `key`.
pub open spec fn count_below(k: Seq<Seq<u64>>, key: Seq<u64>) -> nat
    decreases k.len(),
{
    if k.len() == 0 {
        0
    } else {
        count_below(k.drop_last(), key) + if key_less(k.last(), key) { 1nat } else { 0nat }
    }
}

/// How many keys sort before or equal `key`.
pub open spec fn count_up_to(k: Seq<Seq<u64>>, key: Seq<u64>) -> nat
    decreases k.len(),
{
    if k.len() == 0 {
        0
    } else {
        count_up_to(k.drop_last(), key) + if !key_less(key, k.last()) { 1nat } else { 0nat }
    }
}

/// The run of `inner` (in index order) whose keys equal `key`, when there is one.
pub open spec fn equal_run(inner: Seq<Seq<u64>>, key: Seq<u64>) -> Option<(usize, usize)> {
    if count_up_to(inner, key) > count_below(inner, key) {
        Some((count_below(inner, key) as usize, count_up_to(inner, key) as usize))
    } else {
        None
    }
}

/// For each outer record position, the run of inner records with its key.
pub open spec fn expected_match(outer: Seq<OrderedRecord>, inner: Seq<Seq<u64>>, position: int) -> Option<(usize, usize)> {
    if exists|i: int| 0 <= i < outer.len() && outer[i].position == position {
        let i = choose|i: int| 0 <= i < outer.len() && outer[i].position == position;
        equal_run(inner, outer[i].key@)
    } else {
        None
    }
}

/// Counting over a sorted run split at `b`: every key before `b` sorts
/// below `key` and none from `b` on.
proof fn lemma_count_split(k: Seq<Seq<u64>>, key: Seq<u64>, b: int, up_to: bool)
    requires
        0 <= b <= k.len(),
        forall|j: int| 0 <= j < b ==> (if up_to { !key_less(key, #[trigger] k[j]) } else { key_less(k[j], key) }),
        forall|j: int| b <= j < k.len() ==> (if up_to { key_less(key, #[trigger] k[j]) } else { !key_less(k[j], key) }),
    ensures
        up_to ==> count_up_to(k, key) == b,
        !up_to ==> count_below(k, key) == b,
    decreases k.len(),
{
    if k.len() > 0 {
        let d = k.drop_last();
        if b == k.len() {
            lemma_count_split(d, key, b - 1, up_to);
        } else {
            lemma_count_split(d, key, b, up_to);
        }
    }
}

proof fn lemma_sorted_prefix_below(k: Seq<Seq<u64>>, key: Seq<u64>, b: int)
    requires
        keys_sorted(k),
        0 <= b < k.len(),
        key_less(key, k[b]),
    ensures
        forall|j: int| b <= j < k.len() ==> key_less(key, #[trigger] k[j]),
{
    assert forall|j: int| b <= j < k.len() implies key_less(key, #[trigger] k[j]) by {
        if j > b {
            lemma_key_trichotomy(k[b], k[j]);
            if key_less(k[b], k[j]) {
                lemma_key_transitive(key, k[b], k[j]);
            }
        }
    }
}

/// The end of the run of equal keys that starts at `start`.
fn key_end(records: &Vec<OrderedRecord>, start: usize) -> (r: usize)
    requires
        start < records@.len(),
    ensures
        start < r <= records@.len(),
        forall|j: int| start <= j < r ==> (#[trigger] records@[j]).key@ == records@[start as int].key@,
        r < records@.len() ==> records@[r as int].key@ != records@[start as int].key@,
{
    let n = records.len();
    let mut end = start + 1;
    while end < records.len() && compare_keys(&records[end].key, &records[start].key) == KeyOrder::Equal
        invariant
            start < end <= records@.len(),
            forall|j: int| start <= j < end ==> (#[trigger] records@[j]).key@ == records@[start as int].key@,
        decreases records.len() - end,
    {
        end += 1;
    }
    end
}

/// For each outer record, by its position, the run of inner records in
/// index order that share its key; none for records without a match.
/// Both sides must be in key order, and outer positions distinct and
/// below `outer_count`.
#[verifier::loop_isolation(false)]
pub fn matching_ranges(outer: &Vec<OrderedRecord>, inner: &Vec<OrderedRecord>, outer_count: usize) -> (r: Vec<Option<(usize, usize)>>)
    requires
        keys_sorted(keys_of(outer@)),
        keys_sorted(keys_of(inner@)),
        forall|i: int| 0 <= i < outer@.len() ==> (#[trigger] outer@[i]).position < outer_count,
        forall|i: int, j: int| 0 <= i < j < outer@.len() ==> (#[trigger] outer@[i]).position != (#[trigger] outer@[j]).position,
    ensures
        r@.len() == outer_count,
        forall|p: int| 0 <= p < outer_count ==> #[trigger] r@[p] == expected_match(outer@, keys_of(inner@), p),
{
    let ghost ok = keys_of(outer@);
    let ghost ik = keys_of(inner@);
    let mut matches: Vec<Option<(usize, usize)>> = Vec::new();
    let mut z: usize = 0;
    while z < outer_count
        invariant
            z <= outer_count,
            matches@.len() == z,
            forall|p: int| 0 <= p < z ==> #[trigger] matches@[p] is None,
        decreases outer_count - z,
    {
        matches.push(None);
        z += 1;
    }
    let mut a: usize = 0;
    let mut b: usize = 0;
    while a < outer.len() && b < inner.len()
        invariant
            ok == keys_of(outer@),
            ik == keys_of(inner@),
            a <= outer@.len(),
            b <= inner@.len(),
            matches@.len() == outer_count,
            a < outer@.len() ==> forall|j: int| 0 <= j < b ==> key_less(#[trigger] ik[j], ok[a as int]),
            b < inner@.len() ==> forall|i: int| 0 <= i < a ==> key_less(#[trigger] ok[i], ik[b as int]),
            forall|i: int| 0 <= i < a ==> #[trigger] matches@[outer@[i].position as int] == equal_run(ik, ok[i]),
            forall|p: int| 0 <= p < outer_count && !(exists|i: int| 0 <= i < a && #[trigger] outer@[i].position == p) ==> #[trigger] matches@[p] is None,
        decreases outer.len() - a + inner.len() - b,
    {
        assert(ok[a as int] == outer@[a as int].key@ && ik[b as int] == inner@[b as int].key@);
        match compare_keys(&outer[a].key, &inner[b].key) {
            KeyOrder::Less => {
                proof {
                    let key = ok[a as int];
                    lemma_sorted_prefix_below(ik, key, b as int);
                    assert forall|j: int| b <= j < ik.len() implies !key_less(#[trigger] ik[j], key) by {
                        lemma_key_trichotomy(key, ik[j]);
                    }
                    assert forall|j: int| 0 <= j < b implies !key_less(key, #[trigger] ik[j]) by {
                        lemma_key_trichotomy(key, ik[j]);
                    }
                    lemma_count_split(ik, key, b as int, false);
                    lemma_count_split(ik, key, b as int, true);
                    assert forall|i: int| 0 <= i < a + 1 && b < inner@.len() implies key_less(#[trigger] ok[i], ik[b as int]) by {
                        if i < a {
                        }
                    }
                    assert forall|p: int| 0 <= p < outer_count && !(exists|i: int| 0 <= i < a + 1 && #[trigger] outer@[i].position == p) implies #[trigger] matches@[p] is None by {
                        if exists|i: int| 0 <= i < a && #[trigger] outer@[i].position == p {
                            let i = choose|i: int| 0 <= i < a && #[trigger] outer@[i].position == p;
                            assert(outer@[i].position == p);
                        }
                    }
                    if a + 1 < outer@.len() {
                        assert forall|j: int| 0 <= j < b implies key_less(#[trigger] ik[j], ok[a + 1]) by {
                            lemma_key_trichotomy(ok[a as int], ok[a + 1]);
                            if key_less(ok[a as int], ok[a + 1]) {
                                lemma_key_transitive(ik[j], ok[a as int], ok[a + 1]);
                            }
                        }
                    }
                }
                a += 1;
            },
            KeyOrder::Greater => {
                proof {
                    if b + 1 < inner@.len() {
                        assert forall|i: int| 0 <= i < a implies key_less(#[trigger] ok[i], ik[b + 1]) by {
                            lemma_key_trichotomy(ik[b as int], ik[b + 1]);
                            if key_less(ik[b as int], ik[b + 1]) {
                                lemma_key_transitive(ok[i], ik[b as int], ik[b + 1]);
                            }
                        }
                    }
                }
                b += 1;
            },
            KeyOrder::Equal => {
                let outer_end = key_end(outer, a);
                let inner_end = key_end(inner, b);
                let ghost key = ok[a as int];
                proof {
                    assert forall|j: int| b <= j < inner_end implies ik[j] == key by {
                        assert(ik[j] == inner@[j].key@);
                    }
                    lemma_key_trichotomy(key, key);
                    if (inner_end as int) < inner@.len() {
                        assert(ik[inner_end as int] != key);
                        lemma_key_trichotomy(ik[b as int], ik[inner_end as int]);
                        lemma_sorted_prefix_below(ik, key, inner_end as int);
                    }
                    assert forall|j: int| 0 <= j < inner_end implies !key_less(key, #[trigger] ik[j]) by {
                        if j < b {
                            lemma_key_trichotomy(ik[j], key);
                        }
                    }
                    lemma_count_split(ik, key, inner_end as int, true);
                    assert forall|j: int| b <= j < inner@.len() implies !key_less(#[trigger] ik[j], key) by {
                        if j >= inner_end {
                            lemma_key_trichotomy(ik[j], key);
                        }
                    }
                    lemma_count_split(ik, key, b as int, false);
                    assert(equal_run(ik, key) == Some((b as usize, inner_end as usize)));
                }
                let mut k = a;
                while k < outer_end
                    invariant
                        a <= k <= outer_end <= outer@.len(),
                        matches@.len() == outer_count,
                        forall|i: int| 0 <= i < k ==> #[trigger] matches@[outer@[i].position as int] == equal_run(ik, ok[i]),
                        forall|p: int| 0 <= p < outer_count && !(exists|i: int| 0 <= i < k && #[trigger] outer@[i].position == p) ==> #[trigger] matches@[p] is None,
                    decreases outer_end - k,
                {
                    let p = outer[k].position;
                    let ghost before = matches@;
                    matches.set(p, Some((b, inner_end)));
                    proof {
                        assert(ok[k as int] == outer@[k as int].key@);
                        assert forall|i: int| 0 <= i < k + 1 implies #[trigger] matches@[outer@[i].position as int] == equal_run(ik, ok[i]) by {
                            if i < k {
                                assert(outer@[i].position != outer@[k as int].position);
                            }
                        }
                        assert forall|q: int| 0 <= q < outer_count && !(exists|i: int| 0 <= i < k + 1 && #[trigger] outer@[i].position == q) implies #[trigger] matches@[q] is None by {
                            assert(outer@[k as int].position != q);
                            if exists|i: int| 0 <= i < k && #[trigger] outer@[i].position == q {
                                let i = choose|i: int| 0 <= i < k && #[trigger] outer@[i].position == q;
                                assert(outer@[i].position == q);
                            }
                        }
                    }
                    k += 1;
                }
                proof {
                    if (outer_end as int) < outer@.len() {
                        assert(ok[outer_end as int] != key);
                        lemma_key_trichotomy(ok[a as int], ok[outer_end as int]);
                        assert forall|j: int| 0 <= j < inner_end implies key_less(#[trigger] ik[j], ok[outer_end as int]) by {
                            lemma_key_trichotomy(ik[j], key);
                            if key_less(ik[j], key) {
                                lemma_key_transitive(ik[j], key, ok[outer_end as int]);
                            }
                        }
                    }
                    if (inner_end as int) < inner@.len() {
                        assert forall|i: int| 0 <= i < outer_end implies key_less(#[trigger] ok[i], ik[inner_end as int]) by {
                            if i >= a {
                                assert(ok[i] == outer@[i].key@);
                            } else {
                                lemma_key_trichotomy(ik[b as int], ik[inner_end as int]);
                                lemma_key_transitive(ok[i], ik[b as int], ik[inner_end as int]);
                            }
                        }
                    }
                }
                a = outer_end;
                b = inner_end;
            },
        }
    }
    proof {
        assert forall|p: int| 0 <= p < outer_count implies #[trigger] matches@[p] == expected_match(outer@, ik, p) by {
            if exists|i: int| 0 <= i < outer@.len() && outer@[i].position == p {
                let i = choose|i: int| 0 <= i < outer@.len() && outer@[i].position == p;
                assert(ok[i] == outer@[i].key@);
                if i >= a {
                    let key = ok[i];
                    assert(b == inner@.len());
                    assert forall|j: int| 0 <= j < ik.len() implies key_less(#[trigger] ik[j], key) by {
                        if i > a {
                            lemma_key_trichotomy(ok[a as int], key);
                            if key_less(ok[a as int], key) {
                                lemma_key_transitive(ik[j], ok[a as int], key);
                            }
                        }
                    }
                    lemma_count_split(ik, key, ik.len() as int, false);
                    assert forall|j: int| 0 <= j < ik.len() implies !key_less(key, #[trigger] ik[j]) by {
                        lemma_key_trichotomy(ik[j], key);
                    }
                    lemma_count_split(ik, key, ik.len() as int, true);
                    assert forall|q: int| 0 <= q < a implies #[trigger] outer@[q].position != p by {
                    }
                } else {
                    assert(matches@[outer@[i].position as int] == equal_run(ik, ok[i]));
                }
            }
        }
    }
    matches
}

/// The last position whose record number is `number`.
pub open spec fn last_position(numbers: Seq<usize>, number: usize) -> Option<usize>
    decreases numbers.len(),
{
    if numbers.len() == 0 {
        None
    } else if numbers.last() == number {
        Some((numbers.len() - 1) as usize)
    } else {
        last_position(numbers.drop_last(), number)
    }
}

/// The records of one side in join-index order: each indexed record number
/// resolved to its table position, records without a complete key left out.
pub open spec fn ordered_from(
    numbers: Seq<usize>,
    order: Seq<usize>,
    keys: Seq<Option<Seq<u64>>>,
) -> Result<Seq<(usize, Seq<u64>)>, JoinProblem>
    decreases order.len(),
{
    if order.len() == 0 {
        Ok(Seq::empty())
    } else {
        match ordered_from(numbers, order.drop_last(), keys) {
            Err(p) => Err(p),
            Ok(done) => match last_position(numbers, order.last()) {
                None => Err(JoinProblem::MissingIndexedRecord(order.last())),
                Some(p) => match keys[p as int] {
                    Some(k) => Ok(done.push((p, k))),
                    None => Ok(done),
                },
            },
        }
    }
}

pub(crate) proof fn lemma_last_position_bound(numbers: Seq<usize>, number: usize)
    requires
        numbers.len() <= usize::MAX,
    ensures
        last_position(numbers, number) matches Some(p) ==> p < numbers.len() && numbers[p as int] == number,
    decreases numbers.len(),
{
    if numbers.len() > 0 && numbers.last() != number {
        lemma_last_position_bound(numbers.drop_last(), number);
        if let Some(p) = last_position(numbers.drop_last(), number) {
            assert(numbers.drop_last()[p as int] == numbers[p as int]);
        }
    }
}

/// Lays out one side of a merge join in index order. `numbers` are the
/// record numbers of the side's records in table order, `order` the record
/// numbers in index order, and `keys` the records' merge keys, absent where
/// a key field is missing or not a scalar.
pub fn ordered_records(
    numbers: &Vec<usize>,
    order: &Vec<usize>,
    keys: &Vec<Option<Vec<u64>>>,
) -> (r: Result<Vec<OrderedRecord>, JoinError>)
    requires
        keys@.len() == numbers@.len(),
    ensures
        match ordered_from(numbers@, order@, keys@.map_values(|k: Option<Vec<u64>>| match k {
            Some(v) => Some(v@),
            None => None,
        })) {
            Ok(v) => r matches Ok(out) && out@.map_values(|o: OrderedRecord| (o.position, o.key@)) == v,
            Err(p) => r == Err::<Vec<OrderedRecord>, JoinError>(JoinError::Invalid(p)),
        },
{
    let ghost kv = keys@.map_values(|k: Option<Vec<u64>>| match k {
        Some(v) => Some(v@),
        None => None,
    });
    let mut by_number: HashMap<usize, usize> = HashMap::new();
    let mut p: usize = 0;
    while p < numbers.len()
        invariant
            p <= numbers@.len(),
            forall|n: usize| #[trigger] by_number@.contains_key(n) <==> last_position(numbers@.subrange(0, p as int), n) is Some,
            forall|n: usize| by_number@.contains_key(n) ==> Some(#[trigger] by_number@[n]) == last_position(numbers@.subrange(0, p as int), n),
        decreases numbers.len() - p,
    {
        proof {
            assert(numbers@.subrange(0, p + 1).drop_last() =~= numbers@.subrange(0, p as int));
        }
        by_number.insert(numbers[p], p);
        p += 1;
    }
    assert(numbers@.subrange(0, numbers@.len() as int) =~= numbers@);
    let count = numbers.len();
    let mut out: Vec<OrderedRecord> = Vec::new();
    let mut i: usize = 0;
    assert(out@.map_values(|o: OrderedRecord| (o.position, o.key@)) =~= Seq::<(usize, Seq<u64>)>::empty());
    assert(order@.subrange(0, 0).len() == 0);
    while i < order.len()
        invariant
            kv == keys@.map_values(|k: Option<Vec<u64>>| match k {
                Some(v) => Some(v@),
                None => None,
            }),
            keys@.len() == numbers@.len(),
            numbers@.len() <= usize::MAX,
            i <= order@.len(),
            forall|n: usize| #[trigger] by_number@.contains_key(n) <==> last_position(numbers@, n) is Some,
            forall|n: usize| by_number@.contains_key(n) ==> Some(#[trigger] by_number@[n]) == last_position(numbers@, n),
            ordered_from(numbers@, order@.subrange(0, i as int), kv) == Ok::<Seq<(usize, Seq<u64>)>, JoinProblem>(
                out@.map_values(|o: OrderedRecord| (o.position, o.key@)),
            ),
        decreases order.len() - i,
    {
        proof {
            assert(order@.subrange(0, i + 1).drop_last() =~= order@.subrange(0, i as int));
            lemma_last_position_bound(numbers@, order@[i as int]);
        }
        let number = order[i];
        let position = match by_number.get(&number) {
            Some(p) => *p,
            None => {
                proof {
                    assert(ordered_from(numbers@, order@.subrange(0, i + 1), kv) == Err::<Seq<(usize, Seq<u64>)>, JoinProblem>(
                        JoinProblem::MissingIndexedRecord(number),
                    ));
                    lemma_missing_stays(numbers@, order@, kv, i + 1);
                }
                return Err(JoinError::Invalid(JoinProblem::MissingIndexedRecord(number)));
            },
        };
        match &keys[position] {
            Some(k) => {
                let ghost before = out@.map_values(|o: OrderedRecord| (o.position, o.key@));
                out.push(OrderedRecord { position, key: k.clone() });
                assert(out@.map_values(|o: OrderedRecord| (o.position, o.key@)) =~= before.push((position, k@)));
            },
            None => {},
        }
        i += 1;
    }
    assert(order@.subrange(0, order@.len() as int) =~= order@);
    Ok(out)
}

/// Once an indexed record is missing, the layout of every longer prefix fails the same way.
proof fn lemma_missing_stays(numbers: Seq<usize>, order: Seq<usize>, keys: Seq<Option<Seq<u64>>>, k: int)
    requires
        0 <= k <= order.len(),
        ordered_from(numbers, order.subrange(0, k), keys) is Err,
    ensures
        ordered_from(numbers, order, keys) == ordered_from(numbers, order.subrange(0, k), keys),
    decreases order.len() - k,
{
    if k < order.len() {
        assert(order.subrange(0, k + 1).drop_last() =~= order.subrange(0, k));
        lemma_missing_stays(numbers, order, keys, k + 1);
    } else {
        assert(order.subrange(0, k) =~= order);
    }
}

/// `a` is laid out before `b` on a side without an index: by key, then by
/// table position.
pub open spec fn laid_before(a: (usize, Seq<u64>), b: (usize, Seq<u64>)) -> bool {
    key_less(a.1, b.1) || (a.1 == b.1 && a.0 < b.0)
}

/// The table positions and keys of records, in order.
pub open spec fn pairs_of(s: Seq<OrderedRecord>) -> Seq<(usize, Seq<u64>)> {
    s.map_values(|o: OrderedRecord| (o.position, o.key@))
}

/// The record at table position `p` has merge key `key`.
pub open spec fn has_key(keys: Seq<Option<Vec<u64>>>, p: int, key: Seq<u64>) -> bool {
    &&& 0 <= p < keys.len()
    &&& keys[p] matches Some(k) && k@ == key
}

/// Lays out the side of a merge join that has no index: the records that
/// have a merge key, in key order, records with equal keys in table order.
/// `keys` are the records' merge keys in table order, absent where a key
/// field is missing or not a scalar.
pub fn ordered_left(keys: &Vec<Option<Vec<u64>>>) -> (r: Vec<OrderedRecord>)
    ensures
        forall|i: int, j: int| 0 <= i < j < r@.len() ==> laid_before(#[trigger] pairs_of(r@)[i], #[trigger] pairs_of(r@)[j]),
        forall|i: int| 0 <= i < r@.len() ==> has_key(keys@, (#[trigger] r@[i]).position as int, r@[i].key@),
        forall|p: int| 0 <= p < keys@.len() && #[trigger] keys@[p] is Some ==> exists|i: int| 0 <= i < r@.len() && (#[trigger] r@[i]).position == p,
        keys_sorted(keys_of(r@)),
        forall|i: int, j: int| 0 <= i < j < r@.len() ==> (#[trigger] r@[i]).position != (#[trigger] r@[j]).position,
{
    let mut out: Vec<OrderedRecord> = Vec::new();
    let mut p: usize = 0;
    while p < keys.len()
        invariant
            p <= keys@.len(),
            forall|i: int, j: int| 0 <= i < j < out@.len() ==> laid_before(#[trigger] pairs_of(out@)[i], #[trigger] pairs_of(out@)[j]),
            forall|i: int| 0 <= i < out@.len() ==> (#[trigger] out@[i]).position < p && has_key(keys@, out@[i].position as int, out@[i].key@),
            forall|q: int| 0 <= q < p && #[trigger] keys@[q] is Some ==> exists|i: int| 0 <= i < out@.len() && (#[trigger] out@[i]).position == q,
        decreases keys.len() - p,
    {
        match &keys[p] {
            Some(k) => {
                let mut idx: usize = 0;
                while idx < out.len() && compare_keys(k, &out[idx].key) != KeyOrder::Less
                    invariant
                        idx <= out@.len(),
                        forall|j: int| 0 <= j < idx ==> !key_less(k@, (#[trigger] out@[j]).key@),
                    decreases out.len() - idx,
                {
                    idx += 1;
                }
                let ghost old_out = out@;
                let ghost old_pairs = pairs_of(out@);
                out.insert(idx, OrderedRecord { position: p, key: k.clone() });
                proof {
                    let x = (p, k@);
                    assert(pairs_of(out@) =~= old_pairs.insert(idx as int, x));
                    assert forall|i: int, j: int| 0 <= i < j < out@.len() implies laid_before(
                        #[trigger] pairs_of(out@)[i],
                        #[trigger] pairs_of(out@)[j],
                    ) by {
                        let np = pairs_of(out@);
                        if j < idx {
                            assert(np[i] == old_pairs[i] && np[j] == old_pairs[j]);
                        } else if i > idx {
                            assert(np[i] == old_pairs[i - 1] && np[j] == old_pairs[j - 1]);
                        } else if j == idx {
                            assert(np[i] == old_pairs[i]);
                            assert(!key_less(k@, old_out[i].key@));
                            lemma_key_trichotomy(k@, old_pairs[i].1);
                        } else if i == idx {
                            assert(np[j] == old_pairs[j - 1]);
                            assert(key_less(k@, old_out[idx as int].key@));
                            if j - 1 > idx {
                                assert(laid_before(old_pairs[idx as int], old_pairs[j - 1]));
                                if key_less(old_pairs[idx as int].1, old_pairs[j - 1].1) {
                                    lemma_key_transitive(k@, old_pairs[idx as int].1, old_pairs[j - 1].1);
                                }
                            }
                        } else {
                            assert(i < idx && j > idx);
                            assert(np[i] == old_pairs[i] && np[j] == old_pairs[j - 1]);
                        }
                    }
                    assert forall|i: int| 0 <= i < out@.len() implies (#[trigger] out@[i]).position < p + 1 && has_key(
                        keys@,
                        out@[i].position as int,
                        out@[i].key@,
                    ) by {
                        if i < idx {
                            assert(out@[i] == old_out[i]);
                        } else if i > idx {
                            assert(out@[i] == old_out[i - 1]);
                        }
                    }
                    assert forall|q: int| 0 <= q < p + 1 && #[trigger] keys@[q] is Some implies exists|i: int|
                        0 <= i < out@.len() && (#[trigger] out@[i]).position == q by {
                        if q == p {
                            assert(out@[idx as int].position == q);
                        } else {
                            let i0 = choose|i: int| 0 <= i < old_out.len() && (#[trigger] old_out[i]).position == q;
                            if i0 < idx {
                                assert(out@[i0] == old_out[i0]);
                            } else {
                                assert(out@[i0 + 1] == old_out[i0]);
                            }
                        }
                    }
                }
            },
            None => {},
        }
        p += 1;
    }
    proof {
        assert forall|i: int, j: int| 0 <= i < j < keys_of(out@).len() implies !key_less(
            #[trigger] keys_of(out@)[j],
            #[trigger] keys_of(out@)[i],
        ) by {
            assert(laid_before(pairs_of(out@)[i], pairs_of(out@)[j]));
            lemma_key_trichotomy(out@[i].key@, out@[j].key@);
        }
        assert forall|i: int, j: int| 0 <= i < j < out@.len() implies (#[trigger] out@[i]).position != (#[trigger] out@[j]).position by {
            assert(laid_before(pairs_of(out@)[i], pairs_of(out@)[j]));
            if out@[i].position == out@[j].position {
                assert(has_key(keys@, out@[i].position as int, out@[i].key@));
                assert(has_key(keys@, out@[j].position as int, out@[j].key@));
                lemma_key_trichotomy(out@[i].key@, out@[j].key@);
            }
        }
    }
    out
}

/// The table positions of a run of index-ordered records.
pub fn run_positions(records: &Vec<OrderedRecord>, start: usize, end: usize) -> (r: Vec<usize>)
    requires
        start <= end <= records@.len(),
    ensures
        r@ == records@.subrange(start as int, end as int).map_values(|o: OrderedRecord| o.position),
{
    let mut out: Vec<usize> = Vec::new();
    let mut i = start;
    while i < end
        invariant
            start <= i <= end <= records@.len(),
            out@ == records@.subrange(start as int, i as int).map_values(|o: OrderedRecord| o.position),
        decreases end - i,
    {
        out.push(records[i].position);
        assert(records@.subrange(start as int, i + 1) =~= records@.subrange(start as int, i as int).push(records@[i as int]));
        assert(out@ =~= records@.subrange(start as int, i + 1).map_values(|o: OrderedRecord| o.position));
        i += 1;
    }
    out
}

/// A merge join serves every equality join but full and cross joins.
pub fn check_merge_kind(kind: JoinType) -> (r: Result<(), JoinError>)
    ensures
        kind == JoinType::Full ==> r == Err::<(), JoinError>(JoinError::Invalid(JoinProblem::MergeFullJoin)),
        kind == JoinType::Cross ==> r == Err::<(), JoinError>(JoinError::Invalid(JoinProblem::MergeCrossJoin)),
        kind != JoinType::Full && kind != JoinType::Cross ==> r is Ok,
{
    match kind {
        JoinType::Full => Err(JoinError::Invalid(JoinProblem::MergeFullJoin)),
        JoinType::Cross => Err(JoinError::Invalid(JoinProblem::MergeCrossJoin)),
        _ => Ok(()),
    }
}

} // verus!
