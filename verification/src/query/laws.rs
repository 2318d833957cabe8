//! Properties of joins, pages, and streams that span their steps.
use vstd::prelude::*;
use vstd::relations::sorted_by;
use super::join::JoinType;
use super::join_plan::{count_key, driving_rows_of, estimated_rows, lemma_count_bound, match_count, matched_total, positions_of};
use super::join_rows::{
    driven_rows, key_matches, lemma_driven_prefix, lemma_unmatched_prefix, merge_driver_rows, merge_rows,
    nested_driver_rows, nested_rows, run_of, unmatched_right_rows,
};
use super::pagination::{
    after, ascending, lemma_usize_le_total, physical_cursor_text, physical_page_of, sorted_window, take_at_most, to_usize, usize_le,
};
use super::request::QueryRequest;
use super::request::{physical_cursor, snapshot_error, CursorText, PhysicalCursorDoc};
use super::stream::{RecordVerdict, StreamAction, StreamView, examined, exhausted};
use super::join_merge::KeyOrder;
use super::ordering::{all_reversed, reversed, sort_order};

verus! {

/// The positions grouped under a key are exactly the records that carry
/// it, in ascending table order.
pub proof fn law_positions_are_the_matching_records(keys: Seq<Option<u64>>, k: u64)
    requires
        keys.len() <= usize::MAX,
    ensures
        forall|j: int| 0 <= j < keys.len() ==> (positions_of(keys, k).contains(j as usize) <==> keys[j] == Some(k)),
        forall|i: int| 0 <= i < positions_of(keys, k).len() ==> {
            &&& (#[trigger] positions_of(keys, k)[i]) < keys.len()
            &&& keys[positions_of(keys, k)[i] as int] == Some(k)
        },
        forall|a: int, b: int| 0 <= a < b < positions_of(keys, k).len() ==> #[trigger] positions_of(keys, k)[a]
            < #[trigger] positions_of(keys, k)[b],
    decreases keys.len(),
{
    if keys.len() > 0 {
        let d = keys.drop_last();
        law_positions_are_the_matching_records(d, k);
        let p = positions_of(keys, k);
        let q = positions_of(d, k);
        assert forall|i: int| 0 <= i < q.len() implies p[i] == q[i] by {}
        assert forall|j: int| 0 <= j < keys.len() implies (p.contains(j as usize) <==> keys[j] == Some(k)) by {
            if j < d.len() {
                assert(keys[j] == d[j]);
                if p.contains(j as usize) {
                    let w = choose|w: int| 0 <= w < p.len() && p[w] == j as usize;
                    if w < q.len() {
                        assert(q.contains(j as usize));
                    }
                }
                if q.contains(j as usize) {
                    let w = choose|w: int| 0 <= w < q.len() && q[w] == j as usize;
                    assert(p[w] == j as usize);
                }
            } else {
                if keys[j] == Some(k) {
                    assert(p[p.len() - 1] == j as usize);
                } else if p.contains(j as usize) {
                    let w = choose|w: int| 0 <= w < p.len() && p[w] == j as usize;
                    assert(q[w] < d.len());
                }
            }
        }
        assert forall|i: int| 0 <= i < p.len() implies {
            &&& (#[trigger] p[i]) < keys.len()
            &&& keys[p[i] as int] == Some(k)
        } by {
            if i < q.len() {
                assert(keys[q[i] as int] == d[q[i] as int]);
            }
        }
    }
}

/// An inner join pairs each left record with exactly the right records
/// that share its key, in right table order.
pub proof fn law_inner_join_rows_pair_equal_keys(position: usize, right: Seq<Option<u64>>, k: u64)
    requires
        right.len() <= usize::MAX,
    ensures
        ({
            let rows = driving_rows_of(JoinType::Inner, position, positions_of(right, k));
            &&& rows.len() == positions_of(right, k).len()
            &&& forall|i: int| 0 <= i < rows.len() ==> {
                &&& (#[trigger] rows[i]).0 == Some(position)
                &&& rows[i].1 matches Some(j) && j < right.len() && right[j as int] == Some(k)
            }
            &&& forall|j: int| 0 <= j < right.len() && right[j] == Some(k) ==> rows.contains((Some(position), Some(j as usize)))
        }),
{
    law_positions_are_the_matching_records(right, k);
    let m = positions_of(right, k);
    let rows = driving_rows_of(JoinType::Inner, position, m);
    assert forall|j: int| 0 <= j < right.len() && right[j] == Some(k) implies rows.contains((Some(position), Some(j as usize))) by {
        assert(m.contains(j as usize));
        let w = choose|w: int| 0 <= w < m.len() && m[w] == j as usize;
        assert(rows[w] == (Some(position), Some(j as usize)));
    }
}

/// A semi join and an anti join of the same inputs split the left table:
/// their estimates add up to its record count.
pub proof fn law_semi_and_anti_split_the_left_side(left: Seq<Option<u64>>, right: Seq<Option<u64>>)
    requires
        left.len() <= usize::MAX,
    ensures
        estimated_rows(left, right, JoinType::Semi) + estimated_rows(left, right, JoinType::Anti) == left.len(),
{
    lemma_matched_within(left, right);
}

proof fn lemma_matched_within(keys: Seq<Option<u64>>, other: Seq<Option<u64>>)
    ensures
        matched_total(keys, other) <= keys.len(),
    decreases keys.len(),
{
    if keys.len() > 0 {
        lemma_matched_within(keys.drop_last(), other);
    }
}

/// A stream never yields past its limit, and yields a match only once it
/// has skipped as many matches as asked.
pub proof fn law_stream_respects_skip_and_limit(s: StreamView, verdict: RecordVerdict)
    requires
        !exhausted(s),
        s.position < usize::MAX,
        s.yielded + s.skipped <= s.position,
    ensures
        s.limit matches Some(l) ==> examined(s, verdict).0.yielded <= l,
        examined(s, verdict).1 == StreamAction::Yield ==> s.skipped >= s.skip && verdict == RecordVerdict::Matched,
        examined(s, verdict).1 == StreamAction::Yield ==> examined(s, verdict).0.yielded == s.yielded + 1,
        examined(s, verdict).1 != StreamAction::Yield ==> examined(s, verdict).0.yielded == s.yielded,
{
}

/// The numbers kept after a cursor are ascending and all above it.
pub proof fn law_pages_after_a_cursor_ascend_above_it(numbers: Seq<usize>, cursor: usize)
    ensures
        sorted_by(after(ascending(numbers), cursor), usize_le()),
        forall|i: int| 0 <= i < after(ascending(numbers), cursor).len() ==> #[trigger] after(ascending(numbers), cursor)[i] > cursor,
{
    lemma_usize_le_total();
    numbers.lemma_sort_by_ensures(usize_le());
    lemma_filter_keeps_order(ascending(numbers), cursor);
}

proof fn lemma_filter_keeps_order(s: Seq<usize>, cursor: usize)
    requires
        sorted_by(s, usize_le()),
    ensures
        sorted_by(after(s, cursor), usize_le()),
        forall|i: int| 0 <= i < after(s, cursor).len() ==> #[trigger] after(s, cursor)[i] > cursor,
        forall|i: int| 0 <= i < after(s, cursor).len() ==> s.contains(#[trigger] after(s, cursor)[i]),
    decreases s.len(),
{
    reveal_with_fuel(Seq::filter, 1);
    if s.len() > 0 {
        let d = s.drop_last();
        assert(sorted_by(d, usize_le()));
        lemma_filter_keeps_order(d, cursor);
        let f = after(d, cursor);
        assert forall|i: int| 0 <= i < f.len() implies s.contains(#[trigger] f[i]) by {
            let w = choose|w: int| 0 <= w < d.len() && d[w] == f[i];
            assert(s[w] == f[i]);
        }
        if s.last() > cursor {
            assert forall|i: int| 0 <= i < f.len() implies #[trigger] f[i] <= s.last() by {
                let w = choose|w: int| 0 <= w < d.len() && d[w] == f[i];
                assert((usize_le())(s[w], s[s.len() - 1]));
            }
            assert(after(s, cursor) == f.push(s.last()));
        }
    }
}

/// Whether some row carries the left record at position `i`.
pub open spec fn keeps_left(rows: Seq<(Option<usize>, Option<usize>)>, i: int) -> bool {
    exists|k: int| 0 <= k < rows.len() && (#[trigger] rows[k]).0 == Some(i as usize)
}

/// Whether some row carries the right record at position `j`.
pub open spec fn keeps_right(rows: Seq<(Option<usize>, Option<usize>)>, j: int) -> bool {
    exists|k: int| 0 <= k < rows.len() && (#[trigger] rows[k]).1 == Some(j as usize)
}

/// A full join keeps every record of both sides: each left record and each
/// right record appears in at least one of its rows.
pub proof fn law_full_join_keeps_every_record(left: Seq<Option<u64>>, right: Seq<Option<u64>>)
    requires
        left.len() <= usize::MAX,
        right.len() <= usize::MAX,
    ensures
        forall|i: int| 0 <= i < left.len() ==> #[trigger] keeps_left(nested_rows(JoinType::Full, left, right), i),
        forall|j: int| 0 <= j < right.len() ==> #[trigger] keeps_right(nested_rows(JoinType::Full, left, right), j),
{
    let rows = nested_rows(JoinType::Full, left, right);
    let all = driven_rows(JoinType::Full, left, right, left.len());
    let tail = unmatched_right_rows(left, right, right.len());
    assert(rows == all + tail);
    assert forall|i: int| 0 <= i < left.len() implies #[trigger] keeps_left(rows, i) by {
        let k = lemma_left_row(left, right, i);
        assert(rows[k] == all[k]);
    }
    assert forall|j: int| 0 <= j < right.len() implies #[trigger] keeps_right(rows, j) by {
        match right[j] {
            Some(key) if count_key(left, key) > 0 => {
                lemma_count_bound(left, key);
                law_positions_are_the_matching_records(left, key);
                let i = positions_of(left, key)[0] as int;
                let k = lemma_matched_right_row(left, right, i, j, key);
                assert(rows[k] == all[k]);
            },
            _ => {
                let k = lemma_unmatched_right_row(left, right, j);
                assert(rows[all.len() + k] == tail[k]);
            },
        }
    }
}

/// The first row of a left record of a full join is at the end of the rows
/// of the records before it, and carries that record.
proof fn lemma_left_row(left: Seq<Option<u64>>, right: Seq<Option<u64>>, i: int) -> (k: int)
    requires
        0 <= i < left.len(),
        left.len() <= usize::MAX,
    ensures
        0 <= k < driven_rows(JoinType::Full, left, right, left.len()).len(),
        driven_rows(JoinType::Full, left, right, left.len())[k].0 == Some(i as usize),
{
    let before = driven_rows(JoinType::Full, left, right, i as nat);
    let through = driven_rows(JoinType::Full, left, right, (i + 1) as nat);
    let own = nested_driver_rows(JoinType::Full, left, right, i);
    assert(through == before + own);
    assert(own.len() > 0 && own[0].0 == Some(i as usize));
    lemma_driven_prefix(JoinType::Full, left, right, (i + 1) as nat, left.len());
    let all = driven_rows(JoinType::Full, left, right, left.len());
    assert(all.subrange(0, through.len() as int)[before.len() as int] == through[before.len() as int]);
    before.len() as int
}

/// A right record that some left record matches appears in that record's rows.
proof fn lemma_matched_right_row(left: Seq<Option<u64>>, right: Seq<Option<u64>>, i: int, j: int, key: u64) -> (k: int)
    requires
        0 <= i < left.len(),
        0 <= j < right.len(),
        left.len() <= usize::MAX,
        right.len() <= usize::MAX,
        left[i] == Some(key),
        right[j] == Some(key),
    ensures
        0 <= k < driven_rows(JoinType::Full, left, right, left.len()).len(),
        driven_rows(JoinType::Full, left, right, left.len())[k].1 == Some(j as usize),
{
    law_positions_are_the_matching_records(right, key);
    let m = key_matches(left[i], right);
    assert(m == positions_of(right, key));
    assert(m.contains(j as usize));
    let w = choose|w: int| 0 <= w < m.len() && m[w] == j as usize;
    let before = driven_rows(JoinType::Full, left, right, i as nat);
    let through = driven_rows(JoinType::Full, left, right, (i + 1) as nat);
    let own = nested_driver_rows(JoinType::Full, left, right, i);
    assert(own == m.map_values(|p: usize| (Some(i as usize), Some(p))));
    assert(own[w] == (Some(i as usize), Some(j as usize)));
    assert(through == before + own);
    lemma_driven_prefix(JoinType::Full, left, right, (i + 1) as nat, left.len());
    let all = driven_rows(JoinType::Full, left, right, left.len());
    assert(through[before.len() + w] == own[w]);
    assert(all.subrange(0, through.len() as int)[before.len() + w] == through[before.len() + w]);
    before.len() + w
}

/// A right record that no left record matches has a row of its own in the
/// tail of a full join.
proof fn lemma_unmatched_right_row(left: Seq<Option<u64>>, right: Seq<Option<u64>>, j: int) -> (k: int)
    requires
        0 <= j < right.len(),
        right.len() <= usize::MAX,
        match_count(right[j], left) == 0,
    ensures
        0 <= k < unmatched_right_rows(left, right, right.len()).len(),
        unmatched_right_rows(left, right, right.len())[k] == (None::<usize>, Some(j as usize)),
{
    let now = unmatched_right_rows(left, right, j as nat);
    let next = unmatched_right_rows(left, right, (j + 1) as nat);
    assert(next == now.push((None::<usize>, Some(j as usize))));
    lemma_unmatched_prefix(left, right, (j + 1) as nat, right.len());
    let tail = unmatched_right_rows(left, right, right.len());
    assert(tail.subrange(0, next.len() as int)[now.len() as int] == next[now.len() as int]);
    now.len() as int
}

/// A merge join whose runs hold each driving record's matches in table
/// order yields exactly the rows of the nested-loop join of the same kind.
pub proof fn law_merge_rows_are_the_nested_rows(
    kind: JoinType,
    driver: Seq<Option<u64>>,
    other_keys: Seq<Option<u64>>,
    runs: Seq<Option<(usize, usize)>>,
    other: Seq<usize>,
)
    requires
        kind != JoinType::Full && kind != JoinType::Cross,
        runs.len() == driver.len(),
        driver.len() <= usize::MAX,
        forall|p: int| 0 <= p < driver.len() ==> #[trigger] run_of(other, runs[p]) == if key_matches(
            driver[p],
            other_keys,
        ).len() > 0 {
            Some(key_matches(driver[p], other_keys))
        } else {
            None
        },
    ensures
        merge_rows(kind, runs, other, runs.len()) == driven_rows(kind, driver, other_keys, driver.len()),
        kind != JoinType::Right ==> merge_rows(kind, runs, other, runs.len()) == nested_rows(kind, driver, other_keys),
        kind == JoinType::Right ==> merge_rows(kind, runs, other, runs.len()) == nested_rows(kind, other_keys, driver),
{
    lemma_merge_prefix_rows(kind, driver, other_keys, runs, other, driver.len());
}

proof fn lemma_merge_prefix_rows(
    kind: JoinType,
    driver: Seq<Option<u64>>,
    other_keys: Seq<Option<u64>>,
    runs: Seq<Option<(usize, usize)>>,
    other: Seq<usize>,
    n: nat,
)
    requires
        kind != JoinType::Full && kind != JoinType::Cross,
        runs.len() == driver.len(),
        n <= driver.len() <= usize::MAX,
        forall|p: int| 0 <= p < driver.len() ==> #[trigger] run_of(other, runs[p]) == if key_matches(
            driver[p],
            other_keys,
        ).len() > 0 {
            Some(key_matches(driver[p], other_keys))
        } else {
            None
        },
    ensures
        merge_rows(kind, runs, other, n) == driven_rows(kind, driver, other_keys, n),
    decreases n,
{
    if n > 0 {
        lemma_merge_prefix_rows(kind, driver, other_keys, runs, other, (n - 1) as nat);
        let p = n - 1;
        let km = key_matches(driver[p], other_keys);
        let run = run_of(other, runs[p]);
        assert(run == if km.len() > 0 { Some(km) } else { None });
        let a = merge_driver_rows(kind, p as usize, run);
        let b = nested_driver_rows(kind, driver, other_keys, p);
        assert(b == driving_rows_of(kind, p as usize, km));
        if km.len() == 0 {
            assert(km.map_values(|m: usize| (Some(p as usize), Some(m))) =~= Seq::<(Option<usize>, Option<usize>)>::empty());
        }
        assert(a =~= b);
    }
}

/// Comparing two records the other way round reverses their order: with
/// every key order reversed and the two record numbers swapped, the sorted
/// order is the reverse of the original.
pub proof fn law_sort_order_reverses_when_sides_swap(orders: Seq<KeyOrder>, directions: Seq<i8>, left: usize, right: usize)
    ensures
        sort_order(all_reversed(orders), directions, right, left) == reversed(sort_order(orders, directions, left, right)),
    decreases orders.len(),
{
    if orders.len() > 0 && directions.len() > 0 {
        assert(all_reversed(orders)[0] == reversed(orders[0]));
        if orders[0] == KeyOrder::Equal {
            assert(all_reversed(orders).drop_first() =~= all_reversed(orders.drop_first()));
            law_sort_order_reverses_when_sides_swap(orders.drop_first(), directions.drop_first(), left, right);
        }
    }
}

/// Two records compare equal under a sort only when they are the same
/// record: the physical record number breaks every tie.
pub proof fn law_sort_order_ties_only_for_one_record(orders: Seq<KeyOrder>, directions: Seq<i8>, left: usize, right: usize)
    ensures
        sort_order(orders, directions, left, right) == KeyOrder::Equal ==> left == right,
    decreases orders.len(),
{
    if orders.len() > 0 && directions.len() > 0 && orders[0] == KeyOrder::Equal {
        law_sort_order_ties_only_for_one_record(orders.drop_first(), directions.drop_first(), left, right);
    }
}

/// A physical cursor that a page issued resumes after its record under the
/// table snapshot it was issued for, and is refused under any other.
pub proof fn law_issued_physical_cursor_is_bound_to_its_snapshot(c: CursorText, record: usize, snapshot: u64, current: u64)
    requires
        c.text@ == physical_cursor_text(record, snapshot),
        c.physical == Ok::<PhysicalCursorDoc, String>(PhysicalCursorDoc { version: 1, record, snapshot: Some(snapshot) }),
    ensures
        physical_cursor(c) == Ok::<(usize, Option<u64>), super::request::QueryProblem>((record, Some(snapshot))),
        snapshot_error(Some(snapshot), current) is None <==> current == snapshot,
{
    reveal_strlit("{\"version\":1,\"record\":");
    let prefix = "{\"version\":1,\"record\":"@;
    assert(c.text@[0] == prefix[0]);
    assert(!crate::text::is_digit(c.text@[0]));
}

/// The records of a sorted result that sort after the cursor record `c`,
/// in their order, as `order` compares two records.
pub open spec fn kept_after(records: Seq<usize>, order: spec_fn(usize, usize) -> KeyOrder, c: usize) -> Seq<usize> {
    records.filter(|x: usize| order(x, c) == KeyOrder::Greater)
}

/// Filtering keeps a sequence whole when every item passes.
proof fn lemma_filter_keeps_all(s: Seq<usize>, pred: spec_fn(usize) -> bool)
    requires
        forall|i: int| 0 <= i < s.len() ==> pred(#[trigger] s[i]),
    ensures
        s.filter(pred) == s,
    decreases s.len(),
{
    reveal(Seq::filter);
    if s.len() > 0 {
        lemma_filter_keeps_all(s.drop_last(), pred);
        assert(s.drop_last().push(s.last()) =~= s);
    }
}

/// A sorted page's cursor resumes right after the page: over records in
/// sort order, where the order is strict along the sequence and a record
/// ties only with itself, the records that sort after the last record of a
/// full first page are exactly the records after that page, so the next
/// page continues the first without overlap or gap.
pub proof fn law_sorted_cursor_resumes_after_the_page(
    records: Seq<usize>,
    order: spec_fn(usize, usize) -> KeyOrder,
    r: QueryRequest,
)
    requires
        r.page_size is Some,
        r.page_size.unwrap() as usize > 0,
        r.limit is None,
        forall|i: int, j: int| 0 <= i < j < records.len() ==> order(#[trigger] records[i], #[trigger] records[j]) == KeyOrder::Less
            && order(records[j], records[i]) == KeyOrder::Greater,
        forall|i: int| 0 <= i < records.len() ==> order(#[trigger] records[i], records[i]) == KeyOrder::Equal,
        sorted_window(records, r).1,
    ensures
        ({
            let first = sorted_window(records, r).0;
            let rest = kept_after(records, order, first.last());
            let n = first.len();
            &&& rest == records.skip(n as int)
            &&& first + sorted_window(rest, r).0 == records.take(if 2 * n < records.len() { (2 * n) as int } else { records.len() as int })
        }),
{
    let page = r.page_size.unwrap() as usize;
    let first = sorted_window(records, r).0;
    assert(first =~= records.subrange(0, page as int));
    let c = first.last();
    assert(c == records[page - 1]);
    let pred = |x: usize| order(x, c) == KeyOrder::Greater;
    let head = records.take(page as int);
    let tail = records.skip(page as int);
    assert(records =~= head + tail);
    Seq::filter_distributes_over_add(head, tail, pred);
    assert forall|i: int| 0 <= i < head.len() implies !pred(#[trigger] head[i]) by {
        assert(head[i] == records[i]);
        if i < page - 1 {
            assert(order(records[i], records[page - 1]) == KeyOrder::Less);
        }
    }
    head.lemma_all_neg_filter_empty(pred);
    assert forall|i: int| 0 <= i < tail.len() implies pred(#[trigger] tail[i]) by {
        assert(tail[i] == records[page + i]);
        assert(order(records[page - 1], records[page + i]) == KeyOrder::Less);
    }
    lemma_filter_keeps_all(tail, pred);
    assert(head.filter(pred) =~= Seq::<usize>::empty());
    assert(kept_after(records, order, c) =~= tail);
    let second = sorted_window(tail, r).0;
    let m = if 2 * page < records.len() { 2 * page } else { records.len() as int };
    assert(first + second =~= records.take(m));
}

/// A limit caps a page: the page that a request with a limit of `l` yields
/// is the first `l` records of the page that the same request without a
/// limit yields, paginated or not.
pub proof fn law_limit_caps_the_page(
    numbers: Seq<usize>,
    r: QueryRequest,
    l: u64,
    cursor_record: Option<usize>,
    snapshot: u64,
)
    requires
        r.limit == Some(l),
        r.cursor is Some ==> r.page_size is Some,
    ensures
        physical_page_of(numbers, r, cursor_record, snapshot).0 == take_at_most(
            physical_page_of(numbers, QueryRequest { limit: None, ..r }, cursor_record, snapshot).0,
            to_usize(l),
        ),
        physical_page_of(numbers, r, cursor_record, snapshot).0.len() <= to_usize(l),
{
    let n = to_usize(l);
    let unlimited = QueryRequest { limit: None, ..r };
    let capped = physical_page_of(numbers, r, cursor_record, snapshot).0;
    let full = physical_page_of(numbers, unlimited, cursor_record, snapshot).0;
    if r.page_size is None && r.cursor is None {
    } else {
        let sorted = ascending(numbers);
        let kept = match cursor_record {
            Some(c) => after(sorted, c),
            None => sorted,
        };
        let page = r.page_size.unwrap() as usize;
        let limited = take_at_most(kept, n);
        assert(capped == if limited.len() > page { limited.subrange(0, page as int) } else { limited });
        assert(full == if kept.len() > page { kept.subrange(0, page as int) } else { kept });
        assert(capped =~= take_at_most(full, n));
    }
}

/// A paginated page holds at most its page size of records, and no more
/// than the limit; a page that a cursor continues is full.
pub proof fn law_pages_hold_at_most_page_size_and_limit(
    numbers: Seq<usize>,
    r: QueryRequest,
    cursor_record: Option<usize>,
    snapshot: u64,
)
    requires
        r.page_size is Some,
    ensures
        physical_page_of(numbers, r, cursor_record, snapshot).0.len() <= r.page_size.unwrap(),
        r.limit matches Some(l) ==> physical_page_of(numbers, r, cursor_record, snapshot).0.len() <= to_usize(l),
        physical_page_of(numbers, r, cursor_record, snapshot).1 is Some ==> physical_page_of(
            numbers,
            r,
            cursor_record,
            snapshot,
        ).0.len() == r.page_size.unwrap() as usize,
{
    if let Some(l) = r.limit {
        law_limit_caps_the_page(numbers, r, l, cursor_record, snapshot);
    }
}

/// A limit caps a sorted page in the same way: the page with a limit of
/// `l` is the first `l` records of the page without one, and holds at most
/// the page size.
pub proof fn law_limit_caps_the_sorted_page(after_cursor: Seq<usize>, r: QueryRequest, l: u64)
    requires
        r.limit == Some(l),
        r.page_size is Some,
    ensures
        sorted_window(after_cursor, r).0 == take_at_most(sorted_window(after_cursor, QueryRequest { limit: None, ..r }).0, to_usize(l)),
        sorted_window(after_cursor, r).0.len() <= to_usize(l),
        sorted_window(after_cursor, r).0.len() <= r.page_size.unwrap() as usize,
        sorted_window(after_cursor, r).1 ==> sorted_window(after_cursor, r).0.len() == r.page_size.unwrap() as usize,
{
    let n = to_usize(l);
    let page = r.page_size.unwrap() as usize;
    let limited = take_at_most(after_cursor, n);
    let capped = sorted_window(after_cursor, r).0;
    let full = sorted_window(after_cursor, QueryRequest { limit: None, ..r }).0;
    assert(capped == if limited.len() > page { limited.subrange(0, page as int) } else { limited });
    assert(full == if after_cursor.len() > page { after_cursor.subrange(0, page as int) } else { after_cursor });
    assert(capped =~= take_at_most(full, n));
}

} // verus!
