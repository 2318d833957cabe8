//! One page of a query in sort order: the records that sort after the
//! cursor, under the declared sort with the physical record number breaking
//! ties, cut at the limit and the page size, and the cursor that continues
//! after the page's last record.
use vstd::prelude::*;
use super::filter::JsonValue;
use super::join_merge::KeyOrder;
use super::ordering::{compare_sorted, sort_order};
use super::pagination::{apply_sorted, sorted_window};
use super::projection::{JsonData, copy_value, json_of};
use super::request::{
    CursorText, QueryError, QueryProblem, QueryRequest, SortedCursorDoc, SortedCursorKey, SORTED_CURSOR_VERSION,
    snapshot_error, sorted_cursor_error, validate_cursor, validate_cursor_snapshot,
};

verus! {

/// A record in sort order: its physical record number and, for each sort
/// field in turn, the value that the field holds in it (none where the
/// record lacks the field).
pub struct SortedRecord {
    pub number: usize,
    pub keys: Vec<Option<JsonValue>>,
}

/// The value that a cursor key holds: none for a field that the cursor's
/// record lacked.
pub open spec fn cursor_value(key: SortedCursorKey) -> Option<JsonValue> {
    if key.present {
        Some(key.value)
    } else {
        None
    }
}

/// A reference to an optional value.
pub open spec fn as_ref_of<'a>(v: &'a Option<JsonValue>) -> Option<&'a JsonValue> {
    match v {
        Some(x) => Some(x),
        None => None,
    }
}

/// How `compare` orders two sort values.
pub open spec fn value_order_of<C: Fn(Option<&JsonValue>, Option<&JsonValue>) -> KeyOrder>(compare: C) -> spec_fn(
    Option<JsonValue>,
    Option<JsonValue>,
) -> KeyOrder {
    |a: Option<JsonValue>, b: Option<JsonValue>| choose|o: KeyOrder| compare.ensures((as_ref_of(&a), as_ref_of(&b)), o)
}

/// `compare` may be asked of any two sort values and answers each pair one
/// way.
pub open spec fn compares_consistently<C: Fn(Option<&JsonValue>, Option<&JsonValue>) -> KeyOrder>(compare: C) -> bool {
    &&& forall|a: Option<&JsonValue>, b: Option<&JsonValue>| #[trigger] compare.requires((a, b))
    &&& forall|a: Option<&JsonValue>, b: Option<&JsonValue>, o: KeyOrder, p: KeyOrder|
        #[trigger] compare.ensures((a, b), o) && #[trigger] compare.ensures((a, b), p) ==> o == p
}

/// How a record's sort values compare with a cursor's, key by key, as far
/// as both reach.
pub open spec fn key_orders(
    keys: Seq<Option<JsonValue>>,
    cursor: Seq<SortedCursorKey>,
    order: spec_fn(Option<JsonValue>, Option<JsonValue>) -> KeyOrder,
) -> Seq<KeyOrder> {
    Seq::new(
        if keys.len() < cursor.len() { keys.len() } else { cursor.len() },
        |i: int| order(keys[i], cursor_value(cursor[i])),
    )
}

/// The directions of a sort, in order.
pub open spec fn directions_of(sort: Seq<(String, i8)>) -> Seq<i8> {
    sort.map_values(|s: (String, i8)| s.1)
}

/// Whether a record sorts after a cursor: its sort values against the
/// cursor's under the sort's directions, the record numbers breaking ties.
pub open spec fn sorts_after(
    record: SortedRecord,
    doc: SortedCursorDoc,
    sort: Seq<(String, i8)>,
    order: spec_fn(Option<JsonValue>, Option<JsonValue>) -> KeyOrder,
) -> bool {
    sort_order(key_orders(record.keys@, doc.keys@, order), directions_of(sort), record.number, doc.record)
        == KeyOrder::Greater
}

/// The positions, in order, of the first `n` records that sort after the
/// cursor.
pub open spec fn after_cursor(
    records: Seq<SortedRecord>,
    doc: SortedCursorDoc,
    sort: Seq<(String, i8)>,
    order: spec_fn(Option<JsonValue>, Option<JsonValue>) -> KeyOrder,
    n: nat,
) -> Seq<usize>
    decreases n,
{
    if n == 0 {
        Seq::empty()
    } else if sorts_after(records[n - 1], doc, sort, order) {
        after_cursor(records, doc, sort, order, (n - 1) as nat).push((n - 1) as usize)
    } else {
        after_cursor(records, doc, sort, order, (n - 1) as nat)
    }
}

/// Why a request's cursor cannot continue a sorted page of the table
/// snapshot `snapshot`, if it cannot.
pub open spec fn sorted_cursor_problem(cursor: CursorText, r: QueryRequest, snapshot: u64) -> Option<QueryProblem> {
    match cursor.sorted {
        Err(message) => Some(QueryProblem::InvalidSortedCursor(message)),
        Ok(doc) => match sorted_cursor_error(doc, r.sort@, r.collation) {
            Some(p) => Some(p),
            None => snapshot_error(doc.snapshot, snapshot),
        },
    }
}

/// Why a request cannot continue a sorted page of the table snapshot
/// `snapshot`, if it cannot: only a cursor can be at fault.
pub open spec fn sorted_page_problem(r: QueryRequest, snapshot: u64) -> Option<QueryProblem> {
    match r.cursor {
        Some(c) => sorted_cursor_problem(c, r, snapshot),
        None => None,
    }
}

/// The positions of the records that a sorted page starts from: all of
/// them without a cursor, else those that sort after it.
pub open spec fn page_candidates(
    records: Seq<SortedRecord>,
    r: QueryRequest,
    order: spec_fn(Option<JsonValue>, Option<JsonValue>) -> KeyOrder,
) -> Seq<usize> {
    match r.cursor {
        Some(c) => after_cursor(records, c.sorted->Ok_0, r.sort@, order, records.len()),
        None => Seq::new(records.len(), |i: int| i as usize),
    }
}

/// Whether `doc` is the cursor that continues after `record`: the current
/// version, the record's number, the snapshot and the request's collation,
/// and for each sort field its direction and the value that the record
/// holds (null, marked absent, where it lacks the field).
pub open spec fn continues_after(doc: SortedCursorDoc, record: SortedRecord, r: QueryRequest, snapshot: u64) -> bool {
    &&& doc.version == SORTED_CURSOR_VERSION
    &&& doc.record == record.number
    &&& doc.snapshot == Some(snapshot)
    &&& doc.collation == r.collation
    &&& doc.keys@.len() == r.sort@.len()
    &&& forall|i: int| 0 <= i < r.sort@.len() ==> {
        let k = #[trigger] doc.keys@[i];
        let v = if i < record.keys@.len() { record.keys@[i] } else { None };
        &&& k.field == r.sort@[i].0
        &&& k.direction == r.sort@[i].1
        &&& k.present == v is Some
        &&& json_of(k.value) == match v {
            Some(x) => json_of(x),
            None => JsonData::Null,
        }
    }
}

/// Builds the cursor that continues after `record`.
fn cursor_after(record: &SortedRecord, request: &QueryRequest, snapshot: u64) -> (r: SortedCursorDoc)
    ensures
        continues_after(r, *record, *request, snapshot),
{
    let mut keys: Vec<SortedCursorKey> = Vec::new();
    let mut i: usize = 0;
    while i < request.sort.len()
        invariant
            i <= request.sort@.len(),
            keys@.len() == i,
            forall|j: int| 0 <= j < i ==> {
                let k = #[trigger] keys@[j];
                let v = if j < record.keys@.len() { record.keys@[j] } else { None };
                &&& k.field == request.sort@[j].0
                &&& k.direction == request.sort@[j].1
                &&& k.present == v is Some
                &&& json_of(k.value) == match v {
                    Some(x) => json_of(x),
                    None => JsonData::Null,
                }
            },
        decreases request.sort.len() - i,
    {
        let (field, direction) = &request.sort[i];
        let key = if i < record.keys.len() {
            match &record.keys[i] {
                Some(v) => SortedCursorKey { field: field.clone(), direction: *direction, present: true, value: copy_value(v) },
                None => SortedCursorKey { field: field.clone(), direction: *direction, present: false, value: JsonValue::Null },
            }
        } else {
            SortedCursorKey { field: field.clone(), direction: *direction, present: false, value: JsonValue::Null }
        };
        keys.push(key);
        i += 1;
    }
    let collation = match &request.collation {
        Some(c) => Some(c.clone()),
        None => None,
    };
    SortedCursorDoc { version: SORTED_CURSOR_VERSION, record: record.number, keys, collation, snapshot: Some(snapshot) }
}

/// Whether a record sorts after the cursor.
fn record_after<C: Fn(Option<&JsonValue>, Option<&JsonValue>) -> KeyOrder>(
    record: &SortedRecord,
    doc: &SortedCursorDoc,
    directions: &Vec<i8>,
    compare: &C,
) -> (r: bool)
    requires
        compares_consistently(*compare),
    ensures
        r == (sort_order(key_orders(record.keys@, doc.keys@, value_order_of(*compare)), directions@, record.number, doc.record)
            == KeyOrder::Greater),
{
    let n = if record.keys.len() < doc.keys.len() { record.keys.len() } else { doc.keys.len() };
    let ghost want = key_orders(record.keys@, doc.keys@, value_order_of(*compare));
    let mut orders: Vec<KeyOrder> = Vec::new();
    let mut i: usize = 0;
    while i < n
        invariant
            i <= n,
            n == want.len(),
            want == key_orders(record.keys@, doc.keys@, value_order_of(*compare)),
            n <= record.keys@.len() && n <= doc.keys@.len(),
            compares_consistently(*compare),
            orders@ == want.subrange(0, i as int),
        decreases n - i,
    {
        let key = &doc.keys[i];
        let at_cursor: Option<&JsonValue> = if key.present { Some(&key.value) } else { None };
        let value: Option<&JsonValue> = match &record.keys[i] {
            Some(v) => Some(v),
            None => None,
        };
        let o = compare(value, at_cursor);
        proof {
            let a = record.keys@[i as int];
            let b = cursor_value(doc.keys@[i as int]);
            assert(value == as_ref_of(&a));
            assert(at_cursor == as_ref_of(&b));
            assert(compare.ensures((as_ref_of(&a), as_ref_of(&b)), o));
            assert(value_order_of(*compare)(a, b) == o);
            assert(want[i as int] == o);
        }
        orders.push(o);
        assert(orders@ =~= want.subrange(0, i + 1));
        i += 1;
    }
    assert(orders@ =~= want);
    compare_sorted(&orders, directions, record.number, doc.record) == KeyOrder::Greater
}

/// The directions of the request's sort.
fn sort_directions(sort: &Vec<(String, i8)>) -> (r: Vec<i8>)
    ensures
        r@ == directions_of(sort@),
{
    let mut out: Vec<i8> = Vec::new();
    let mut i: usize = 0;
    while i < sort.len()
        invariant
            i <= sort@.len(),
            out@ == directions_of(sort@).subrange(0, i as int),
        decreases sort.len() - i,
    {
        out.push(sort[i].1);
        assert(out@ =~= directions_of(sort@).subrange(0, i + 1));
        i += 1;
    }
    assert(out@ =~= directions_of(sort@));
    out
}

/// One page of a query in sort order. `records` are the table's matching
/// records in sort order and `compare` orders two sort values under the
/// request's collation. A cursor that does not fit the sort, the collation
/// or the table snapshot `snapshot` is refused; else the page holds the
/// positions of the records that sort after the cursor (all without one),
/// within the limit and cut at the page size, and the next cursor continues
/// after the page's last record exactly when more records follow (an empty
/// page, of page size zero, has no last record and no cursor).
pub fn apply_sorted_page<C: Fn(Option<&JsonValue>, Option<&JsonValue>) -> KeyOrder>(
    records: &Vec<SortedRecord>,
    request: &QueryRequest,
    snapshot: u64,
    compare: &C,
) -> (r: Result<(Vec<usize>, Option<SortedCursorDoc>), QueryError>)
    requires
        request.page_size is Some,
        compares_consistently(*compare),
    ensures
        match sorted_page_problem(*request, snapshot) {
            Some(p) => r == Err::<(Vec<usize>, Option<SortedCursorDoc>), QueryError>(QueryError::Invalid(p)),
            None => {
                let (page, more) = sorted_window(page_candidates(records@, *request, value_order_of(*compare)), *request);
                &&& r matches Ok(out)
                &&& out.0@ == page
                &&& (more && page.len() > 0) <==> out.1 is Some
                &&& out.1 matches Some(doc) ==> continues_after(doc, records@[page.last() as int], *request, snapshot)
            },
        },
{
    let ghost order = value_order_of(*compare);
    let candidates: Vec<usize> = match &request.cursor {
        Some(cursor) => {
            if let Err(e) = validate_cursor(cursor, &request.sort, &request.collation) {
                return Err(e);
            }
            let doc = match &cursor.sorted {
                Ok(d) => d,
                Err(message) => {
                    return Err(QueryError::Invalid(QueryProblem::InvalidSortedCursor(message.clone())));
                },
            };
            if let Err(e) = validate_cursor_snapshot(doc.snapshot, snapshot) {
                return Err(e);
            }
            let directions = sort_directions(&request.sort);
            let mut kept: Vec<usize> = Vec::new();
            let mut i: usize = 0;
            while i < records.len()
                invariant
                    i <= records@.len(),
                    directions@ == directions_of(request.sort@),
                    compares_consistently(*compare),
                    order == value_order_of(*compare),
                    kept@ == after_cursor(records@, *doc, request.sort@, order, i as nat),
                    forall|j: int| 0 <= j < kept@.len() ==> kept@[j] < i,
                decreases records.len() - i,
            {
                if record_after(&records[i], doc, &directions, compare) {
                    kept.push(i);
                }
                i += 1;
            }
            kept
        },
        None => {
            let mut all: Vec<usize> = Vec::new();
            let mut i: usize = 0;
            while i < records.len()
                invariant
                    i <= records@.len(),
                    all@ =~= Seq::new(i as nat, |j: int| j as usize),
                decreases records.len() - i,
            {
                all.push(i);
                i += 1;
            }
            all
        },
    };
    let ghost kept = candidates@;
    assert(kept == page_candidates(records@, *request, order));
    let (page, more) = apply_sorted(candidates, request);
    if more && page.len() > 0 {
        proof {
            lemma_window_within(kept, *request, records@.len());
        }
        let last = page[page.len() - 1];
        let doc = cursor_after(&records[last], request, snapshot);
        Ok((page, Some(doc)))
    } else {
        Ok((page, None))
    }
}

/// A page cut from candidates below `n` holds positions below `n`, and one
/// cut short is not empty.
proof fn lemma_window_within(kept: Seq<usize>, r: QueryRequest, n: nat)
    requires
        r.page_size is Some,
        forall|i: int| 0 <= i < kept.len() ==> kept[i] < n,
        sorted_window(kept, r).1,
    ensures
        forall|i: int| 0 <= i < sorted_window(kept, r).0.len() ==> sorted_window(kept, r).0[i] < n,
{
    let page = sorted_window(kept, r).0;
    assert forall|i: int| 0 <= i < page.len() implies page[i] < n by {
        assert(page[i] == kept[i]);
    }
}

/// What an optional sort value holds.
pub open spec fn data_of(v: Option<JsonValue>) -> Option<JsonData> {
    match v {
        Some(x) => Some(json_of(x)),
        None => None,
    }
}

/// Whether an order of sort values goes by what the values hold.
pub open spec fn orders_by_data(order: spec_fn(Option<JsonValue>, Option<JsonValue>) -> KeyOrder) -> bool {
    forall|a: Option<JsonValue>, b: Option<JsonValue>, c: Option<JsonValue>, d: Option<JsonValue>|
        data_of(a) == data_of(c) && data_of(b) == data_of(d) ==> #[trigger] order(a, b) == #[trigger] order(c, d)
}

/// How record `q` orders against record `p` under the sort: their sort
/// values key by key, the record numbers breaking ties.
pub open spec fn record_order(
    q: SortedRecord,
    p: SortedRecord,
    sort: Seq<(String, i8)>,
    order: spec_fn(Option<JsonValue>, Option<JsonValue>) -> KeyOrder,
) -> KeyOrder {
    sort_order(
        Seq::new(sort.len(), |i: int| order(q.keys@[i], p.keys@[i])),
        directions_of(sort),
        q.number,
        p.number,
    )
}

/// The cursor that continues after a record resumes exactly after it: a
/// record sorts after the cursor when, and only when, it sorts after that
/// record under the sort, the record numbers breaking ties (for records
/// with a value, or none, for each sort field, and an order that goes by
/// what values hold).
pub proof fn law_sorted_cursor_resumes_after_its_record(
    doc: SortedCursorDoc,
    p: SortedRecord,
    q: SortedRecord,
    r: QueryRequest,
    snapshot: u64,
    order: spec_fn(Option<JsonValue>, Option<JsonValue>) -> KeyOrder,
)
    requires
        continues_after(doc, p, r, snapshot),
        p.keys@.len() == r.sort@.len(),
        q.keys@.len() == r.sort@.len(),
        orders_by_data(order),
    ensures
        sorts_after(q, doc, r.sort@, order) == (record_order(q, p, r.sort@, order) == KeyOrder::Greater),
{
    let a = key_orders(q.keys@, doc.keys@, order);
    let b = Seq::new(r.sort@.len(), |i: int| order(q.keys@[i], p.keys@[i]));
    assert forall|i: int| 0 <= i < a.len() implies a[i] == b[i] by {
        let k = doc.keys@[i];
        assert(data_of(cursor_value(k)) == data_of(p.keys@[i]));
        assert(order(q.keys@[i], cursor_value(k)) == order(q.keys@[i], p.keys@[i]));
    }
    assert(a =~= b);
}

} // verus!
