//! Pages of records: skip and limit without a cursor, and cursor pages in
//! physical record order or in sort order.
use vstd::prelude::*;
use vstd::relations::{sorted_by, total_ordering};
use crate::text::{concat, decimal, decimal_text, opt_view};
use super::request::{QueryError, QueryRequest, physical_cursor, snapshot_error, cursor_position_at};

verus! {

broadcast use vstd::seq_lib::group_to_multiset_ensures;

/// The ascending order on record numbers.
pub open spec fn usize_le() -> spec_fn(usize, usize) -> bool {
    |a: usize, b: usize| a <= b
}

/// The numbers in ascending order.
pub open spec fn ascending(s: Seq<usize>) -> Seq<usize> {
    s.sort_by(usize_le())
}

/// The numbers above `cursor`, in order.
pub open spec fn after(s: Seq<usize>, cursor: usize) -> Seq<usize> {
    s.filter(|n: usize| n > cursor)
}

/// A `u64` count as a `usize`, saturating.
pub open spec fn to_usize(x: u64) -> usize {
    if x > usize::MAX { usize::MAX } else { x as usize }
}

/// The first `n` items, or all when there are fewer.
pub open spec fn take_at_most<A>(s: Seq<A>, n: usize) -> Seq<A> {
    if n < s.len() { s.subrange(0, n as int) } else { s }
}

/// The page of record numbers that a request yields from the numbers of
/// its candidate records, and the cursor that continues it: without a
/// cursor and page size, skip and limit in the given order; otherwise the
/// numbers in ascending order after the cursor's record, within the limit,
/// cut at the page size, with a cursor bound to the table snapshot
/// `snapshot` after the last number when more follow.
pub open spec fn physical_page_of(numbers: Seq<usize>, r: QueryRequest, cursor_record: Option<usize>, snapshot: u64) -> (Seq<usize>, Option<Seq<char>>) {
    if r.page_size is None && r.cursor is None {
        let skip = to_usize(match r.skip { Some(s) => s, None => 0 });
        let rest = if skip < numbers.len() { numbers.subrange(skip as int, numbers.len() as int) } else { Seq::empty() };
        (match r.limit {
            Some(l) => take_at_most(rest, to_usize(l)),
            None => rest,
        }, None)
    } else {
        let sorted = ascending(numbers);
        let kept = match cursor_record {
            Some(c) => after(sorted, c),
            None => sorted,
        };
        let limited = match r.limit {
            Some(l) => take_at_most(kept, to_usize(l)),
            None => kept,
        };
        let page = r.page_size.unwrap() as usize;
        if limited.len() > page {
            (limited.subrange(0, page as int), if page > 0 { Some(physical_cursor_text(limited[page - 1], snapshot)) } else { None })
        } else {
            (limited, None)
        }
    }
}

/// The ascending order on record numbers is total.
pub proof fn lemma_usize_le_total()
    ensures
        total_ordering(usize_le()),
{
}

/// Sorts record numbers in ascending order.
fn sort_ascending(v: Vec<usize>) -> (r: Vec<usize>)
    ensures
        r@ == ascending(v@),
{
    let mut out: Vec<usize> = Vec::new();
    let mut i: usize = 0;
    while i < v.len()
        invariant
            i <= v@.len(),
            sorted_by(out@, usize_le()),
            out@.to_multiset() == v@.subrange(0, i as int).to_multiset(),
        decreases v.len() - i,
    {
        let x = v[i];
        let mut p: usize = 0;
        while p < out.len() && out[p] <= x
            invariant
                p <= out@.len(),
                forall|k: int| 0 <= k < p ==> out@[k] <= x,
            decreases out.len() - p,
        {
            p += 1;
        }
        let ghost before = out@;
        out.insert(p, x);
        proof {
            assert(out@ == before.insert(p as int, x));
            assert forall|a: int, b: int| 0 <= a < b < out@.len() implies #[trigger] (usize_le())(out@[a], out@[b]) by {
                if b < p {
                    assert(out@[a] == before[a] && out@[b] == before[b]);
                } else if b == p {
                    assert(out@[a] == before[a]);
                } else if a < p {
                    assert(out@[a] == before[a] && out@[b] == before[b - 1]);
                    assert(usize_le()(before[a], before[b - 1]));
                } else if a == p {
                    assert(out@[b] == before[b - 1]);
                    if p < before.len() {
                        assert(before[p as int] > x);
                        if b - 1 > p {
                            assert(usize_le()(before[p as int], before[b - 1]));
                        }
                    }
                } else {
                    assert(out@[a] == before[a - 1] && out@[b] == before[b - 1]);
                    assert(usize_le()(before[a - 1], before[b - 1]));
                }
            }
            assert(v@.subrange(0, i + 1) =~= v@.subrange(0, i as int).push(x));
        }
        i += 1;
    }
    proof {
        assert(v@.subrange(0, v@.len() as int) =~= v@);
        lemma_usize_le_total();
        v@.lemma_sort_by_ensures(usize_le());
        vstd::seq_lib::lemma_sorted_unique(out@, v@.sort_by(usize_le()), usize_le());
    }
    out
}

/// The numbers of `s` above `cursor`, in order.
fn keep_after(s: Vec<usize>, cursor: usize) -> (r: Vec<usize>)
    ensures
        r@ == after(s@, cursor),
{
    let mut out: Vec<usize> = Vec::new();
    let mut i: usize = 0;
    while i < s.len()
        invariant
            i <= s@.len(),
            out@ == after(s@.subrange(0, i as int), cursor),
        decreases s.len() - i,
    {
        proof {
            let t = s@.subrange(0, i + 1);
            assert(t.drop_last() =~= s@.subrange(0, i as int));
            reveal_with_fuel(Seq::filter, 1);
        }
        if s[i] > cursor {
            out.push(s[i]);
        }
        i += 1;
    }
    assert(s@.subrange(0, s@.len() as int) =~= s@);
    out
}

fn truncated(mut s: Vec<usize>, n: usize) -> (r: Vec<usize>)
    ensures
        r@ == take_at_most(s@, n),
{
    if n < s.len() {
        s.truncate(n);
    }
    s
}

fn count_to_usize(x: u64) -> (r: usize)
    ensures
        r == to_usize(x),
{
    if x > usize::MAX as u64 {
        usize::MAX
    } else {
        x as usize
    }
}

/// The page of record numbers for a request in physical record order, and
/// the cursor that continues it. The cursor must belong to the table
/// snapshot `snapshot`.
pub fn apply(numbers: Vec<usize>, request: &QueryRequest, snapshot: u64) -> (r: Result<(Vec<usize>, Option<String>), QueryError>)
    requires
        request.cursor is Some ==> request.page_size is Some,
    ensures
        match request.cursor {
            Some(c) => match physical_cursor(c) {
                Err(p) => r == Err::<(Vec<usize>, Option<String>), QueryError>(QueryError::Invalid(p)),
                Ok((n, s)) => match snapshot_error(s, snapshot) {
                    Some(p) => r == Err::<(Vec<usize>, Option<String>), QueryError>(QueryError::Invalid(p)),
                    None => r matches Ok((page, next)) && page@ == physical_page_of(numbers@, *request, Some(n), snapshot).0
                        && opt_view(next) == physical_page_of(numbers@, *request, Some(n), snapshot).1,
                },
            },
            None => r matches Ok((page, next)) && page@ == physical_page_of(numbers@, *request, None, snapshot).0
                && opt_view(next) == physical_page_of(numbers@, *request, None, snapshot).1,
        },
{
    if request.page_size.is_none() && request.cursor.is_none() {
        let skip = match request.skip {
            Some(s) => count_to_usize(s),
            None => 0,
        };
        let mut rest: Vec<usize> = Vec::new();
        let mut i = skip;
        while i < numbers.len()
            invariant
                skip <= i <= numbers@.len() || (i == skip && skip >= numbers@.len()),
                skip < numbers@.len() ==> rest@ == numbers@.subrange(skip as int, i as int),
                skip >= numbers@.len() ==> rest@.len() == 0,
            decreases numbers.len() - i,
        {
            rest.push(numbers[i]);
            assert(numbers@.subrange(skip as int, i + 1) =~= numbers@.subrange(skip as int, i as int).push(numbers@[i as int]));
            i += 1;
        }
        assert(skip >= numbers@.len() ==> rest@ =~= Seq::<usize>::empty());
        let out = match request.limit {
            Some(l) => truncated(rest, count_to_usize(l)),
            None => rest,
        };
        return Ok((out, None));
    }
    let cursor_record = match &request.cursor {
        Some(c) => match cursor_position_at(c, snapshot) {
            Ok(n) => Some(n),
            Err(e) => {
                return Err(e);
            },
        },
        None => None,
    };
    let sorted = sort_ascending(numbers);
    let kept = match cursor_record {
        Some(c) => keep_after(sorted, c),
        None => sorted,
    };
    let limited = match request.limit {
        Some(l) => truncated(kept, count_to_usize(l)),
        None => kept,
    };
    let page = match request.page_size {
        Some(p) => p as usize,
        None => 0,
    };
    if limited.len() > page {
        let mut out = limited;
        let last = if page > 0 { Some(out[page - 1]) } else { None };
        out.truncate(page);
        let next = match last {
            Some(n) => Some(encode_physical_cursor(n, snapshot)),
            None => None,
        };
        Ok((out, next))
    } else {
        Ok((limited, None))
    }
}

/// The page that a sorted request keeps from its records in sort order,
/// given how many of them sort after the cursor (all of them without one):
/// the records after the cursor, within the limit, cut at the page size,
/// and whether more follow.
pub open spec fn sorted_window(after_cursor: Seq<usize>, r: QueryRequest) -> (Seq<usize>, bool) {
    let limited = match r.limit {
        Some(l) => take_at_most(after_cursor, to_usize(l)),
        None => after_cursor,
    };
    let page = r.page_size.unwrap() as usize;
    if limited.len() > page {
        (limited.subrange(0, page as int), true)
    } else {
        (limited, false)
    }
}

/// Cuts the records of a sorted page: `positions` are the positions, in
/// sort order, of the records that sort after the cursor. Returns the
/// positions on the page and whether a cursor for the next page is due.
pub fn apply_sorted(positions: Vec<usize>, request: &QueryRequest) -> (r: (Vec<usize>, bool))
    requires
        request.page_size is Some,
    ensures
        r.0@ == sorted_window(positions@, *request).0,
        r.1 == sorted_window(positions@, *request).1,
{
    let limited = match request.limit {
        Some(l) => truncated(positions, count_to_usize(l)),
        None => positions,
    };
    let page = match request.page_size {
        Some(p) => p as usize,
        None => 0,
    };
    if limited.len() > page {
        let mut out = limited;
        out.truncate(page);
        (out, true)
    } else {
        (limited, false)
    }
}

/// The cursor text that continues a physical page after record `record` of
/// the table snapshot `snapshot`.
pub open spec fn physical_cursor_text(record: usize, snapshot: u64) -> Seq<char> {
    "{\"version\":1,\"record\":"@ + decimal(record as nat) + ",\"snapshot\":"@ + decimal(snapshot as nat) + "}"@
}

/// Encodes the cursor that continues a physical page after `record`.
pub fn encode_physical_cursor(record: usize, snapshot: u64) -> (r: String)
    ensures
        r@ == physical_cursor_text(record, snapshot),
{
    let a = concat("{\"version\":1,\"record\":", &decimal_text(record as u64));
    let b = concat(&a, ",\"snapshot\":");
    let c = concat(&b, &decimal_text(snapshot));
    let r = concat(&c, "}");
    assert(r@ =~= physical_cursor_text(record, snapshot));
    r
}

/// What a physical page scan does with the next active record.
#[derive(Debug, Clone, Copy, PartialEq, Eq, Structural)]
pub enum ScanStep {
    /// The record is at or before the cursor: go on to the next one.
    Skip,
    /// Match the record against the filter, and report it with `matched`.
    Evaluate,
    /// The page is complete.
    Stop,
}

/// A physical page read in one pass over the table's active records: after
/// the cursor, up to the limit of matches, until one match more than the
/// page holds shows that there is more.
pub struct PageScan {
    cursor: usize,
    page_size: usize,
    limit: Option<usize>,
    matched: usize,
    taken: usize,
    has_more: bool,
    last: Option<usize>,
    done: bool,
}

/// A page scan's state, with its record numbers as counted so far.
pub struct PageScanView {
    pub cursor: usize,
    pub page_size: usize,
    pub limit: Option<usize>,
    pub matched: usize,
    pub taken: usize,
    pub has_more: bool,
    pub last: Option<usize>,
    pub done: bool,
}

impl View for PageScan {
    type V = PageScanView;

    closed spec fn view(&self) -> PageScanView {
        PageScanView {
            cursor: self.cursor,
            page_size: self.page_size,
            limit: self.limit,
            matched: self.matched,
            taken: self.taken,
            has_more: self.has_more,
            last: self.last,
            done: self.done,
        }
    }
}

impl PageScan {
    #[verifier::type_invariant]
    closed spec fn wf(self) -> bool {
        self.taken <= self.page_size
    }

    /// Starts a scan after record `cursor` (zero without a cursor) for a
    /// page of `page_size` records, counting at most `limit` matches.
    pub fn new(cursor: usize, page_size: usize, limit: Option<usize>) -> (r: PageScan)
        ensures
            r@ == (PageScanView {
                cursor,
                page_size,
                limit,
                matched: 0,
                taken: 0,
                has_more: false,
                last: None,
                done: false,
            }),
    {
        PageScan { cursor, page_size, limit, matched: 0, taken: 0, has_more: false, last: None, done: false }
    }

    /// What to do with the active record numbered `number`.
    pub fn consider(&mut self, number: usize) -> (r: ScanStep)
        ensures
            old(self)@.done ==> r == ScanStep::Stop && final(self)@ == old(self)@,
            !old(self)@.done && number <= old(self)@.cursor ==> r == ScanStep::Skip && final(self)@ == old(self)@,
            !old(self)@.done && number > old(self)@.cursor && (old(self)@.limit matches Some(l) && old(self)@.matched >= l)
                ==> r == ScanStep::Stop && final(self)@ == (PageScanView { done: true, ..old(self)@ }),
            !old(self)@.done && number > old(self)@.cursor && !(old(self)@.limit matches Some(l) && old(self)@.matched >= l)
                ==> r == ScanStep::Evaluate && final(self)@ == old(self)@,
    {
        proof {
            use_type_invariant(&*self);
        }
        if self.done {
            return ScanStep::Stop;
        }
        if number <= self.cursor {
            return ScanStep::Skip;
        }
        let reached = match self.limit {
            Some(l) => self.matched >= l,
            None => false,
        };
        if reached {
            self.done = true;
            return ScanStep::Stop;
        }
        ScanStep::Evaluate
    }

    /// Records that the active record numbered `number` matched the filter:
    /// it is taken onto the page, unless the page is full, which shows that
    /// there is more and ends the scan.
    pub fn matched(&mut self, number: usize) -> (taken: bool)
        requires
            !old(self)@.done,
        ensures
            final(self)@.matched == if old(self)@.matched == usize::MAX { usize::MAX } else { (old(self)@.matched + 1) as usize },
            old(self)@.taken == old(self)@.page_size ==> !taken && final(self)@ == (PageScanView {
                matched: final(self)@.matched,
                has_more: true,
                done: true,
                ..old(self)@
            }),
            old(self)@.taken != old(self)@.page_size ==> taken && final(self)@ == (PageScanView {
                matched: final(self)@.matched,
                taken: (old(self)@.taken + 1) as usize,
                last: Some(number),
                ..old(self)@
            }),
    {
        proof {
            use_type_invariant(&*self);
        }
        self.matched = self.matched.saturating_add(1);
        if self.taken == self.page_size {
            self.has_more = true;
            self.done = true;
            return false;
        }
        self.taken = self.taken + 1;
        self.last = Some(number);
        true
    }

    /// The cursor that continues the page: after its last record, when the
    /// scan found more matches than the page holds.
    pub fn next_cursor(&self, snapshot: u64) -> (r: Option<String>)
        ensures
            match (self@.has_more, self@.last) {
                (true, Some(n)) => r matches Some(t) && t@ == physical_cursor_text(n, snapshot),
                _ => r is None,
            },
    {
        match (self.has_more, self.last) {
            (true, Some(n)) => Some(encode_physical_cursor(n, snapshot)),
            _ => None,
        }
    }
}

} // verus!
