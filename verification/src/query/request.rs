//! A single-table query request, its cursors, and the rules it must meet
//! before any record is read.
use vstd::prelude::*;
use crate::text::same_text;
use super::filter::{FilterProblem, FilterProblemView, JsonValue, filter_error, validate_filter};

verus! {

/// The largest page a paginated query may ask for.
pub const MAX_PAGE_SIZE: u64 = 1_000;

/// The version of a physical-order cursor document.
pub const PHYSICAL_CURSOR_VERSION: u8 = 1;

/// The versions of a sorted cursor document: the first, which carried no
/// snapshot, and the current one.
pub const LEGACY_SORTED_CURSOR_VERSION: u8 = 1;
pub const SORTED_CURSOR_VERSION: u8 = 2;

/// A physical-order cursor document: the last record number of a page and
/// the snapshot of the table it was read from.
#[derive(Debug)]
pub struct PhysicalCursorDoc {
    pub version: u8,
    pub record: usize,
    pub snapshot: Option<u64>,
}

/// One sort key of a sorted cursor: the field and direction it belongs to,
/// and the last record's value, which is null when the field was missing.
#[derive(Debug)]
pub struct SortedCursorKey {
    pub field: String,
    pub direction: i8,
    pub present: bool,
    pub value: JsonValue,
}

/// A sorted cursor document.
#[derive(Debug)]
pub struct SortedCursorDoc {
    pub version: u8,
    pub record: usize,
    pub keys: Vec<SortedCursorKey>,
    pub collation: Option<String>,
    pub snapshot: Option<u64>,
}

/// A cursor as a client sent it, with the result of reading it as each
/// kind of cursor document (the error text of the JSON reader otherwise).
#[derive(Debug)]
pub struct CursorText {
    pub text: String,
    pub physical: Result<PhysicalCursorDoc, String>,
    pub sorted: Result<SortedCursorDoc, String>,
}

/// A query on one table: a filter, a sort, a projection, skip and limit,
/// cursor pagination, a collation for the sort, and whether it aggregates.
#[derive(Debug)]
pub struct QueryRequest {
    pub filter: Vec<(String, JsonValue)>,
    pub sort: Vec<(String, i8)>,
    pub projection: Vec<(String, i8)>,
    pub skip: Option<u64>,
    pub limit: Option<u64>,
    pub page_size: Option<u64>,
    pub cursor: Option<CursorText>,
    pub collation: Option<String>,
    pub aggregate: bool,
}

/// Why a query request was refused.
#[derive(Debug, PartialEq, Eq)]
pub enum QueryProblem {
    PageSizeOutOfRange,
    CursorWithoutPageSize,
    CursorWithSkip,
    InvalidPhysicalCursor(String),
    UnsupportedPhysicalCursorVersion(u8),
    PhysicalCursorSnapshotMissing,
    CursorSnapshotMismatch,
    InvalidSortedCursor(String),
    UnsupportedSortedCursorVersion(u8),
    SortedCursorSnapshotMissing,
    SortedCursorSortMismatch,
    SortedCursorCollationMismatch,
    SortedCursorMissingValueNotNull,
    CollationWithoutSort,
    SortDirection(String),
    ProjectionValue(String),
    ProjectionMixed,
    StreamUnsupported,
    StreamCapacityNotPositive,
    Execution(String),
}

/// Why a query request was refused.
#[derive(Debug, PartialEq, Eq)]
pub enum QueryError {
    Invalid(QueryProblem),
    Filter(FilterProblem),
}

/// A query error with its texts as character sequences.
pub enum QueryErrorView {
    Invalid(QueryProblem),
    Filter(FilterProblemView),
}

impl View for QueryError {
    type V = QueryErrorView;

    open spec fn view(&self) -> QueryErrorView {
        match self {
            QueryError::Invalid(p) => QueryErrorView::Invalid(*p),
            QueryError::Filter(p) => QueryErrorView::Filter(p@),
        }
    }
}

/// The text is a `usize` in decimal, as `str::parse` reads one.
pub open spec fn plain_record_number(text: Seq<char>) -> Option<usize> {
    super::super::replication::http::response::parsed_usize(text)
}

/// The record number and snapshot of a physical cursor: a bare record
/// number, or a current document that names its snapshot.
pub open spec fn physical_cursor(c: CursorText) -> Result<(usize, Option<u64>), QueryProblem> {
    match plain_record_number(c.text@) {
        Some(n) => Ok((n, None)),
        None => match c.physical {
            Err(message) => Err(QueryProblem::InvalidPhysicalCursor(message)),
            Ok(doc) => if doc.version != PHYSICAL_CURSOR_VERSION {
                Err(QueryProblem::UnsupportedPhysicalCursorVersion(doc.version))
            } else if doc.snapshot is None {
                Err(QueryProblem::PhysicalCursorSnapshotMissing)
            } else {
                Ok((doc.record, doc.snapshot))
            },
        },
    }
}

/// A cursor's snapshot, when it names one, must be the current one.
pub open spec fn snapshot_error(snapshot: Option<u64>, current: u64) -> Option<QueryProblem> {
    if snapshot matches Some(s) && s != current {
        Some(QueryProblem::CursorSnapshotMismatch)
    } else {
        None
    }
}

/// Whether a sorted cursor's keys follow the sort, in order, with null
/// values for missing fields; the first mismatch decides the error.
pub open spec fn cursor_keys_error(keys: Seq<SortedCursorKey>, sort: Seq<(String, i8)>) -> Option<QueryProblem>
    decreases keys.len(),
{
    if keys.len() == 0 || sort.len() == 0 {
        None
    } else if keys[0].field@ != sort[0].0@ || keys[0].direction != sort[0].1 {
        Some(QueryProblem::SortedCursorSortMismatch)
    } else if !keys[0].present && !(keys[0].value is Null) {
        Some(QueryProblem::SortedCursorMissingValueNotNull)
    } else {
        cursor_keys_error(keys.drop_first(), sort.drop_first())
    }
}

/// Why a sorted cursor document does not fit the query, if it does not.
pub open spec fn sorted_cursor_error(doc: SortedCursorDoc, sort: Seq<(String, i8)>, collation: Option<String>) -> Option<QueryProblem> {
    if doc.version != LEGACY_SORTED_CURSOR_VERSION && doc.version != SORTED_CURSOR_VERSION {
        Some(QueryProblem::UnsupportedSortedCursorVersion(doc.version))
    } else if doc.version == SORTED_CURSOR_VERSION && doc.snapshot is None {
        Some(QueryProblem::SortedCursorSnapshotMissing)
    } else if doc.keys@.len() != sort.len() {
        Some(QueryProblem::SortedCursorSortMismatch)
    } else if !same_collation(doc.collation, collation) {
        Some(QueryProblem::SortedCursorCollationMismatch)
    } else {
        cursor_keys_error(doc.keys@, sort)
    }
}

/// Two collations are the same: both absent, or both present with the same name.
pub open spec fn same_collation(a: Option<String>, b: Option<String>) -> bool {
    match (a, b) {
        (None, None) => true,
        (Some(x), Some(y)) => x@ == y@,
        _ => false,
    }
}

/// Why the pagination of a request is refused, if it is.
pub open spec fn page_error(r: QueryRequest) -> Option<QueryProblem> {
    let paginated = r.page_size is Some || r.cursor is Some;
    if r.page_size matches Some(p) && !(1 <= p <= MAX_PAGE_SIZE) {
        Some(QueryProblem::PageSizeOutOfRange)
    } else if r.cursor is Some && r.page_size is None {
        Some(QueryProblem::CursorWithoutPageSize)
    } else if paginated && r.skip is Some {
        Some(QueryProblem::CursorWithSkip)
    } else {
        match r.cursor {
            None => None,
            Some(c) => if r.sort@.len() == 0 {
                match physical_cursor(c) {
                    Err(p) => Some(p),
                    Ok(_) => None,
                }
            } else {
                match c.sorted {
                    Err(message) => Some(QueryProblem::InvalidSortedCursor(message)),
                    Ok(doc) => sorted_cursor_error(doc, r.sort@, r.collation),
                }
            },
        }
    }
}

/// The first sort entry whose direction is neither 1 nor -1.
pub open spec fn sort_direction_error(sort: Seq<(String, i8)>) -> Option<QueryProblem>
    decreases sort.len(),
{
    if sort.len() == 0 {
        None
    } else if sort[0].1 != 1 && sort[0].1 != -1 {
        Some(QueryProblem::SortDirection(sort[0].0))
    } else {
        sort_direction_error(sort.drop_first())
    }
}

/// The first projection entry whose value is neither 0 nor 1.
pub open spec fn projection_value_error(p: Seq<(String, i8)>) -> Option<QueryProblem>
    decreases p.len(),
{
    if p.len() == 0 {
        None
    } else if p[0].1 != 0 && p[0].1 != 1 {
        Some(QueryProblem::ProjectionValue(p[0].0))
    } else {
        projection_value_error(p.drop_first())
    }
}

/// Why a request is refused, if it is: pagination, collation, sort,
/// projection, then the filter.
pub open spec fn request_error(r: QueryRequest) -> Option<QueryErrorView> {
    if page_error(r) is Some {
        Some(QueryErrorView::Invalid(page_error(r).unwrap()))
    } else if r.collation is Some && r.sort@.len() == 0 {
        Some(QueryErrorView::Invalid(QueryProblem::CollationWithoutSort))
    } else if sort_direction_error(r.sort@) is Some {
        Some(QueryErrorView::Invalid(sort_direction_error(r.sort@).unwrap()))
    } else if projection_value_error(r.projection@) is Some {
        Some(QueryErrorView::Invalid(projection_value_error(r.projection@).unwrap()))
    } else if (exists|i: int| 0 <= i < r.projection@.len() && (#[trigger] r.projection@[i]).1 == 1) && (exists|j: int|
        0 <= j < r.projection@.len() && (#[trigger] r.projection@[j]).1 == 0) {
        Some(QueryErrorView::Invalid(QueryProblem::ProjectionMixed))
    } else if filter_error(r.filter@, "filter"@) is Some {
        Some(QueryErrorView::Filter(filter_error(r.filter@, "filter"@).unwrap()))
    } else {
        None
    }
}

/// The record number and snapshot of a physical cursor.
pub fn parse_physical_cursor(cursor: &CursorText) -> (r: Result<(usize, Option<u64>), QueryError>)
    ensures
        match physical_cursor(*cursor) {
            Ok(v) => r == Ok::<(usize, Option<u64>), QueryError>(v),
            Err(p) => r == Err::<(usize, Option<u64>), QueryError>(QueryError::Invalid(p)),
        },
{
    let chars = crate::text::chars_of(&cursor.text);
    if let Some(n) = super::super::replication::http::response::parse_decimal_usize(&chars) {
        return Ok((n, None));
    }
    match &cursor.physical {
        Err(message) => Err(QueryError::Invalid(QueryProblem::InvalidPhysicalCursor(message.clone()))),
        Ok(doc) => if doc.version != PHYSICAL_CURSOR_VERSION {
            Err(QueryError::Invalid(QueryProblem::UnsupportedPhysicalCursorVersion(doc.version)))
        } else if doc.snapshot.is_none() {
            Err(QueryError::Invalid(QueryProblem::PhysicalCursorSnapshotMissing))
        } else {
            Ok((doc.record, doc.snapshot))
        },
    }
}

/// The record a physical cursor continues after.
pub fn cursor_position(cursor: &CursorText) -> (r: Result<usize, QueryError>)
    ensures
        match physical_cursor(*cursor) {
            Ok((n, _)) => r == Ok::<usize, QueryError>(n),
            Err(p) => r == Err::<usize, QueryError>(QueryError::Invalid(p)),
        },
{
    match parse_physical_cursor(cursor) {
        Ok((n, _)) => Ok(n),
        Err(e) => Err(e),
    }
}

/// Refuses a cursor read from another snapshot of the table.
pub fn validate_cursor_snapshot(snapshot: Option<u64>, current: u64) -> (r: Result<(), QueryError>)
    ensures
        match snapshot_error(snapshot, current) {
            Some(p) => r == Err::<(), QueryError>(QueryError::Invalid(p)),
            None => r is Ok,
        },
{
    if let Some(s) = snapshot {
        if s != current {
            return Err(QueryError::Invalid(QueryProblem::CursorSnapshotMismatch));
        }
    }
    Ok(())
}

/// The record a physical cursor continues after, for the table snapshot `current`.
pub fn cursor_position_at(cursor: &CursorText, current: u64) -> (r: Result<usize, QueryError>)
    ensures
        match physical_cursor(*cursor) {
            Ok((n, s)) => match snapshot_error(s, current) {
                Some(p) => r == Err::<usize, QueryError>(QueryError::Invalid(p)),
                None => r == Ok::<usize, QueryError>(n),
            },
            Err(p) => r == Err::<usize, QueryError>(QueryError::Invalid(p)),
        },
{
    let (n, s) = match parse_physical_cursor(cursor) {
        Ok(v) => v,
        Err(e) => {
            return Err(e);
        },
    };
    if let Err(e) = validate_cursor_snapshot(s, current) {
        return Err(e);
    }
    Ok(n)
}

fn same_collation_text(a: &Option<String>, b: &Option<String>) -> (r: bool)
    ensures
        r == same_collation(*a, *b),
{
    match (a, b) {
        (None, None) => true,
        (Some(x), Some(y)) => same_text(x, y),
        _ => false,
    }
}

/// Checks that a sorted cursor document fits the query's sort and collation.
#[verifier::loop_isolation(false)]
pub fn validate_parsed_cursor(doc: &SortedCursorDoc, sort: &Vec<(String, i8)>, collation: &Option<String>) -> (r: Result<(), QueryError>)
    ensures
        match sorted_cursor_error(*doc, sort@, *collation) {
            Some(p) => r == Err::<(), QueryError>(QueryError::Invalid(p)),
            None => r is Ok,
        },
{
    if doc.version != LEGACY_SORTED_CURSOR_VERSION && doc.version != SORTED_CURSOR_VERSION {
        return Err(QueryError::Invalid(QueryProblem::UnsupportedSortedCursorVersion(doc.version)));
    }
    if doc.version == SORTED_CURSOR_VERSION && doc.snapshot.is_none() {
        return Err(QueryError::Invalid(QueryProblem::SortedCursorSnapshotMissing));
    }
    if doc.keys.len() != sort.len() {
        return Err(QueryError::Invalid(QueryProblem::SortedCursorSortMismatch));
    }
    if !same_collation_text(&doc.collation, collation) {
        return Err(QueryError::Invalid(QueryProblem::SortedCursorCollationMismatch));
    }
    let ghost keys = doc.keys@;
    let mut i: usize = 0;
    assert(keys.subrange(0, keys.len() as int) =~= keys);
    assert(sort@.subrange(0, sort@.len() as int) =~= sort@);
    while i < doc.keys.len()
        invariant
            keys == doc.keys@,
            keys.len() == sort@.len(),
            i <= keys.len(),
            cursor_keys_error(keys, sort@) == cursor_keys_error(
                keys.subrange(i as int, keys.len() as int),
                sort@.subrange(i as int, sort@.len() as int),
            ),
        decreases doc.keys.len() - i,
    {
        let ghost ks = keys.subrange(i as int, keys.len() as int);
        let ghost ss = sort@.subrange(i as int, sort@.len() as int);
        assert(ks[0] == keys[i as int] && ss[0] == sort@[i as int]);
        assert(ks.drop_first() =~= keys.subrange(i + 1, keys.len() as int));
        assert(ss.drop_first() =~= sort@.subrange(i + 1, sort@.len() as int));
        let key = &doc.keys[i];
        let (field, direction) = &sort[i];
        if !same_text(&key.field, field) || key.direction != *direction {
            return Err(QueryError::Invalid(QueryProblem::SortedCursorSortMismatch));
        }
        if !key.present && !matches!(key.value, JsonValue::Null) {
            return Err(QueryError::Invalid(QueryProblem::SortedCursorMissingValueNotNull));
        }
        i += 1;
    }
    Ok(())
}

/// Checks a sorted cursor against the query's sort and collation.
pub fn validate_cursor(cursor: &CursorText, sort: &Vec<(String, i8)>, collation: &Option<String>) -> (r: Result<(), QueryError>)
    ensures
        match cursor.sorted {
            Err(message) => r == Err::<(), QueryError>(QueryError::Invalid(QueryProblem::InvalidSortedCursor(message))),
            Ok(doc) => match sorted_cursor_error(doc, sort@, *collation) {
                Some(p) => r == Err::<(), QueryError>(QueryError::Invalid(p)),
                None => r is Ok,
            },
        },
{
    match &cursor.sorted {
        Err(message) => Err(QueryError::Invalid(QueryProblem::InvalidSortedCursor(message.clone()))),
        Ok(doc) => validate_parsed_cursor(doc, sort, collation),
    }
}

/// A request is paginated when it names a page size or a cursor.
pub fn is_page(request: &QueryRequest) -> (r: bool)
    ensures
        r == (request.page_size is Some || request.cursor is Some),
{
    request.page_size.is_some() || request.cursor.is_some()
}

/// A page in physical record order: paginated without a sort.
pub fn is_physical_page(request: &QueryRequest) -> (r: bool)
    ensures
        r == ((request.page_size is Some || request.cursor is Some) && request.sort@.len() == 0),
{
    is_page(request) && request.sort.len() == 0
}

/// A page in sort order: paginated with a sort.
pub fn is_sorted_page(request: &QueryRequest) -> (r: bool)
    ensures
        r == ((request.page_size is Some || request.cursor is Some) && request.sort@.len() > 0),
{
    is_page(request) && request.sort.len() > 0
}

/// Checks the pagination of a request: a page size between 1 and 1000, a
/// cursor only with a page size, no skip on a page, and a cursor of the
/// kind that the sort calls for.
pub fn validate_page(request: &QueryRequest) -> (r: Result<(), QueryError>)
    ensures
        match page_error(*request) {
            Some(p) => r == Err::<(), QueryError>(QueryError::Invalid(p)),
            None => r is Ok,
        },
{
    let paginated = is_page(request);
    if let Some(page_size) = request.page_size {
        if !(1 <= page_size && page_size <= MAX_PAGE_SIZE) {
            return Err(QueryError::Invalid(QueryProblem::PageSizeOutOfRange));
        }
    }
    if request.cursor.is_some() && request.page_size.is_none() {
        return Err(QueryError::Invalid(QueryProblem::CursorWithoutPageSize));
    }
    if paginated && request.skip.is_some() {
        return Err(QueryError::Invalid(QueryProblem::CursorWithSkip));
    }
    match &request.cursor {
        None => Ok(()),
        Some(cursor) => if request.sort.len() == 0 {
            match cursor_position(cursor) {
                Ok(_) => Ok(()),
                Err(e) => Err(e),
            }
        } else {
            validate_cursor(cursor, &request.sort, &request.collation)
        },
    }
}

/// Checks a request before any record is read: pagination, a collation
/// only with a sort, sort directions of 1 or -1, projection values of 0 or
/// 1 without mixing, and the filter.
#[verifier::loop_isolation(false)]
pub fn validate(request: &QueryRequest) -> (r: Result<(), QueryError>)
    ensures
        match request_error(*request) {
            Some(e) => r matches Err(x) && x@ == e,
            None => r is Ok,
        },
{
    if let Err(e) = validate_page(request) {
        return Err(e);
    }
    if request.collation.is_some() && request.sort.len() == 0 {
        return Err(QueryError::Invalid(QueryProblem::CollationWithoutSort));
    }
    let ghost sort = request.sort@;
    let mut i: usize = 0;
    assert(sort.subrange(0, sort.len() as int) =~= sort);
    while i < request.sort.len()
        invariant
            sort == request.sort@,
            i <= sort.len(),
            sort_direction_error(sort) == sort_direction_error(sort.subrange(i as int, sort.len() as int)),
        decreases request.sort.len() - i,
    {
        let ghost rest = sort.subrange(i as int, sort.len() as int);
        assert(rest[0] == sort[i as int]);
        assert(rest.drop_first() =~= sort.subrange(i + 1, sort.len() as int));
        let (field, direction) = &request.sort[i];
        if *direction != 1 && *direction != -1 {
            return Err(QueryError::Invalid(QueryProblem::SortDirection(field.clone())));
        }
        i += 1;
    }
    let ghost projection = request.projection@;
    let mut has_inclusion = false;
    let mut has_exclusion = false;
    let mut j: usize = 0;
    assert(projection.subrange(0, projection.len() as int) =~= projection);
    while j < request.projection.len()
        invariant
            projection == request.projection@,
            j <= projection.len(),
            projection_value_error(projection) == projection_value_error(projection.subrange(j as int, projection.len() as int)),
            has_inclusion == exists|k: int| 0 <= k < j && (#[trigger] projection[k]).1 == 1,
            has_exclusion == exists|k: int| 0 <= k < j && (#[trigger] projection[k]).1 == 0,
        decreases request.projection.len() - j,
    {
        let ghost rest = projection.subrange(j as int, projection.len() as int);
        assert(rest[0] == projection[j as int]);
        assert(rest.drop_first() =~= projection.subrange(j + 1, projection.len() as int));
        let (field, value) = &request.projection[j];
        if *value != 0 && *value != 1 {
            return Err(QueryError::Invalid(QueryProblem::ProjectionValue(field.clone())));
        }
        if *value == 1 {
            has_inclusion = true;
        } else {
            has_exclusion = true;
        }
        j += 1;
    }
    if has_inclusion && has_exclusion {
        return Err(QueryError::Invalid(QueryProblem::ProjectionMixed));
    }
    if let Err(p) = validate_filter(&request.filter, &"filter".to_owned()) {
        return Err(QueryError::Filter(p));
    }
    Ok(())
}

} // verus!
