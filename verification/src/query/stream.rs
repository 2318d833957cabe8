//! Record streams: a query that yields matching records one at a time,
//! honouring skip and limit, over the live table or a snapshot of it.
use vstd::prelude::*;
use super::request::{QueryError, QueryErrorView, QueryProblem, QueryRequest, request_error, validate};

verus! {

/// What the stream learned of the record at its position.
#[derive(Debug, Clone, Copy, PartialEq, Eq, Structural)]
pub enum RecordVerdict {
    /// There is no record at the position: the table is exhausted.
    Missing,
    /// The record is marked deleted.
    Deleted,
    /// The record does not match the filter.
    Filtered,
    /// The record matches the filter.
    Matched,
    /// Reading or filtering the record failed.
    Failed,
}

/// What the stream does with a record.
#[derive(Debug, Clone, Copy, PartialEq, Eq, Structural)]
pub enum StreamAction {
    /// Examine the record at the next position.
    Continue,
    /// Yield the record (projected).
    Yield,
    /// Yield the failure and end the stream.
    Fail,
    /// End the stream.
    End,
}

/// The progress of a stream: the next record position, the matches
/// skipped and yielded so far, and whether the stream has ended.
#[derive(Debug)]
pub struct StreamState {
    position: usize,
    skip: u64,
    skipped: u64,
    limit: Option<u64>,
    yielded: u64,
    done: bool,
}

/// A stream's state as numbers: the next position, what was skipped and yielded, and whether it ended.
pub struct StreamView {
    pub position: usize,
    pub skip: u64,
    pub skipped: u64,
    pub limit: Option<u64>,
    pub yielded: u64,
    pub done: bool,
}

impl View for StreamState {
    type V = StreamView;

    closed spec fn view(&self) -> StreamView {
        StreamView {
            position: self.position,
            skip: self.skip,
            skipped: self.skipped,
            limit: self.limit,
            yielded: self.yielded,
            done: self.done,
        }
    }
}

/// The stream has nothing more to yield: it ended, or reached its limit.
pub open spec fn exhausted(s: StreamView) -> bool {
    s.done || (s.limit matches Some(l) && s.yielded >= l)
}

/// The state after examining the record at the position, and the action.
pub open spec fn examined(s: StreamView, verdict: RecordVerdict) -> (StreamView, StreamAction) {
    match verdict {
        RecordVerdict::Missing => (StreamView { done: true, ..s }, StreamAction::End),
        RecordVerdict::Deleted | RecordVerdict::Filtered => (
            StreamView { position: (s.position + 1) as usize, ..s },
            StreamAction::Continue,
        ),
        RecordVerdict::Failed => (StreamView { position: (s.position + 1) as usize, done: true, ..s }, StreamAction::Fail),
        RecordVerdict::Matched => if s.skipped < s.skip {
            (StreamView { position: (s.position + 1) as usize, skipped: (s.skipped + 1) as u64, ..s }, StreamAction::Continue)
        } else {
            (StreamView { position: (s.position + 1) as usize, yielded: (s.yielded + 1) as u64, ..s }, StreamAction::Yield)
        },
    }
}

impl StreamState {
    #[verifier::type_invariant]
    closed spec fn wf(self) -> bool {
        &&& self.skipped <= self.skip
        &&& self.yielded + self.skipped <= self.position
        &&& self.limit matches Some(l) ==> self.yielded <= l
    }

    /// A fresh stream for a request: nothing skipped or yielded yet.
    pub fn new(request: &QueryRequest) -> (r: StreamState)
        ensures
            r@ == (StreamView {
                position: 0,
                skip: match request.skip {
                    Some(s) => s,
                    None => 0,
                },
                skipped: 0,
                limit: request.limit,
                yielded: 0,
                done: false,
            }),
    {
        StreamState {
            position: 0,
            skip: match request.skip {
                Some(s) => s,
                None => 0,
            },
            skipped: 0,
            limit: request.limit,
            yielded: 0,
            done: false,
        }
    }

    /// The position of the record to examine, or none when the stream has
    /// ended or reached its limit, which ends it.
    pub fn next_position(&mut self) -> (r: Option<usize>)
        ensures
            exhausted(old(self)@) ==> r is None && final(self)@ == (StreamView { done: true, ..old(self)@ }),
            !exhausted(old(self)@) ==> r == Some(old(self)@.position) && final(self)@ == old(self)@,
    {
        proof {
            use_type_invariant(&*self);
        }
        let reached = match self.limit {
            Some(l) => self.yielded >= l,
            None => false,
        };
        if self.done || reached {
            self.done = true;
            return None;
        }
        Some(self.position)
    }

    /// Records what was learned of the record at the position and says what to do.
    pub fn examine(&mut self, verdict: RecordVerdict) -> (r: StreamAction)
        requires
            !exhausted(old(self)@),
            old(self)@.position < usize::MAX,
        ensures
            (final(self)@, r) == examined(old(self)@, verdict),
    {
        proof {
            use_type_invariant(&*self);
        }
        match verdict {
            RecordVerdict::Missing => {
                self.done = true;
                StreamAction::End
            },
            RecordVerdict::Deleted | RecordVerdict::Filtered => {
                self.position = self.position + 1;
                StreamAction::Continue
            },
            RecordVerdict::Failed => {
                self.position = self.position + 1;
                self.done = true;
                StreamAction::Fail
            },
            RecordVerdict::Matched => {
                self.position = self.position + 1;
                if self.skipped < self.skip {
                    self.skipped = self.skipped + 1;
                    StreamAction::Continue
                } else {
                    self.yielded = self.yielded + 1;
                    StreamAction::Yield
                }
            },
        }
    }
}

/// Why a request cannot stream, if it cannot: it must be valid, and may use
/// only filter, projection, skip, and limit.
pub open spec fn stream_request_error(r: QueryRequest) -> Option<QueryErrorView> {
    if request_error(r) is Some {
        request_error(r)
    } else if r.sort@.len() > 0 || r.aggregate || r.page_size is Some || r.cursor is Some {
        Some(QueryErrorView::Invalid(QueryProblem::StreamUnsupported))
    } else {
        None
    }
}

/// Checks a request for streaming: a valid request without sort, aggregation or pagination.
pub fn validate_stream_request(request: &QueryRequest) -> (r: Result<(), QueryError>)
    ensures
        match stream_request_error(*request) {
            Some(e) => r matches Err(x) && x@ == e,
            None => r is Ok,
        },
{
    if let Err(e) = validate(request) {
        return Err(e);
    }
    if request.sort.len() > 0 || request.aggregate || request.page_size.is_some() || request.cursor.is_some() {
        return Err(QueryError::Invalid(QueryProblem::StreamUnsupported));
    }
    Ok(())
}

/// Checks a request for a stream that buffers at most `capacity` records
/// ahead of its reader: the request must be able to stream, and the
/// capacity must be positive.
pub fn validate_bounded_stream(request: &QueryRequest, capacity: usize) -> (r: Result<(), QueryError>)
    ensures
        match stream_request_error(*request) {
            Some(e) => r matches Err(x) && x@ == e,
            None => if capacity == 0 {
                r matches Err(x) && x@ == QueryErrorView::Invalid(QueryProblem::StreamCapacityNotPositive)
            } else {
                r is Ok
            },
        },
{
    if let Err(e) = validate_stream_request(request) {
        return Err(e);
    }
    if capacity == 0 {
        return Err(QueryError::Invalid(QueryProblem::StreamCapacityNotPositive));
    }
    Ok(())
}

/// A stream of the records of a table that match a request.
#[derive(Debug)]
pub struct QueryStream {
    pub state: StreamState,
}

/// A stream over a snapshot of a table taken when the stream starts.
#[derive(Debug)]
pub struct QuerySnapshotStream {
    pub state: StreamState,
}

/// Starts streaming the records of a table that match a request.
pub fn stream_query(request: &QueryRequest) -> (r: Result<QueryStream, QueryError>)
    ensures
        match stream_request_error(*request) {
            Some(e) => r matches Err(x) && x@ == e,
            None => r matches Ok(s) && s.state@ == StreamState::spec_new(*request),
        },
{
    if let Err(e) = validate_stream_request(request) {
        return Err(e);
    }
    Ok(QueryStream { state: StreamState::new(request) })
}

/// Starts streaming the records of a snapshot of a table that match a request.
pub fn stream_query_snapshot(request: &QueryRequest) -> (r: Result<QuerySnapshotStream, QueryError>)
    ensures
        match stream_request_error(*request) {
            Some(e) => r matches Err(x) && x@ == e,
            None => r matches Ok(s) && s.state@ == StreamState::spec_new(*request),
        },
{
    if let Err(e) = validate_stream_request(request) {
        return Err(e);
    }
    Ok(QuerySnapshotStream { state: StreamState::new(request) })
}

impl StreamState {
    /// The state of a fresh stream for a request.
    pub open spec fn spec_new(request: QueryRequest) -> StreamView {
        StreamView {
            position: 0,
            skip: match request.skip {
                Some(s) => s,
                None => 0,
            },
            skipped: 0,
            limit: request.limit,
            yielded: 0,
            done: false,
        }
    }
}

} // verus!
