//! Deterministic single-authority replication entries and the log that
//! orders them.
//!
//! The log gives the local authority and its followers the same versioned
//! entry, ordering, schema, and duplicate-delivery contract. The catalog that
//! entries commit into is observed through plain values (`CatalogState`), and
//! each step that writes to it is split into a decision here and a completion
//! step once the commit has happened.
use vstd::prelude::*;
use crate::text::{is_blank, same_text, spec_is_blank};

pub mod error;
pub mod log;
pub mod http;
pub mod laws;
pub mod messages;
pub mod progress;
pub mod snapshot;
pub mod transport;

pub use error::{InvalidReason, JsonDocument, ReplicationError};

verus! {

pub const REPLICATION_ENTRY_VERSION: u16 = 1;
pub const REPLICATION_LOG_VERSION: u16 = 1;
pub const REPLICATION_TRANSPORT_VERSION: u16 = 1;
pub const MAX_REPLICATION_ENTRY_BYTES: usize = crate::MAX_JSON_INPUT_BYTES;

/// The method of an operation that an entry carries.
#[derive(Debug, Clone, Copy, PartialEq, Eq, Structural)]
pub enum OperationMethod {
    Get,
    Query,
    Post,
    Put,
    Patch,
    Delete,
}

impl OperationMethod {
    /// A method that only reads.
    pub open spec fn spec_is_read(self) -> bool {
        self == OperationMethod::Get || self == OperationMethod::Query
    }

    /// Whether the method only reads.
    pub fn is_read(&self) -> (b: bool)
        ensures
            b == self.spec_is_read(),
    {
        match self {
            OperationMethod::Get | OperationMethod::Query => true,
            _ => false,
        }
    }
}

/// One named-table operation of an entry: a method, a route path, and an
/// optional JSON document body kept as text.
#[derive(Debug)]
pub struct OperationIr {
    pub method: OperationMethod,
    pub path: String,
    pub body: Option<String>,
}

/// An operation as plain values.
pub struct OperationView {
    pub method: OperationMethod,
    pub path: Seq<char>,
    pub body: Option<Seq<char>>,
}

impl View for OperationIr {
    type V = OperationView;

    open spec fn view(&self) -> OperationView {
        OperationView {
            method: self.method,
            path: self.path@,
            body: match self.body {
                Some(b) => Some(b@),
                None => None,
            },
        }
    }
}

impl OperationIr {
    /// A copy of the operation.
    pub fn duplicate(&self) -> (r: Self)
        ensures
            r@ == self@,
    {
        OperationIr {
            method: self.method,
            path: self.path.clone(),
            body: match &self.body {
                Some(b) => Some(b.clone()),
                None => None,
            },
        }
    }

    /// Whether two operations are the same.
    pub fn same_as(&self, other: &Self) -> (r: bool)
        ensures
            r == (self@ == other@),
    {
        if self.method != other.method || !same_text(&self.path, &other.path) {
            return false;
        }
        match (&self.body, &other.body) {
            (Some(a), Some(b)) => same_text(a, b),
            (None, None) => true,
            _ => false,
        }
    }
}

/// A copy of every operation, in order.
pub fn duplicate_operations(ops: &Vec<OperationIr>) -> (r: Vec<OperationIr>)
    ensures
        r@.map_values(|o: OperationIr| o@) == ops@.map_values(|o: OperationIr| o@),
{
    let mut r: Vec<OperationIr> = Vec::new();
    let mut i: usize = 0;
    while i < ops.len()
        invariant
            i <= ops.len(),
            r@.len() == i,
            forall|j: int| 0 <= j < i ==> (#[trigger] r@[j])@ == ops@[j]@,
        decreases ops.len() - i,
    {
        r.push(ops[i].duplicate());
        i += 1;
    }
    assert(r@.map_values(|o: OperationIr| o@) =~= ops@.map_values(|o: OperationIr| o@));
    r
}

/// One committed, versioned replication entry.
#[derive(Debug)]
pub struct ReplicationEntry {
    pub version: u16,
    pub term: u64,
    pub index: u64,
    pub transaction_id: u64,
    pub schema_tag: String,
    pub operations: Vec<OperationIr>,
}

/// An entry as plain values.
pub struct EntryView {
    pub version: u16,
    pub term: u64,
    pub index: u64,
    pub transaction_id: u64,
    pub schema_tag: Seq<char>,
    pub operations: Seq<OperationView>,
}

impl View for ReplicationEntry {
    type V = EntryView;

    open spec fn view(&self) -> EntryView {
        EntryView {
            version: self.version,
            term: self.term,
            index: self.index,
            transaction_id: self.transaction_id,
            schema_tag: self.schema_tag@,
            operations: self.operations@.map_values(|o: OperationIr| o@),
        }
    }
}

/// The first reason an entry is not valid, if any.
pub open spec fn entry_error(e: EntryView) -> Option<ReplicationError> {
    if e.version != REPLICATION_ENTRY_VERSION {
        Some(ReplicationError::Invalid(InvalidReason::UnsupportedEntryVersion(e.version)))
    } else if e.term == 0 || e.index == 0 || e.transaction_id == 0 {
        Some(ReplicationError::Invalid(InvalidReason::EntryPositionNotPositive))
    } else if spec_is_blank(e.schema_tag) {
        Some(ReplicationError::Invalid(InvalidReason::EmptySchemaTag))
    } else if e.operations.len() == 0 {
        Some(ReplicationError::Invalid(InvalidReason::EmptyOperations))
    } else if e.operations.len() > crate::MAX_OPERATION_BATCH {
        Some(ReplicationError::Invalid(InvalidReason::TooManyOperations))
    } else if has_read(e.operations) {
        Some(ReplicationError::Invalid(InvalidReason::ReadOperation(e.operations[first_read(e.operations)].method)))
    } else {
        None
    }
}

/// An entry that passes its check.
pub open spec fn entry_valid(e: EntryView) -> bool {
    entry_error(e) is None
}

/// The result a validation with the given first failure returns.
pub open spec fn as_result(error: Option<ReplicationError>) -> Result<(), ReplicationError> {
    match error {
        Some(e) => Err(e),
        None => Ok(()),
    }
}

/// Some operation only reads.
pub open spec fn has_read(ops: Seq<OperationView>) -> bool {
    exists|i: int| 0 <= i < ops.len() && (#[trigger] ops[i]).method.spec_is_read()
}

/// `ops[k]` is the first operation that only reads.
pub open spec fn is_first_read(ops: Seq<OperationView>, k: int) -> bool {
    &&& 0 <= k < ops.len()
    &&& ops[k].method.spec_is_read()
    &&& forall|j: int| 0 <= j < k ==> !(#[trigger] ops[j]).method.spec_is_read()
}

/// The position of the first read operation.
pub open spec fn first_read(ops: Seq<OperationView>) -> int {
    choose|k: int| is_first_read(ops, k)
}

/// The first read operation lies at `i` when it is a read and none precedes it.
proof fn lemma_first_read(ops: Seq<OperationView>, i: int)
    requires
        is_first_read(ops, i),
    ensures
        first_read(ops) == i,
        has_read(ops),
{
    let k = first_read(ops);
    assert(is_first_read(ops, k));
    if k < i {
        assert(!ops[k].method.spec_is_read());
    } else if k > i {
        assert(!ops[i].method.spec_is_read());
    }
}

impl ReplicationEntry {
    /// Builds a version-one entry and validates it.
    pub fn new(
        term: u64,
        index: u64,
        transaction_id: u64,
        schema_tag: String,
        operations: Vec<OperationIr>,
    ) -> (r: Result<Self, ReplicationError>)
        ensures
            match r {
                Ok(e) => e@ == (EntryView {
                    version: REPLICATION_ENTRY_VERSION,
                    term,
                    index,
                    transaction_id,
                    schema_tag: schema_tag@,
                    operations: operations@.map_values(|o: OperationIr| o@),
                }) && entry_valid(e@),
                Err(err) => entry_error(EntryView {
                    version: REPLICATION_ENTRY_VERSION,
                    term,
                    index,
                    transaction_id,
                    schema_tag: schema_tag@,
                    operations: operations@.map_values(|o: OperationIr| o@),
                }) == Some(err),
            },
    {
        let entry = ReplicationEntry {
            version: REPLICATION_ENTRY_VERSION,
            term,
            index,
            transaction_id,
            schema_tag,
            operations,
        };
        match entry.validate() {
            Ok(()) => Ok(entry),
            Err(e) => Err(e),
        }
    }

    /// Checks an entry.
    #[verifier::loop_isolation(false)]
    pub fn validate(&self) -> (r: Result<(), ReplicationError>)
        ensures
            r == as_result(entry_error(self@)),
    {
        if self.version != REPLICATION_ENTRY_VERSION {
            return Err(ReplicationError::Invalid(InvalidReason::UnsupportedEntryVersion(self.version)));
        }
        if self.term == 0 || self.index == 0 || self.transaction_id == 0 {
            return Err(ReplicationError::Invalid(InvalidReason::EntryPositionNotPositive));
        }
        if is_blank(&self.schema_tag) {
            return Err(ReplicationError::Invalid(InvalidReason::EmptySchemaTag));
        }
        if self.operations.len() == 0 {
            return Err(ReplicationError::Invalid(InvalidReason::EmptyOperations));
        }
        if self.operations.len() > crate::MAX_OPERATION_BATCH {
            return Err(ReplicationError::Invalid(InvalidReason::TooManyOperations));
        }
        let ghost ops = self@.operations;
        let mut i: usize = 0;
        while i < self.operations.len()
            invariant
                i <= self.operations.len(),
                ops == self@.operations,
                ops.len() == self.operations@.len(),
                forall|j: int| 0 <= j < i ==> !(#[trigger] ops[j]).method.spec_is_read(),
            decreases self.operations.len() - i,
        {
            if self.operations[i].method.is_read() {
                assert(ops[i as int].method == self.operations@[i as int].method);
                proof {
                    lemma_first_read(ops, i as int);
                }
                return Err(ReplicationError::Invalid(InvalidReason::ReadOperation(self.operations[i].method)));
            }
            assert(ops[i as int].method == self.operations@[i as int].method);
            i += 1;
        }
        Ok(())
    }

    /// A copy of the entry.
    pub fn duplicate(&self) -> (r: Self)
        ensures
            r@ == self@,
    {
        ReplicationEntry {
            version: self.version,
            term: self.term,
            index: self.index,
            transaction_id: self.transaction_id,
            schema_tag: self.schema_tag.clone(),
            operations: duplicate_operations(&self.operations),
        }
    }

    /// Whether two entries are the same.
    pub fn same_as(&self, other: &Self) -> (r: bool)
        ensures
            r == (self@ == other@),
    {
        if self.version != other.version || self.term != other.term || self.index != other.index
            || self.transaction_id != other.transaction_id || !same_text(&self.schema_tag, &other.schema_tag)
            || self.operations.len() != other.operations.len() {
            assert(self@.operations.len() == self.operations.len());
            assert(other@.operations.len() == other.operations.len());
            return false;
        }
        let mut i: usize = 0;
        while i < self.operations.len()
            invariant
                i <= self.operations.len(),
                self.operations.len() == other.operations.len(),
                forall|j: int| 0 <= j < i ==> (#[trigger] self.operations@[j])@ == other.operations@[j]@,
            decreases self.operations.len() - i,
        {
            if !self.operations[i].same_as(&other.operations[i]) {
                assert(self@.operations[i as int] != other@.operations[i as int]);
                return false;
            }
            i += 1;
        }
        assert(self@.operations =~= other@.operations);
        true
    }
}

/// Rejects a serialized document longer than its bound.
pub fn check_json_size(document: JsonDocument, len: usize) -> (r: Result<(), ReplicationError>)
    ensures
        r == (if len > json_limit(document) {
            Err(ReplicationError::Invalid(InvalidReason::JsonTooLarge(document)))
        } else {
            Ok(())
        }),
{
    let limit = match document {
        JsonDocument::Entry => MAX_REPLICATION_ENTRY_BYTES,
        JsonDocument::Progress => crate::MAX_JSON_INPUT_BYTES,
        JsonDocument::EntryBatch => crate::MAX_JSON_INPUT_BYTES,
        JsonDocument::Snapshot => crate::MAX_REPLICATION_SNAPSHOT_BYTES,
    };
    if len > limit {
        Err(ReplicationError::Invalid(InvalidReason::JsonTooLarge(document)))
    } else {
        Ok(())
    }
}

/// The largest JSON text accepted for a kind of document, in bytes.
pub open spec fn json_limit(document: JsonDocument) -> usize {
    match document {
        JsonDocument::Entry => MAX_REPLICATION_ENTRY_BYTES,
        JsonDocument::Progress => crate::MAX_JSON_INPUT_BYTES,
        JsonDocument::EntryBatch => crate::MAX_JSON_INPUT_BYTES,
        JsonDocument::Snapshot => crate::MAX_REPLICATION_SNAPSHOT_BYTES,
    }
}

} // verus!
