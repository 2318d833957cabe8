//! Errors of the replication log, its transport page, and its snapshot.
use vstd::prelude::*;
use super::OperationMethod;

verus! {

/// Which JSON document a size bound was applied to.
#[derive(Debug, Clone, Copy, PartialEq, Eq, Structural)]
pub enum JsonDocument {
    Entry,
    Progress,
    EntryBatch,
    Snapshot,
}

/// Why a replication value or request was rejected as invalid.
#[derive(Debug, Clone, Copy, PartialEq, Eq, Structural)]
pub enum InvalidReason {
    UnsupportedEntryVersion(u16),
    EntryPositionNotPositive,
    EmptySchemaTag,
    EmptyOperations,
    TooManyOperations,
    ReadOperation(OperationMethod),
    JsonTooLarge(JsonDocument),
    UnsupportedLogVersion(u16),
    TermNotPositive,
    IndexExhausted,
    TransactionIdExhausted,
    CommittedTransactionMismatch { committed: u64, expected: u64 },
    SidecarHeaderInvalid,
    SidecarHeaderTruncated,
    UnsupportedSidecarVersion(u8),
    ReadTransactionNotPositive,
    UnsupportedProgressVersion(u16),
    FollowerIdInvalid,
    ProgressTermNotPositive,
    ProgressPositionMismatch,
    ProgressTransactionIdExhausted,
    TooManyFollowers,
    UnsupportedSnapshotVersion(u16),
    SnapshotPositionNotPositive,
    EmptySnapshotPayload,
    SnapshotPayloadTooLarge,
    InstalledTransactionMismatch { installed: u64, expected: u64 },
    BatchLimitOutOfRange,
    EntryOffsetTooLarge,
    EntryExceedsBatchBytes,
    UnsupportedTransportVersion(u16),
    BatchPositionInvalid,
    BatchTooManyEntries,
    EntryTransactionIdExhausted,
    BatchEmptyBeforeLast,
    BatchBeyondLastIndex,
    BatchContinuationInvalid,
    RoleInvalid,
    StatusPositionInvalid,
    StatusFollowerCountTooLarge,
    SafeCompactionBeyondLast,
    DeliveryPositionNotPositive,
    SafeCompactionBeyondProgress,
    CatchUpRequiresAuthority,
    PageStartMismatch { actual: u64, expected: u64 },
    PageMadeNoProgress,
    PageDidNotAdvance,
    PageEndedEarly,
}

/// Why a replication step was refused.
#[derive(Debug, PartialEq, Eq)]
#[allow(inconsistent_fields)]
pub enum ReplicationError {
    Invalid(InvalidReason),
    Serialization(String),
    Catalog(String),
    Commit(String),
    TermMismatch { expected: u64, actual: u64 },
    IndexGap { expected: u64, actual: u64 },
    TransactionGap { expected: u64, actual: u64 },
    CatalogStateMismatch { expected: u64, actual: u64 },
    SchemaMismatch { expected: String, actual: String },
    HistoryUnavailable { index: u64, base_index: u64 },
    ConflictingDuplicate { index: u64 },
    SidecarStateMismatch,
    ReadUnavailable { requested: u64, applied: u64 },
    ReadHistoryUnavailable { requested: u64, base_transaction_id: u64 },
    SnapshotUnavailable { requested: u64, applied: u64 },
    EntriesUnavailable { requested: u64, applied: u64 },
    ProgressUnavailable { requested: u64, applied: u64 },
    ProgressRegression { follower_id: String, previous_index: u64, requested_index: u64 },
    NoFollowerProgress,
    CompactionNotAcknowledged { requested: u64, acknowledged: u64 },
    SnapshotStale { requested: u64, current: u64 },
    SnapshotConflict { transaction_id: u64 },
    SnapshotInstallRace { expected: u64, actual: u64 },
}

} // verus!
