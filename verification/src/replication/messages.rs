//! The texts of the replication errors.
use vstd::prelude::*;
use crate::text::{concat, decimal, decimal_text};
use super::{InvalidReason, JsonDocument, OperationMethod, ReplicationError};
use super::progress::MAX_REPLICATION_FOLLOWERS;
use super::transport::{MAX_REPLICATION_ENTRY_BATCH, MAX_REPLICATION_ENTRY_BATCH_BYTES};

verus! {

/// The name of an operation method.
pub open spec fn method_text(method: OperationMethod) -> Seq<char> {
    match method {
        OperationMethod::Get => "GET"@,
        OperationMethod::Query => "QUERY"@,
        OperationMethod::Post => "POST"@,
        OperationMethod::Put => "PUT"@,
        OperationMethod::Patch => "PATCH"@,
        OperationMethod::Delete => "DELETE"@,
    }
}

/// The name of an operation method.
fn method_name(method: OperationMethod) -> (r: String)
    ensures
        r@ == method_text(method),
{
    match method {
        OperationMethod::Get => "GET".to_owned(),
        OperationMethod::Query => "QUERY".to_owned(),
        OperationMethod::Post => "POST".to_owned(),
        OperationMethod::Put => "PUT".to_owned(),
        OperationMethod::Patch => "PATCH".to_owned(),
        OperationMethod::Delete => "DELETE".to_owned(),
    }
}

/// The text of an invalid replication value.
pub open spec fn invalid_text(reason: InvalidReason) -> Seq<char> {
    match reason {
        InvalidReason::UnsupportedEntryVersion(v) => "unsupported replication entry version: "@ + decimal(v as nat),
        InvalidReason::EntryPositionNotPositive => "term, index, and transaction_id must be positive"@,
        InvalidReason::EmptySchemaTag => "schema_tag must not be empty"@,
        InvalidReason::EmptyOperations => "operations must not be empty"@,
        InvalidReason::TooManyOperations => "operation count exceeds "@ + decimal(crate::MAX_OPERATION_BATCH as nat),
        InvalidReason::ReadOperation(method) => method_text(method) + " is a read operation"@,
        InvalidReason::JsonTooLarge(JsonDocument::Entry) => "replication entry JSON exceeds "@ + decimal(crate::MAX_JSON_INPUT_BYTES as nat) + " bytes"@,
        InvalidReason::JsonTooLarge(JsonDocument::Progress) => "replication progress JSON exceeds "@ + decimal(crate::MAX_JSON_INPUT_BYTES as nat) + " bytes"@,
        InvalidReason::JsonTooLarge(JsonDocument::EntryBatch) => "replication entry batch JSON exceeds "@ + decimal(MAX_REPLICATION_ENTRY_BATCH_BYTES as nat) + " bytes"@,
        InvalidReason::JsonTooLarge(JsonDocument::Snapshot) => "snapshot JSON exceeds "@ + decimal(crate::MAX_REPLICATION_SNAPSHOT_BYTES as nat) + " bytes"@,
        InvalidReason::UnsupportedLogVersion(v) => "unsupported replication log version: "@ + decimal(v as nat),
        InvalidReason::TermNotPositive => "term must be positive"@,
        InvalidReason::IndexExhausted => "replication index is exhausted"@,
        InvalidReason::TransactionIdExhausted => "replication transaction ID exhausted"@,
        InvalidReason::CommittedTransactionMismatch { committed, expected } => "catalog committed transaction "@ + decimal(committed as nat) + ", expected "@ + decimal(expected as nat),
        InvalidReason::SidecarHeaderInvalid => "replication sidecar header is invalid"@,
        InvalidReason::SidecarHeaderTruncated => "replication sidecar header is truncated"@,
        InvalidReason::UnsupportedSidecarVersion(v) => "unsupported replication sidecar version: "@ + decimal(v as nat),
        InvalidReason::ReadTransactionNotPositive => "follower read transaction_id must be positive"@,
        InvalidReason::UnsupportedProgressVersion(v) => "unsupported replication progress version: "@ + decimal(v as nat),
        InvalidReason::FollowerIdInvalid => "follower_id must be 1 to 128 ASCII letters, digits, '.', '_', or '-'"@,
        InvalidReason::ProgressTermNotPositive => "progress term must be positive"@,
        InvalidReason::ProgressPositionMismatch => "progress index and transaction_id must both be zero or both be positive"@,
        InvalidReason::ProgressTransactionIdExhausted => "progress transaction ID exhausted"@,
        InvalidReason::TooManyFollowers => "replication follower count exceeds "@ + decimal(MAX_REPLICATION_FOLLOWERS as nat),
        InvalidReason::UnsupportedSnapshotVersion(v) => "unsupported replication snapshot version: "@ + decimal(v as nat),
        InvalidReason::SnapshotPositionNotPositive => "snapshot term, last_index, and last_transaction_id must be positive"@,
        InvalidReason::EmptySnapshotPayload => "snapshot catalog payload must not be empty"@,
        InvalidReason::SnapshotPayloadTooLarge => "snapshot catalog payload exceeds "@ + decimal(crate::MAX_REPLICATION_SNAPSHOT_BYTES as nat) + " bytes"@,
        InvalidReason::InstalledTransactionMismatch { installed, expected } => "catalog installed transaction "@ + decimal(installed as nat) + ", expected "@ + decimal(expected as nat),
        InvalidReason::BatchLimitOutOfRange => "replication entry batch limit must be between 1 and "@ + decimal(MAX_REPLICATION_ENTRY_BATCH as nat),
        InvalidReason::EntryOffsetTooLarge => "replication entry offset is too large"@,
        InvalidReason::EntryExceedsBatchBytes => "one replication entry exceeds the "@ + decimal(MAX_REPLICATION_ENTRY_BATCH_BYTES as nat) + "-byte batch response limit"@,
        InvalidReason::UnsupportedTransportVersion(v) => "unsupported replication transport version: "@ + decimal(v as nat),
        InvalidReason::BatchPositionInvalid => "replication entry batch position is invalid"@,
        InvalidReason::BatchTooManyEntries => "replication entry batch exceeds "@ + decimal(MAX_REPLICATION_ENTRY_BATCH as nat) + " entries"@,
        InvalidReason::EntryTransactionIdExhausted => "replication entry transaction ID is exhausted"@,
        InvalidReason::BatchEmptyBeforeLast => "replication entry batch cannot be empty before the last index"@,
        InvalidReason::BatchBeyondLastIndex => "replication entry batch extends beyond last_index"@,
        InvalidReason::BatchContinuationInvalid => "replication entry batch continuation is invalid"@,
        InvalidReason::RoleInvalid => "replication role is invalid"@,
        InvalidReason::StatusPositionInvalid => "replication status position is invalid"@,
        InvalidReason::StatusFollowerCountTooLarge => "replication follower count exceeds the configured maximum"@,
        InvalidReason::SafeCompactionBeyondLast => "safe compaction index exceeds the last replication index"@,
        InvalidReason::DeliveryPositionNotPositive => "replication delivery position must be positive"@,
        InvalidReason::SafeCompactionBeyondProgress => "safe compaction index exceeds acknowledged progress"@,
        InvalidReason::CatchUpRequiresAuthority => "replication catch-up requires an authority endpoint"@,
        InvalidReason::PageStartMismatch { actual, expected } => "replication entry page starts at "@ + decimal(actual as nat) + ", expected "@ + decimal(expected as nat),
        InvalidReason::PageMadeNoProgress => "replication entry page made no progress"@,
        InvalidReason::PageDidNotAdvance => "replication entry page did not advance the local log"@,
        InvalidReason::PageEndedEarly => "replication entry page ended before the authority position"@,
    }
}

/// The text of an invalid replication value.
pub fn invalid_message(reason: &InvalidReason) -> (r: String)
    ensures
        r@ == invalid_text(*reason),
{
    match reason {
        InvalidReason::UnsupportedEntryVersion(v) => concat("unsupported replication entry version: ", &decimal_text(*v as u64)),
        InvalidReason::EntryPositionNotPositive => "term, index, and transaction_id must be positive".to_owned(),
        InvalidReason::EmptySchemaTag => "schema_tag must not be empty".to_owned(),
        InvalidReason::EmptyOperations => "operations must not be empty".to_owned(),
        InvalidReason::TooManyOperations => concat("operation count exceeds ", &decimal_text(crate::MAX_OPERATION_BATCH as u64)),
        InvalidReason::ReadOperation(method) => concat(&method_name(*method), " is a read operation"),
        InvalidReason::JsonTooLarge(JsonDocument::Entry) => concat(&concat("replication entry JSON exceeds ", &decimal_text(crate::MAX_JSON_INPUT_BYTES as u64)), " bytes"),
        InvalidReason::JsonTooLarge(JsonDocument::Progress) => concat(&concat("replication progress JSON exceeds ", &decimal_text(crate::MAX_JSON_INPUT_BYTES as u64)), " bytes"),
        InvalidReason::JsonTooLarge(JsonDocument::EntryBatch) => concat(&concat("replication entry batch JSON exceeds ", &decimal_text(MAX_REPLICATION_ENTRY_BATCH_BYTES as u64)), " bytes"),
        InvalidReason::JsonTooLarge(JsonDocument::Snapshot) => concat(&concat("snapshot JSON exceeds ", &decimal_text(crate::MAX_REPLICATION_SNAPSHOT_BYTES as u64)), " bytes"),
        InvalidReason::UnsupportedLogVersion(v) => concat("unsupported replication log version: ", &decimal_text(*v as u64)),
        InvalidReason::TermNotPositive => "term must be positive".to_owned(),
        InvalidReason::IndexExhausted => "replication index is exhausted".to_owned(),
        InvalidReason::TransactionIdExhausted => "replication transaction ID exhausted".to_owned(),
        InvalidReason::CommittedTransactionMismatch { committed, expected } => concat(&concat(&concat("catalog committed transaction ", &decimal_text(*committed as u64)), ", expected "), &decimal_text(*expected as u64)),
        InvalidReason::SidecarHeaderInvalid => "replication sidecar header is invalid".to_owned(),
        InvalidReason::SidecarHeaderTruncated => "replication sidecar header is truncated".to_owned(),
        InvalidReason::UnsupportedSidecarVersion(v) => concat("unsupported replication sidecar version: ", &decimal_text(*v as u64)),
        InvalidReason::ReadTransactionNotPositive => "follower read transaction_id must be positive".to_owned(),
        InvalidReason::UnsupportedProgressVersion(v) => concat("unsupported replication progress version: ", &decimal_text(*v as u64)),
        InvalidReason::FollowerIdInvalid => "follower_id must be 1 to 128 ASCII letters, digits, '.', '_', or '-'".to_owned(),
        InvalidReason::ProgressTermNotPositive => "progress term must be positive".to_owned(),
        InvalidReason::ProgressPositionMismatch => "progress index and transaction_id must both be zero or both be positive".to_owned(),
        InvalidReason::ProgressTransactionIdExhausted => "progress transaction ID exhausted".to_owned(),
        InvalidReason::TooManyFollowers => concat("replication follower count exceeds ", &decimal_text(MAX_REPLICATION_FOLLOWERS as u64)),
        InvalidReason::UnsupportedSnapshotVersion(v) => concat("unsupported replication snapshot version: ", &decimal_text(*v as u64)),
        InvalidReason::SnapshotPositionNotPositive => "snapshot term, last_index, and last_transaction_id must be positive".to_owned(),
        InvalidReason::EmptySnapshotPayload => "snapshot catalog payload must not be empty".to_owned(),
        InvalidReason::SnapshotPayloadTooLarge => concat(&concat("snapshot catalog payload exceeds ", &decimal_text(crate::MAX_REPLICATION_SNAPSHOT_BYTES as u64)), " bytes"),
        InvalidReason::InstalledTransactionMismatch { installed, expected } => concat(&concat(&concat("catalog installed transaction ", &decimal_text(*installed as u64)), ", expected "), &decimal_text(*expected as u64)),
        InvalidReason::BatchLimitOutOfRange => concat("replication entry batch limit must be between 1 and ", &decimal_text(MAX_REPLICATION_ENTRY_BATCH as u64)),
        InvalidReason::EntryOffsetTooLarge => "replication entry offset is too large".to_owned(),
        InvalidReason::EntryExceedsBatchBytes => concat(&concat("one replication entry exceeds the ", &decimal_text(MAX_REPLICATION_ENTRY_BATCH_BYTES as u64)), "-byte batch response limit"),
        InvalidReason::UnsupportedTransportVersion(v) => concat("unsupported replication transport version: ", &decimal_text(*v as u64)),
        InvalidReason::BatchPositionInvalid => "replication entry batch position is invalid".to_owned(),
        InvalidReason::BatchTooManyEntries => concat(&concat("replication entry batch exceeds ", &decimal_text(MAX_REPLICATION_ENTRY_BATCH as u64)), " entries"),
        InvalidReason::EntryTransactionIdExhausted => "replication entry transaction ID is exhausted".to_owned(),
        InvalidReason::BatchEmptyBeforeLast => "replication entry batch cannot be empty before the last index".to_owned(),
        InvalidReason::BatchBeyondLastIndex => "replication entry batch extends beyond last_index".to_owned(),
        InvalidReason::BatchContinuationInvalid => "replication entry batch continuation is invalid".to_owned(),
        InvalidReason::RoleInvalid => "replication role is invalid".to_owned(),
        InvalidReason::StatusPositionInvalid => "replication status position is invalid".to_owned(),
        InvalidReason::StatusFollowerCountTooLarge => "replication follower count exceeds the configured maximum".to_owned(),
        InvalidReason::SafeCompactionBeyondLast => "safe compaction index exceeds the last replication index".to_owned(),
        InvalidReason::DeliveryPositionNotPositive => "replication delivery position must be positive".to_owned(),
        InvalidReason::SafeCompactionBeyondProgress => "safe compaction index exceeds acknowledged progress".to_owned(),
        InvalidReason::CatchUpRequiresAuthority => "replication catch-up requires an authority endpoint".to_owned(),
        InvalidReason::PageStartMismatch { actual, expected } => concat(&concat(&concat("replication entry page starts at ", &decimal_text(*actual as u64)), ", expected "), &decimal_text(*expected as u64)),
        InvalidReason::PageMadeNoProgress => "replication entry page made no progress".to_owned(),
        InvalidReason::PageDidNotAdvance => "replication entry page did not advance the local log".to_owned(),
        InvalidReason::PageEndedEarly => "replication entry page ended before the authority position".to_owned(),
    }
}

/// The text of a replication error.
pub open spec fn error_text(error: ReplicationError) -> Seq<char> {
    match error {
        ReplicationError::Invalid(reason) => "invalid replication state: "@ + invalid_text(reason),
        ReplicationError::Serialization(m) => "replication serialization error: "@ + m@,
        ReplicationError::Catalog(m) => "replication catalog read error: "@ + m@,
        ReplicationError::Commit(m) => "replication catalog commit error: "@ + m@,
        ReplicationError::TermMismatch { expected, actual } => "replication term mismatch: expected "@ + decimal(expected as nat) + ", got "@ + decimal(actual as nat),
        ReplicationError::IndexGap { expected, actual } => "replication index gap: expected "@ + decimal(expected as nat) + ", got "@ + decimal(actual as nat),
        ReplicationError::TransactionGap { expected, actual } => "replication transaction gap: expected "@ + decimal(expected as nat) + ", got "@ + decimal(actual as nat),
        ReplicationError::CatalogStateMismatch { expected, actual } => "replication catalog position mismatch: expected "@ + decimal(expected as nat) + ", got "@ + decimal(actual as nat),
        ReplicationError::SchemaMismatch { expected, actual } => "replication schema mismatch: expected "@ + expected@ + ", got "@ + actual@,
        ReplicationError::HistoryUnavailable { index, base_index } => "replication history for index "@ + decimal(index as nat) + " is unavailable before base index "@ + decimal(base_index as nat),
        ReplicationError::ConflictingDuplicate { index } => "conflicting duplicate replication entry at index "@ + decimal(index as nat),
        ReplicationError::SidecarStateMismatch => "replication sidecar does not match the in-memory log"@,
        ReplicationError::ReadUnavailable { requested, applied } => "follower read transaction "@ + decimal(requested as nat) + " is beyond applied transaction "@ + decimal(applied as nat),
        ReplicationError::ReadHistoryUnavailable { requested, base_transaction_id } => "follower read transaction "@ + decimal(requested as nat) + " is unavailable at log base transaction "@ + decimal(base_transaction_id as nat),
        ReplicationError::SnapshotUnavailable { requested, applied } => "replication snapshot index "@ + decimal(requested as nat) + " is beyond applied index "@ + decimal(applied as nat),
        ReplicationError::EntriesUnavailable { requested, applied } => "replication entry index "@ + decimal(requested as nat) + " is beyond applied index "@ + decimal(applied as nat),
        ReplicationError::ProgressUnavailable { requested, applied } => "replication progress index "@ + decimal(requested as nat) + " is beyond applied index "@ + decimal(applied as nat),
        ReplicationError::ProgressRegression { follower_id, previous_index, requested_index } => "replication progress for follower "@ + follower_id@ + " regressed from index "@ + decimal(previous_index as nat) + " to "@ + decimal(requested_index as nat),
        ReplicationError::NoFollowerProgress => "replication compaction requires progress from at least one follower"@,
        ReplicationError::CompactionNotAcknowledged { requested, acknowledged } => "replication compaction index "@ + decimal(requested as nat) + " exceeds the lowest acknowledged follower index "@ + decimal(acknowledged as nat),
        ReplicationError::SnapshotStale { requested, current } => "replication snapshot transaction "@ + decimal(requested as nat) + " is not newer than catalog transaction "@ + decimal(current as nat),
        ReplicationError::SnapshotConflict { transaction_id } => "replication snapshot conflicts with catalog transaction "@ + decimal(transaction_id as nat),
        ReplicationError::SnapshotInstallRace { expected, actual } => "replication snapshot install raced with catalog transaction "@ + decimal(expected as nat) + " becoming "@ + decimal(actual as nat),
    }
}

impl ReplicationError {
    /// The text of this error, as its messages read.
    pub fn message(&self) -> (r: String)
        ensures
            r@ == error_text(*self),
    {
        match self {
            ReplicationError::Invalid(reason) => concat("invalid replication state: ", &invalid_message(reason)),
            ReplicationError::Serialization(m) => concat("replication serialization error: ", m.as_str()),
            ReplicationError::Catalog(m) => concat("replication catalog read error: ", m.as_str()),
            ReplicationError::Commit(m) => concat("replication catalog commit error: ", m.as_str()),
            ReplicationError::TermMismatch { expected, actual } => concat(&concat(&concat("replication term mismatch: expected ", &decimal_text(*expected as u64)), ", got "), &decimal_text(*actual as u64)),
            ReplicationError::IndexGap { expected, actual } => concat(&concat(&concat("replication index gap: expected ", &decimal_text(*expected as u64)), ", got "), &decimal_text(*actual as u64)),
            ReplicationError::TransactionGap { expected, actual } => concat(&concat(&concat("replication transaction gap: expected ", &decimal_text(*expected as u64)), ", got "), &decimal_text(*actual as u64)),
            ReplicationError::CatalogStateMismatch { expected, actual } => concat(&concat(&concat("replication catalog position mismatch: expected ", &decimal_text(*expected as u64)), ", got "), &decimal_text(*actual as u64)),
            ReplicationError::SchemaMismatch { expected, actual } => concat(&concat(&concat("replication schema mismatch: expected ", expected.as_str()), ", got "), actual.as_str()),
            ReplicationError::HistoryUnavailable { index, base_index } => concat(&concat(&concat("replication history for index ", &decimal_text(*index as u64)), " is unavailable before base index "), &decimal_text(*base_index as u64)),
            ReplicationError::ConflictingDuplicate { index } => concat("conflicting duplicate replication entry at index ", &decimal_text(*index as u64)),
            ReplicationError::SidecarStateMismatch => "replication sidecar does not match the in-memory log".to_owned(),
            ReplicationError::ReadUnavailable { requested, applied } => concat(&concat(&concat("follower read transaction ", &decimal_text(*requested as u64)), " is beyond applied transaction "), &decimal_text(*applied as u64)),
            ReplicationError::ReadHistoryUnavailable { requested, base_transaction_id } => concat(&concat(&concat("follower read transaction ", &decimal_text(*requested as u64)), " is unavailable at log base transaction "), &decimal_text(*base_transaction_id as u64)),
            ReplicationError::SnapshotUnavailable { requested, applied } => concat(&concat(&concat("replication snapshot index ", &decimal_text(*requested as u64)), " is beyond applied index "), &decimal_text(*applied as u64)),
            ReplicationError::EntriesUnavailable { requested, applied } => concat(&concat(&concat("replication entry index ", &decimal_text(*requested as u64)), " is beyond applied index "), &decimal_text(*applied as u64)),
            ReplicationError::ProgressUnavailable { requested, applied } => concat(&concat(&concat("replication progress index ", &decimal_text(*requested as u64)), " is beyond applied index "), &decimal_text(*applied as u64)),
            ReplicationError::ProgressRegression { follower_id, previous_index, requested_index } => concat(&concat(&concat(&concat(&concat("replication progress for follower ", follower_id.as_str()), " regressed from index "), &decimal_text(*previous_index as u64)), " to "), &decimal_text(*requested_index as u64)),
            ReplicationError::NoFollowerProgress => "replication compaction requires progress from at least one follower".to_owned(),
            ReplicationError::CompactionNotAcknowledged { requested, acknowledged } => concat(&concat(&concat("replication compaction index ", &decimal_text(*requested as u64)), " exceeds the lowest acknowledged follower index "), &decimal_text(*acknowledged as u64)),
            ReplicationError::SnapshotStale { requested, current } => concat(&concat(&concat("replication snapshot transaction ", &decimal_text(*requested as u64)), " is not newer than catalog transaction "), &decimal_text(*current as u64)),
            ReplicationError::SnapshotConflict { transaction_id } => concat("replication snapshot conflicts with catalog transaction ", &decimal_text(*transaction_id as u64)),
            ReplicationError::SnapshotInstallRace { expected, actual } => concat(&concat(&concat("replication snapshot install raced with catalog transaction ", &decimal_text(*expected as u64)), " becoming "), &decimal_text(*actual as u64)),
        }
    }
}

} // verus!
