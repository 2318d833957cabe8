//! Transport-independent catalog snapshots and their installation.
use vstd::prelude::*;
use crate::text::{is_blank, same_text, spec_is_blank};
use super::{InvalidReason, ReplicationError, as_result};
use super::log::{ApplyOutcome, CatalogState, ReplicationLog, catalog_position_error, fresh_log, last_index};

verus! {

pub const REPLICATION_SNAPSHOT_VERSION: u16 = 1;
pub const MAX_REPLICATION_SNAPSHOT_BYTES: usize = crate::MAX_REPLICATION_SNAPSHOT_BYTES;

/// A retained catalog image at an applied log position.
#[derive(Debug)]
pub struct ReplicationSnapshot {
    pub version: u16,
    pub term: u64,
    pub last_index: u64,
    pub last_transaction_id: u64,
    pub schema_tag: String,
    pub catalog: Vec<u8>,
}

/// The first reason a snapshot is not valid against the transaction
/// position and schema tag that its catalog image records, if any.
pub open spec fn snapshot_error(s: ReplicationSnapshot, image: CatalogState) -> Option<ReplicationError> {
    if s.version != REPLICATION_SNAPSHOT_VERSION {
        Some(ReplicationError::Invalid(InvalidReason::UnsupportedSnapshotVersion(s.version)))
    } else if s.term == 0 || s.last_index == 0 || s.last_transaction_id == 0 {
        Some(ReplicationError::Invalid(InvalidReason::SnapshotPositionNotPositive))
    } else if spec_is_blank(s.schema_tag@) {
        Some(ReplicationError::Invalid(InvalidReason::EmptySchemaTag))
    } else if s.catalog@.len() == 0 {
        Some(ReplicationError::Invalid(InvalidReason::EmptySnapshotPayload))
    } else if s.catalog@.len() > MAX_REPLICATION_SNAPSHOT_BYTES {
        Some(ReplicationError::Invalid(InvalidReason::SnapshotPayloadTooLarge))
    } else if image.transaction_id != s.last_transaction_id {
        Some(ReplicationError::TransactionGap { expected: s.last_transaction_id, actual: image.transaction_id })
    } else if image.schema_tag@ != s.schema_tag@ {
        Some(ReplicationError::SchemaMismatch { expected: image.schema_tag, actual: s.schema_tag })
    } else {
        None
    }
}

/// Whether two byte strings are equal.
pub fn bytes_equal(a: &[u8], b: &[u8]) -> (r: bool)
    ensures
        r == (a@ == b@),
{
    if a.len() != b.len() {
        return false;
    }
    let mut i: usize = 0;
    while i < a.len()
        invariant
            i <= a.len(),
            a.len() == b.len(),
            forall|j: int| 0 <= j < i ==> a@[j] == b@[j],
        decreases a.len() - i,
    {
        if a[i] != b[i] {
            assert(a@[i as int] != b@[i as int]);
            return false;
        }
        i += 1;
    }
    assert(a@ =~= b@);
    true
}

impl ReplicationSnapshot {
    /// A snapshot of the catalog image at the given position, checked.
    pub fn new(
        term: u64,
        last_index: u64,
        last_transaction_id: u64,
        schema_tag: String,
        catalog: Vec<u8>,
        image: &CatalogState,
    ) -> (r: Result<Self, ReplicationError>)
        ensures
            match r {
                Ok(s) => {
                    &&& s.version == REPLICATION_SNAPSHOT_VERSION
                    &&& s.term == term
                    &&& s.last_index == last_index
                    &&& s.last_transaction_id == last_transaction_id
                    &&& s.schema_tag == schema_tag
                    &&& s.catalog == catalog
                    &&& snapshot_error(s, *image) is None
                },
                Err(e) => snapshot_error(
                    ReplicationSnapshot {
                        version: REPLICATION_SNAPSHOT_VERSION,
                        term,
                        last_index,
                        last_transaction_id,
                        schema_tag,
                        catalog,
                    },
                    *image,
                ) == Some(e),
            },
    {
        let snapshot = ReplicationSnapshot {
            version: REPLICATION_SNAPSHOT_VERSION,
            term,
            last_index,
            last_transaction_id,
            schema_tag,
            catalog,
        };
        match snapshot.validate(image) {
            Ok(()) => Ok(snapshot),
            Err(e) => Err(e),
        }
    }

    /// Validates the snapshot against what its catalog image records.
    pub fn validate(&self, image: &CatalogState) -> (r: Result<(), ReplicationError>)
        ensures
            r == as_result(snapshot_error(*self, *image)),
    {
        if self.version != REPLICATION_SNAPSHOT_VERSION {
            return Err(ReplicationError::Invalid(InvalidReason::UnsupportedSnapshotVersion(self.version)));
        }
        if self.term == 0 || self.last_index == 0 || self.last_transaction_id == 0 {
            return Err(ReplicationError::Invalid(InvalidReason::SnapshotPositionNotPositive));
        }
        if is_blank(&self.schema_tag) {
            return Err(ReplicationError::Invalid(InvalidReason::EmptySchemaTag));
        }
        if self.catalog.len() == 0 {
            return Err(ReplicationError::Invalid(InvalidReason::EmptySnapshotPayload));
        }
        if self.catalog.len() > MAX_REPLICATION_SNAPSHOT_BYTES {
            return Err(ReplicationError::Invalid(InvalidReason::SnapshotPayloadTooLarge));
        }
        if image.transaction_id != self.last_transaction_id {
            return Err(ReplicationError::TransactionGap {
                expected: self.last_transaction_id,
                actual: image.transaction_id,
            });
        }
        if !same_text(&image.schema_tag, &self.schema_tag) {
            return Err(ReplicationError::SchemaMismatch {
                expected: image.schema_tag.clone(),
                actual: self.schema_tag.clone(),
            });
        }
        Ok(())
    }
}

/// How an accepted snapshot is to be installed: the catalog already holds
/// its transaction (and must hold its exact image), or the image is to be
/// installed over the catalog at `current`.
#[derive(Debug, Clone, Copy, PartialEq, Eq, Structural)]
pub enum SnapshotInstall {
    AlreadyCurrent,
    Install { current: u64 },
}

/// Why the catalog refused to install an image.
#[derive(Debug)]
pub enum InstallFailure {
    /// The catalog was no longer at the expected transaction.
    PreconditionFailed { expected: u64, actual: u64 },
    /// Any other commit failure, by its message.
    Other(String),
}

/// What the snapshot-install decision yields.
pub open spec fn spec_install_snapshot(current: u64, l_term: u64, s: ReplicationSnapshot, image: CatalogState) -> Result<SnapshotInstall, ReplicationError> {
    if snapshot_error(s, image) is Some {
        Err(snapshot_error(s, image).unwrap())
    } else if s.term != l_term {
        Err(ReplicationError::TermMismatch { expected: l_term, actual: s.term })
    } else if current > s.last_transaction_id {
        Err(ReplicationError::SnapshotStale { requested: s.last_transaction_id, current })
    } else if current == s.last_transaction_id {
        Ok(SnapshotInstall::AlreadyCurrent)
    } else {
        Ok(SnapshotInstall::Install { current })
    }
}

impl ReplicationLog {
    /// Captures the current applied catalog image, exported at
    /// `transaction_id` with `schema_tag`, as a snapshot.
    pub fn snapshot(&self, transaction_id: u64, schema_tag: String, catalog: Vec<u8>, image: &CatalogState) -> (r: Result<ReplicationSnapshot, ReplicationError>)
        requires
            self.inv(),
        ensures
            match catalog_position_error(self@, transaction_id) {
                Some(e) => r == Err::<ReplicationSnapshot, ReplicationError>(e),
                None => {
                    let s = ReplicationSnapshot {
                        version: REPLICATION_SNAPSHOT_VERSION,
                        term: self@.term,
                        last_index: last_index(self@) as u64,
                        last_transaction_id: transaction_id,
                        schema_tag,
                        catalog,
                    };
                    match r {
                        Ok(out) => out == s && snapshot_error(s, *image) is None,
                        Err(e) => snapshot_error(s, *image) == Some(e),
                    }
                },
            },
    {
        if let Err(e) = self.ensure_catalog_position(transaction_id) {
            return Err(e);
        }
        ReplicationSnapshot::new(self.term(), self.last_index(), transaction_id, schema_tag, catalog, image)
    }

    /// Decides whether a snapshot may be installed over a catalog at `current`.
    pub fn install_snapshot(&self, current: u64, snapshot: &ReplicationSnapshot, image: &CatalogState) -> (r: Result<SnapshotInstall, ReplicationError>)
        ensures
            r == spec_install_snapshot(current, self@.term, *snapshot, *image),
    {
        if let Err(e) = snapshot.validate(image) {
            return Err(e);
        }
        if snapshot.term != self.term() {
            return Err(ReplicationError::TermMismatch { expected: self.term(), actual: snapshot.term });
        }
        if current > snapshot.last_transaction_id {
            return Err(ReplicationError::SnapshotStale { requested: snapshot.last_transaction_id, current });
        }
        if current == snapshot.last_transaction_id {
            return Ok(SnapshotInstall::AlreadyCurrent);
        }
        Ok(SnapshotInstall::Install { current })
    }

    /// Completes an `AlreadyCurrent` installation: the catalog's image at the
    /// snapshot transaction must be the snapshot's, and the sidecar on disk
    /// must already be the framing of the compacted log.
    pub fn finish_snapshot_duplicate(
        &mut self,
        snapshot: &ReplicationSnapshot,
        current_image: &[u8],
        actual_sidecar: Option<&[u8]>,
        expected_sidecar: &[u8],
    ) -> (r: Result<ApplyOutcome, ReplicationError>)
        requires
            snapshot.term > 0,
        ensures
            current_image@ != snapshot.catalog@ ==> r == Err::<ApplyOutcome, ReplicationError>(
                ReplicationError::SnapshotConflict { transaction_id: snapshot.last_transaction_id })
                && final(self)@ == old(self)@,
            current_image@ == snapshot.catalog@ && !(actual_sidecar matches Some(b) && b@ == expected_sidecar@)
                ==> r == Err::<ApplyOutcome, ReplicationError>(ReplicationError::SidecarStateMismatch)
                && final(self)@ == old(self)@,
            current_image@ == snapshot.catalog@ && (actual_sidecar matches Some(b) && b@ == expected_sidecar@)
                ==> r == Ok::<ApplyOutcome, ReplicationError>(ApplyOutcome::SnapshotDuplicate {
                index: snapshot.last_index,
                transaction_id: snapshot.last_transaction_id,
            }) && final(self)@ == fresh_log(snapshot.term, snapshot.last_index, snapshot.last_transaction_id)
                && final(self).inv(),
    {
        if !bytes_equal(current_image, snapshot.catalog.as_slice()) {
            return Err(ReplicationError::SnapshotConflict { transaction_id: snapshot.last_transaction_id });
        }
        let matches = match actual_sidecar {
            Some(bytes) => bytes_equal(bytes, expected_sidecar),
            None => false,
        };
        if !matches {
            return Err(ReplicationError::SidecarStateMismatch);
        }
        match ReplicationLog::with_position(snapshot.term, snapshot.last_index, snapshot.last_transaction_id) {
            Ok(next) => {
                *self = next;
            },
            Err(e) => {
                return Err(e);
            },
        }
        Ok(ApplyOutcome::SnapshotDuplicate { index: snapshot.last_index, transaction_id: snapshot.last_transaction_id })
    }

    /// Completes an `Install`: maps the catalog's answer and compacts the log
    /// to the snapshot position once the image is in place.
    pub fn finish_snapshot_install(
        &mut self,
        snapshot: &ReplicationSnapshot,
        installed: Result<u64, InstallFailure>,
    ) -> (r: Result<ApplyOutcome, ReplicationError>)
        requires
            snapshot.term > 0,
        ensures
            match installed {
                Err(InstallFailure::PreconditionFailed { expected, actual }) => r == Err::<ApplyOutcome, ReplicationError>(
                    ReplicationError::SnapshotInstallRace { expected, actual }) && final(self)@ == old(self)@,
                Err(InstallFailure::Other(message)) => r == Err::<ApplyOutcome, ReplicationError>(
                    ReplicationError::Commit(message)) && final(self)@ == old(self)@,
                Ok(t) => if t != snapshot.last_transaction_id {
                    r == Err::<ApplyOutcome, ReplicationError>(ReplicationError::Invalid(InvalidReason::InstalledTransactionMismatch {
                        installed: t,
                        expected: snapshot.last_transaction_id,
                    })) && final(self)@ == old(self)@
                } else {
                    r == Ok::<ApplyOutcome, ReplicationError>(ApplyOutcome::SnapshotInstalled {
                        index: snapshot.last_index,
                        transaction_id: t,
                    }) && final(self)@ == fresh_log(snapshot.term, snapshot.last_index, snapshot.last_transaction_id)
                        && final(self).inv()
                },
            },
    {
        let transaction_id = match installed {
            Ok(t) => t,
            Err(InstallFailure::PreconditionFailed { expected, actual }) => {
                return Err(ReplicationError::SnapshotInstallRace { expected, actual });
            },
            Err(InstallFailure::Other(message)) => {
                return Err(ReplicationError::Commit(message));
            },
        };
        if transaction_id != snapshot.last_transaction_id {
            return Err(ReplicationError::Invalid(InvalidReason::InstalledTransactionMismatch {
                installed: transaction_id,
                expected: snapshot.last_transaction_id,
            }));
        }
        match ReplicationLog::with_position(snapshot.term, snapshot.last_index, snapshot.last_transaction_id) {
            Ok(next) => {
                *self = next;
            },
            Err(e) => {
                return Err(e);
            },
        }
        Ok(ApplyOutcome::SnapshotInstalled { index: snapshot.last_index, transaction_id })
    }
}

} // verus!
