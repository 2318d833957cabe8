//! Bounded, contiguous pages of replication entries for transport.
use vstd::prelude::*;
use super::{
    EntryView, InvalidReason, ReplicationEntry, ReplicationError, REPLICATION_TRANSPORT_VERSION,
    as_result, entry_error, entry_valid,
};

verus! {

pub const MAX_REPLICATION_ENTRY_BATCH: usize = 128;
pub const MAX_REPLICATION_ENTRY_BATCH_BYTES: usize = crate::MAX_JSON_INPUT_BYTES;

/// A page of entries after `after_index`, with the source log's position.
#[derive(Debug)]
pub struct ReplicationEntryBatch {
    pub transport_version: u16,
    pub term: u64,
    pub base_index: u64,
    pub base_transaction_id: u64,
    pub after_index: u64,
    pub last_index: u64,
    pub last_transaction_id: u64,
    pub entries: Vec<ReplicationEntry>,
    pub next_after: Option<u64>,
}

/// An entry batch as plain values.
pub struct BatchView {
    pub transport_version: u16,
    pub term: u64,
    pub base_index: u64,
    pub base_transaction_id: u64,
    pub after_index: u64,
    pub last_index: u64,
    pub last_transaction_id: u64,
    pub entries: Seq<EntryView>,
    pub next_after: Option<u64>,
}

impl View for ReplicationEntryBatch {
    type V = BatchView;

    open spec fn view(&self) -> BatchView {
        BatchView {
            transport_version: self.transport_version,
            term: self.term,
            base_index: self.base_index,
            base_transaction_id: self.base_transaction_id,
            after_index: self.after_index,
            last_index: self.last_index,
            last_transaction_id: self.last_transaction_id,
            entries: self.entries@.map_values(|e: ReplicationEntry| e@),
            next_after: self.next_after,
        }
    }
}

/// `x` as a `u64` when it fits, as `checked_add` reports it.
pub open spec fn opt_u64(x: int) -> Option<u64> {
    if 0 <= x <= u64::MAX {
        Some(x as u64)
    } else {
        None
    }
}

/// The continuation cursor of a page: its last index, unless that is the
/// source log's last index or the page is empty.
pub open spec fn expected_next_after(entries: Seq<EntryView>, last_index: u64) -> Option<u64> {
    if entries.len() > 0 && entries.last().index < last_index {
        Some(entries.last().index)
    } else {
        None
    }
}

/// The first reason the entries of a page do not continue the expected
/// index and transaction positions, if any.
pub open spec fn batch_entries_error(es: Seq<EntryView>, term: u64, expected_index: Option<u64>, expected_transaction_id: Option<u64>) -> Option<ReplicationError>
    decreases es.len(),
{
    if es.len() == 0 {
        None
    } else {
        let e = es[0];
        if entry_error(e) is Some {
            entry_error(e)
        } else if e.term != term {
            Some(ReplicationError::TermMismatch { expected: term, actual: e.term })
        } else if Some(e.index) != expected_index {
            Some(ReplicationError::IndexGap {
                expected: match expected_index {
                    Some(v) => v,
                    None => u64::MAX,
                },
                actual: e.index,
            })
        } else if expected_transaction_id is None {
            Some(ReplicationError::Invalid(InvalidReason::EntryTransactionIdExhausted))
        } else if e.transaction_id != expected_transaction_id.unwrap() {
            Some(ReplicationError::TransactionGap {
                expected: expected_transaction_id.unwrap(),
                actual: e.transaction_id,
            })
        } else {
            batch_entries_error(es.drop_first(), term, opt_u64(e.index + 1), opt_u64(e.transaction_id + 1))
        }
    }
}

/// The first reason a page is not valid, if any.
pub open spec fn batch_error(b: BatchView) -> Option<ReplicationError> {
    let expected_last_transaction_id = b.base_transaction_id + (b.last_index - b.base_index);
    if b.transport_version != REPLICATION_TRANSPORT_VERSION {
        Some(ReplicationError::Invalid(InvalidReason::UnsupportedTransportVersion(b.transport_version)))
    } else if b.term == 0 || b.base_index > b.after_index || b.last_index < b.after_index
        || b.base_transaction_id > b.last_transaction_id {
        Some(ReplicationError::Invalid(InvalidReason::BatchPositionInvalid))
    } else if expected_last_transaction_id > u64::MAX {
        Some(ReplicationError::Invalid(InvalidReason::TransactionIdExhausted))
    } else if b.last_transaction_id != expected_last_transaction_id {
        Some(ReplicationError::TransactionGap {
            expected: expected_last_transaction_id as u64,
            actual: b.last_transaction_id,
        })
    } else if b.entries.len() > MAX_REPLICATION_ENTRY_BATCH {
        Some(ReplicationError::Invalid(InvalidReason::BatchTooManyEntries))
    } else if batch_entries_error(
        b.entries,
        b.term,
        opt_u64(b.after_index + 1),
        opt_u64(b.base_transaction_id + (b.after_index - b.base_index) + 1),
    ) is Some {
        batch_entries_error(
            b.entries,
            b.term,
            opt_u64(b.after_index + 1),
            opt_u64(b.base_transaction_id + (b.after_index - b.base_index) + 1),
        )
    } else if b.entries.len() == 0 && b.after_index < b.last_index {
        Some(ReplicationError::Invalid(InvalidReason::BatchEmptyBeforeLast))
    } else if b.entries.len() > 0 && b.entries.last().index > b.last_index {
        Some(ReplicationError::Invalid(InvalidReason::BatchBeyondLastIndex))
    } else if b.next_after != expected_next_after(b.entries, b.last_index) {
        Some(ReplicationError::Invalid(InvalidReason::BatchContinuationInvalid))
    } else {
        None
    }
}

/// Entries that continue index `first_index - 1` and transaction
/// `first_transaction_id - 1` one step at a time within `term`.
pub open spec fn batch_entries_contiguous(es: Seq<EntryView>, term: u64, first_index: int, first_transaction_id: int) -> bool {
    forall|i: int| 0 <= i < es.len() ==> {
        &&& entry_valid(#[trigger] es[i])
        &&& es[i].term == term
        &&& es[i].index == first_index + i
        &&& es[i].transaction_id == first_transaction_id + i
    }
}

/// A valid page, stated directly.
pub open spec fn batch_valid(b: BatchView) -> bool {
    &&& b.transport_version == REPLICATION_TRANSPORT_VERSION
    &&& b.term > 0
    &&& b.base_index <= b.after_index <= b.last_index
    &&& b.base_transaction_id <= b.last_transaction_id
    &&& b.last_transaction_id == b.base_transaction_id + (b.last_index - b.base_index)
    &&& b.entries.len() <= MAX_REPLICATION_ENTRY_BATCH
    &&& batch_entries_contiguous(
        b.entries,
        b.term,
        b.after_index + 1,
        b.base_transaction_id + (b.after_index - b.base_index) + 1,
    )
    &&& b.entries.len() == 0 ==> b.after_index == b.last_index
    &&& b.entries.len() > 0 ==> b.entries.last().index <= b.last_index
    &&& b.next_after == expected_next_after(b.entries, b.last_index)
}

/// The batch entry check finds nothing exactly when the entries are contiguous and valid.
pub proof fn lemma_batch_entries_error_none(es: Seq<EntryView>, term: u64, first_index: int, first_transaction_id: int)
    requires
        first_index >= 0,
        first_transaction_id >= 0,
    ensures
        batch_entries_error(es, term, opt_u64(first_index), opt_u64(first_transaction_id)) is None
            <==> batch_entries_contiguous(es, term, first_index, first_transaction_id),
    decreases es.len(),
{
    if es.len() > 0 {
        let e = es[0];
        let rest = es.drop_first();
        lemma_batch_entries_error_none(rest, term, e.index + 1, e.transaction_id + 1);
        if entry_error(e) is None && e.term == term && e.index == first_index && e.transaction_id
            == first_transaction_id {
            if batch_entries_contiguous(rest, term, first_index + 1, first_transaction_id + 1) {
                assert forall|i: int| 0 <= i < es.len() implies {
                    &&& entry_valid(#[trigger] es[i])
                    &&& es[i].term == term
                    &&& es[i].index == first_index + i
                    &&& es[i].transaction_id == first_transaction_id + i
                } by {
                    if i > 0 {
                        assert(es[i] == rest[i - 1]);
                    }
                }
            }
            if batch_entries_contiguous(es, term, first_index, first_transaction_id) {
                assert forall|i: int| 0 <= i < rest.len() implies {
                    &&& entry_valid(#[trigger] rest[i])
                    &&& rest[i].term == term
                    &&& rest[i].index == first_index + 1 + i
                    &&& rest[i].transaction_id == first_transaction_id + 1 + i
                } by {
                    assert(rest[i] == es[i + 1]);
                }
            }
        } else {
            if batch_entries_contiguous(es, term, first_index, first_transaction_id) {
                assert(entry_valid(es[0]));
            }
        }
    }
}

/// The batch check finds nothing exactly when the batch is valid.
pub proof fn lemma_batch_error_none(b: BatchView)
    ensures
        batch_error(b) is None <==> batch_valid(b),
{
    if b.base_index <= b.after_index {
        lemma_batch_entries_error_none(
            b.entries,
            b.term,
            b.after_index + 1,
            b.base_transaction_id + (b.after_index - b.base_index) + 1,
        );
    }
}

impl ReplicationEntryBatch {
    /// Checks an entry batch.
    #[verifier::loop_isolation(false)]
    pub fn validate(&self) -> (r: Result<(), ReplicationError>)
        ensures
            r == as_result(batch_error(self@)),
            r is Ok <==> batch_valid(self@),
    {
        proof {
            lemma_batch_error_none(self@);
        }
        if self.transport_version != REPLICATION_TRANSPORT_VERSION {
            return Err(ReplicationError::Invalid(InvalidReason::UnsupportedTransportVersion(self.transport_version)));
        }
        if self.term == 0 || self.base_index > self.after_index || self.last_index < self.after_index
            || self.base_transaction_id > self.last_transaction_id {
            return Err(ReplicationError::Invalid(InvalidReason::BatchPositionInvalid));
        }
        let expected_last_transaction_id = match self.base_transaction_id.checked_add(self.last_index - self.base_index) {
            Some(v) => v,
            None => {
                return Err(ReplicationError::Invalid(InvalidReason::TransactionIdExhausted));
            },
        };
        if self.last_transaction_id != expected_last_transaction_id {
            return Err(ReplicationError::TransactionGap {
                expected: expected_last_transaction_id,
                actual: self.last_transaction_id,
            });
        }
        if self.entries.len() > MAX_REPLICATION_ENTRY_BATCH {
            return Err(ReplicationError::Invalid(InvalidReason::BatchTooManyEntries));
        }
        let mut expected_index = self.after_index.checked_add(1);
        let mut expected_transaction_id = match self.base_transaction_id.checked_add(self.after_index - self.base_index) {
            Some(v) => v.checked_add(1),
            None => None,
        };
        let ghost es = self@.entries;
        assert(es.subrange(0, es.len() as int) =~= es);
        let mut i: usize = 0;
        while i < self.entries.len()
            invariant
                es == self@.entries,
                es.len() == self.entries@.len(),
                i <= es.len(),
                batch_entries_error(
                    es,
                    self.term,
                    opt_u64(self.after_index + 1),
                    opt_u64(self.base_transaction_id + (self.after_index - self.base_index) + 1),
                ) == batch_entries_error(es.subrange(i as int, es.len() as int), self.term, expected_index, expected_transaction_id),
            decreases self.entries.len() - i,
        {
            let ghost rest = es.subrange(i as int, es.len() as int);
            assert(rest[0] == es[i as int]);
            assert(es[i as int] == self.entries@[i as int]@);
            assert(rest.drop_first() =~= es.subrange(i + 1, es.len() as int));
            let entry = &self.entries[i];
            if let Err(e) = entry.validate() {
                return Err(e);
            }
            if entry.term != self.term {
                return Err(ReplicationError::TermMismatch { expected: self.term, actual: entry.term });
            }
            let index_matches = match expected_index {
                Some(v) => v == entry.index,
                None => false,
            };
            if !index_matches {
                return Err(ReplicationError::IndexGap {
                    expected: match expected_index {
                        Some(v) => v,
                        None => u64::MAX,
                    },
                    actual: entry.index,
                });
            }
            let expected_transaction_id_value = match expected_transaction_id {
                Some(v) => v,
                None => {
                    return Err(ReplicationError::Invalid(InvalidReason::EntryTransactionIdExhausted));
                },
            };
            if entry.transaction_id != expected_transaction_id_value {
                return Err(ReplicationError::TransactionGap {
                    expected: expected_transaction_id_value,
                    actual: entry.transaction_id,
                });
            }
            expected_transaction_id = entry.transaction_id.checked_add(1);
            expected_index = entry.index.checked_add(1);
            i += 1;
        }
        let n = self.entries.len();
        let expected_next_after = if n > 0 && self.entries[n - 1].index < self.last_index {
            Some(self.entries[n - 1].index)
        } else {
            None
        };
        proof {
            if n > 0 {
                assert(es.last() == self.entries@[n - 1]@);
            }
        }
        if n == 0 && self.after_index < self.last_index {
            return Err(ReplicationError::Invalid(InvalidReason::BatchEmptyBeforeLast));
        }
        if n > 0 && self.entries[n - 1].index > self.last_index {
            return Err(ReplicationError::Invalid(InvalidReason::BatchBeyondLastIndex));
        }
        if self.next_after != expected_next_after {
            return Err(ReplicationError::Invalid(InvalidReason::BatchContinuationInvalid));
        }
        Ok(())
    }
}

} // verus!
