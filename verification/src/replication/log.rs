//! The ordered replication log and its position, duplicate, and follower rules.
use vstd::prelude::*;
use crate::text::same_text;
use super::{
    EntryView, InvalidReason, OperationIr, ReplicationEntry, ReplicationError,
    REPLICATION_LOG_VERSION, as_result, entry_error, entry_valid,
};
use super::transport::{
    BatchView, ReplicationEntryBatch, MAX_REPLICATION_ENTRY_BATCH, MAX_REPLICATION_ENTRY_BATCH_BYTES,
    batch_valid, batch_entries_contiguous, expected_next_after, lemma_batch_error_none,
};
use super::progress::{
    ProgressView, ReplicationProgress, ReplicationProgressOutcome, MAX_REPLICATION_FOLLOWERS,
    progress_error, progress_valid,
};

verus! {

/// What a caller read from the catalog that entries commit into: its
/// committed transaction position (zero before the first commit) and its
/// schema tag.
#[derive(Debug)]
pub struct CatalogState {
    pub transaction_id: u64,
    pub schema_tag: String,
}

/// What receiving an entry did: appended it, or found the same entry already there.
#[derive(Debug, Clone, Copy, PartialEq, Eq, Structural)]
pub enum ApplyOutcome {
    Applied { index: u64, transaction_id: u64 },
    Duplicate { index: u64, transaction_id: u64 },
    SnapshotInstalled { index: u64, transaction_id: u64 },
    SnapshotDuplicate { index: u64, transaction_id: u64 },
}

/// What delivering an entry requires: nothing more for a duplicate of an
/// entry already in the log, or a catalog commit followed by `commit_appended`.
#[derive(Debug, Clone, Copy, PartialEq, Eq, Structural)]
pub enum Delivery {
    Duplicate { index: u64, transaction_id: u64 },
    Append,
}

/// The optimistic-concurrency conditions that a commit is made under: on
/// the representation of the whole catalog, or of one named table.
#[derive(Debug)]
pub enum CommitPreconditions {
    Catalog { if_match: Option<String>, if_none_match: Option<String> },
    Table { name: String, if_match: Option<String>, if_none_match: Option<String> },
}

/// A proposed entry and the conditions its catalog commit is made under.
#[derive(Debug)]
pub struct ProposedCommit {
    pub entry: ReplicationEntry,
    pub preconditions: Option<CommitPreconditions>,
}

/// The applied positions that followers have acknowledged, one per follower.
#[derive(Debug)]
pub struct FollowerWatermarks {
    followers: Vec<ReplicationProgress>,
}

/// The single-authority replication log: a term, the position it starts after,
/// the entries since, and the followers' acknowledged positions.
#[derive(Debug)]
pub struct ReplicationLog {
    pub format_version: u16,
    term: u64,
    base_index: u64,
    base_transaction_id: u64,
    entries: Vec<ReplicationEntry>,
    follower_watermarks: FollowerWatermarks,
}

/// A log as plain values.
pub struct LogView {
    pub format_version: u16,
    pub term: u64,
    pub base_index: u64,
    pub base_transaction_id: u64,
    pub entries: Seq<EntryView>,
    pub followers: Seq<ProgressView>,
}

impl View for ReplicationLog {
    type V = LogView;

    closed spec fn view(&self) -> LogView {
        LogView {
            format_version: self.format_version,
            term: self.term,
            base_index: self.base_index,
            base_transaction_id: self.base_transaction_id,
            entries: self.entries@.map_values(|e: ReplicationEntry| e@),
            followers: self.follower_watermarks.followers@.map_values(|p: ReplicationProgress| p@),
        }
    }
}

/// The index of the last entry, or the base index of an empty log.
pub open spec fn last_index(l: LogView) -> int {
    l.base_index + l.entries.len()
}

/// The transaction of the last entry, or the base transaction of an empty log.
pub open spec fn last_transaction_id(l: LogView) -> int {
    l.base_transaction_id + l.entries.len()
}

/// The first reason a run of entries does not continue from `prev_index` and
/// `prev_transaction_id` within `term`, if any.
pub open spec fn entries_error(es: Seq<EntryView>, term: u64, prev_index: u64, prev_transaction_id: u64) -> Option<ReplicationError>
    decreases es.len(),
{
    if es.len() == 0 {
        None
    } else {
        let e = es[0];
        if entry_error(e) is Some {
            entry_error(e)
        } else if prev_index == u64::MAX {
            Some(ReplicationError::Invalid(InvalidReason::IndexExhausted))
        } else if prev_transaction_id == u64::MAX {
            Some(ReplicationError::Invalid(InvalidReason::TransactionIdExhausted))
        } else if e.term != term {
            Some(ReplicationError::TermMismatch { expected: term, actual: e.term })
        } else if e.index != prev_index + 1 {
            Some(ReplicationError::IndexGap { expected: (prev_index + 1) as u64, actual: e.index })
        } else if e.transaction_id != prev_transaction_id + 1 {
            Some(ReplicationError::TransactionGap {
                expected: (prev_transaction_id + 1) as u64,
                actual: e.transaction_id,
            })
        } else {
            entries_error(es.drop_first(), term, (prev_index + 1) as u64, (prev_transaction_id + 1) as u64)
        }
    }
}

/// The first reason a log is not valid, if any.
pub open spec fn log_error(l: LogView) -> Option<ReplicationError> {
    if l.format_version != REPLICATION_LOG_VERSION {
        Some(ReplicationError::Invalid(InvalidReason::UnsupportedLogVersion(l.format_version)))
    } else if l.term == 0 {
        Some(ReplicationError::Invalid(InvalidReason::TermNotPositive))
    } else {
        entries_error(l.entries, l.term, l.base_index, l.base_transaction_id)
    }
}

/// Every entry is valid, carries the log's term, and continues the positions
/// one index and one transaction at a time from the base.
pub open spec fn entries_contiguous(es: Seq<EntryView>, term: u64, base_index: int, base_transaction_id: int) -> bool {
    forall|i: int| 0 <= i < es.len() ==> {
        &&& entry_valid(#[trigger] es[i])
        &&& es[i].term == term
        &&& es[i].index == base_index + i + 1
        &&& es[i].transaction_id == base_transaction_id + i + 1
    }
}

/// A valid log: current format, a positive term, and contiguous entries of
/// its term after its base.
pub open spec fn log_valid(l: LogView) -> bool {
    &&& l.format_version == REPLICATION_LOG_VERSION
    &&& l.term > 0
    &&& entries_contiguous(l.entries, l.term, l.base_index as int, l.base_transaction_id as int)
}

/// Followers are distinct, bounded in number, and each report is valid.
pub open spec fn followers_wf(fs: Seq<ProgressView>) -> bool {
    &&& fs.len() <= MAX_REPLICATION_FOLLOWERS
    &&& forall|i: int| 0 <= i < fs.len() ==> progress_valid(#[trigger] fs[i])
    &&& forall|i: int, j: int| 0 <= i < j < fs.len() ==> (#[trigger] fs[i]).follower_id != (#[trigger] fs[j]).follower_id
}

/// The entry check finds nothing exactly when the entries are contiguous and valid.
pub proof fn lemma_entries_error_none(es: Seq<EntryView>, term: u64, prev_index: u64, prev_transaction_id: u64)
    ensures
        entries_error(es, term, prev_index, prev_transaction_id) is None <==> entries_contiguous(
            es,
            term,
            prev_index as int,
            prev_transaction_id as int,
        ),
    decreases es.len(),
{
    if es.len() > 0 {
        let e = es[0];
        if entry_error(e) is None && prev_index < u64::MAX && prev_transaction_id < u64::MAX
            && e.term == term && e.index == prev_index + 1 && e.transaction_id == prev_transaction_id + 1 {
            let rest = es.drop_first();
            lemma_entries_error_none(rest, term, (prev_index + 1) as u64, (prev_transaction_id + 1) as u64);
            if entries_contiguous(rest, term, prev_index + 1, prev_transaction_id + 1) {
                assert forall|i: int| 0 <= i < es.len() implies {
                    &&& entry_valid(#[trigger] es[i])
                    &&& es[i].term == term
                    &&& es[i].index == prev_index + i + 1
                    &&& es[i].transaction_id == prev_transaction_id + i + 1
                } by {
                    if i > 0 {
                        assert(es[i] == rest[i - 1]);
                    }
                }
            }
            if entries_contiguous(es, term, prev_index as int, prev_transaction_id as int) {
                assert forall|i: int| 0 <= i < rest.len() implies {
                    &&& entry_valid(#[trigger] rest[i])
                    &&& rest[i].term == term
                    &&& rest[i].index == prev_index + 1 + i + 1
                    &&& rest[i].transaction_id == prev_transaction_id + 1 + i + 1
                } by {
                    assert(rest[i] == es[i + 1]);
                }
            }
        } else {
            if entries_contiguous(es, term, prev_index as int, prev_transaction_id as int) {
                assert(entry_valid(es[0]));
            }
        }
    }
}

/// The positions after the last entry of a valid log fit in `u64`.
pub proof fn lemma_valid_positions_fit(l: LogView)
    requires
        log_valid(l),
    ensures
        last_index(l) <= u64::MAX,
        last_transaction_id(l) <= u64::MAX,
{
    if l.entries.len() > 0 {
        let k = l.entries.len() - 1;
        assert(entry_valid(l.entries[k]));
    }
}

/// The log check finds nothing exactly when the log is valid.
pub proof fn lemma_log_error_none(l: LogView)
    ensures
        log_error(l) is None <==> log_valid(l),
{
    lemma_entries_error_none(l.entries, l.term, l.base_index, l.base_transaction_id);
}

/// The error that an out-of-position catalog yields, if any.
pub open spec fn catalog_position_error(l: LogView, actual: u64) -> Option<ReplicationError> {
    if actual != last_transaction_id(l) {
        Some(ReplicationError::CatalogStateMismatch { expected: last_transaction_id(l) as u64, actual })
    } else {
        None
    }
}

/// The checks that precede committing `e` as the next entry of `l`.
pub open spec fn append_error(l: LogView, catalog: CatalogState, e: ReplicationEntry) -> Option<ReplicationError> {
    if last_index(l) == u64::MAX {
        Some(ReplicationError::Invalid(InvalidReason::IndexExhausted))
    } else if e.index != last_index(l) + 1 {
        Some(ReplicationError::IndexGap { expected: (last_index(l) + 1) as u64, actual: e.index })
    } else if last_transaction_id(l) == u64::MAX {
        Some(ReplicationError::Invalid(InvalidReason::TransactionIdExhausted))
    } else if e.transaction_id != last_transaction_id(l) + 1 {
        Some(ReplicationError::TransactionGap {
            expected: (last_transaction_id(l) + 1) as u64,
            actual: e.transaction_id,
        })
    } else if catalog.transaction_id != last_transaction_id(l) {
        catalog_position_error(l, catalog.transaction_id)
    } else if e.schema_tag@ != catalog.schema_tag@ {
        Some(ReplicationError::SchemaMismatch { expected: catalog.schema_tag, actual: e.schema_tag })
    } else {
        None
    }
}

/// `e` may be committed as the next entry of `l` and appended afterwards.
pub open spec fn accepts_next(l: LogView, e: EntryView) -> bool {
    &&& entry_valid(e)
    &&& e.term == l.term
    &&& e.index == last_index(l) + 1
    &&& e.transaction_id == last_transaction_id(l) + 1
}

/// What delivering `e` to `l` with the catalog at `catalog` decides.
pub open spec fn spec_receive(l: LogView, catalog: CatalogState, e: ReplicationEntry) -> Result<Delivery, ReplicationError> {
    if entry_error(e@) is Some {
        Err(entry_error(e@).unwrap())
    } else if e.term != l.term {
        Err(ReplicationError::TermMismatch { expected: l.term, actual: e.term })
    } else if e.index <= l.base_index {
        Err(ReplicationError::HistoryUnavailable { index: e.index, base_index: l.base_index })
    } else if e.index - l.base_index - 1 < l.entries.len() {
        if l.entries[e.index - l.base_index - 1] == e@ {
            match catalog_position_error(l, catalog.transaction_id) {
                Some(err) => Err(err),
                None => Ok(Delivery::Duplicate { index: e.index, transaction_id: e.transaction_id }),
            }
        } else {
            Err(ReplicationError::ConflictingDuplicate { index: e.index })
        }
    } else {
        match append_error(l, catalog, e) {
            Some(err) => Err(err),
            None => Ok(Delivery::Append),
        }
    }
}

/// What proposing `operations` through the authority log `l` decides: the
/// next entry, stamped with the catalog's schema tag, or the first error.
pub open spec fn propose_error(l: LogView, catalog: CatalogState, operations: Seq<super::OperationView>) -> Option<ReplicationError> {
    if catalog.transaction_id != last_transaction_id(l) {
        catalog_position_error(l, catalog.transaction_id)
    } else if last_index(l) == u64::MAX {
        Some(ReplicationError::Invalid(InvalidReason::IndexExhausted))
    } else if last_transaction_id(l) == u64::MAX {
        Some(ReplicationError::Invalid(InvalidReason::TransactionIdExhausted))
    } else {
        entry_error(proposed_entry(l, catalog, operations))
    }
}

/// The entry that proposing `operations` appends to a log.
pub open spec fn proposed_entry(l: LogView, catalog: CatalogState, operations: Seq<super::OperationView>) -> EntryView {
    EntryView {
        version: super::REPLICATION_ENTRY_VERSION,
        term: l.term,
        index: (last_index(l) + 1) as u64,
        transaction_id: (last_transaction_id(l) + 1) as u64,
        schema_tag: catalog.schema_tag@,
        operations,
    }
}

/// `l` with `e` appended.
pub open spec fn push_entry(l: LogView, e: EntryView) -> LogView {
    LogView { entries: l.entries.push(e), ..l }
}

/// A fresh log at the given position with no entries and no followers.
pub open spec fn fresh_log(term: u64, base_index: u64, base_transaction_id: u64) -> LogView {
    LogView {
        format_version: REPLICATION_LOG_VERSION,
        term,
        base_index,
        base_transaction_id,
        entries: Seq::empty(),
        followers: Seq::empty(),
    }
}

/// The lowest applied index among the given followers.
pub open spec fn min_follower_index(fs: Seq<ProgressView>) -> Option<u64>
    decreases fs.len(),
{
    if fs.len() == 0 {
        None
    } else {
        match min_follower_index(fs.drop_last()) {
            None => Some(fs.last().index),
            Some(m) => Some(if fs.last().index < m { fs.last().index } else { m }),
        }
    }
}

impl ReplicationLog {
    /// Well-formed: a valid log whose follower table is well formed.
    pub open spec fn inv(&self) -> bool {
        &&& log_valid(self@)
        &&& followers_wf(self@.followers)
    }

    /// An empty log of `term` that starts at the beginning of history.
    pub fn new(term: u64) -> (r: Result<Self, ReplicationError>)
        ensures
            match r {
                Ok(l) => l@ == fresh_log(term, 0, 0) && l.inv(),
                Err(e) => term == 0 && e == ReplicationError::Invalid(InvalidReason::TermNotPositive),
            },
            r is Ok <==> term > 0,
    {
        Self::with_position(term, 0, 0)
    }

    /// An empty log of `term` that starts after the given position.
    pub fn with_position(term: u64, base_index: u64, base_transaction_id: u64) -> (r: Result<Self, ReplicationError>)
        ensures
            match r {
                Ok(l) => l@ == fresh_log(term, base_index, base_transaction_id) && l.inv(),
                Err(e) => term == 0 && e == ReplicationError::Invalid(InvalidReason::TermNotPositive),
            },
            r is Ok <==> term > 0,
    {
        if term == 0 {
            return Err(ReplicationError::Invalid(InvalidReason::TermNotPositive));
        }
        let l = ReplicationLog {
            format_version: REPLICATION_LOG_VERSION,
            term,
            base_index,
            base_transaction_id,
            entries: Vec::new(),
            follower_watermarks: FollowerWatermarks { followers: Vec::new() },
        };
        assert(l@.entries =~= Seq::<EntryView>::empty());
        assert(l@.followers =~= Seq::<ProgressView>::empty());
        Ok(l)
    }

    /// The term of this log.
    pub fn term(&self) -> (r: u64)
        ensures
            r == self@.term,
    {
        self.term
    }

    /// The index that this log starts after.
    pub fn base_index(&self) -> (r: u64)
        ensures
            r == self@.base_index,
    {
        self.base_index
    }

    /// The transaction that this log starts after.
    pub fn base_transaction_id(&self) -> (r: u64)
        ensures
            r == self@.base_transaction_id,
    {
        self.base_transaction_id
    }

    /// The index of the last entry.
    pub fn last_index(&self) -> (r: u64)
        requires
            self.inv(),
        ensures
            r == last_index(self@),
    {
        proof {
            self.lemma_positions_fit();
        }
        self.base_index + self.entries.len() as u64
    }

    /// The transaction of the last entry.
    pub fn last_transaction_id(&self) -> (r: u64)
        requires
            self.inv(),
        ensures
            r == last_transaction_id(self@),
    {
        proof {
            self.lemma_positions_fit();
        }
        self.base_transaction_id + self.entries.len() as u64
    }

    /// The positions after the last entry still fit in `u64`.
    proof fn lemma_positions_fit(&self)
        requires
            self.inv(),
        ensures
            last_index(self@) <= u64::MAX,
            last_transaction_id(self@) <= u64::MAX,
            self.entries@.len() == self@.entries.len(),
    {
        let es = self@.entries;
        if es.len() > 0 {
            let k = es.len() - 1;
            assert(entry_valid(es[k]));
            assert(es[k].index == self.base_index + k + 1);
        }
    }

    /// The entries of this log, in order.
    pub fn entries(&self) -> (r: &[ReplicationEntry])
        ensures
            r@.map_values(|e: ReplicationEntry| e@) == self@.entries,
    {
        self.entries.as_slice()
    }

    /// The number of followers with an acknowledged position.
    pub fn follower_count(&self) -> (r: usize)
        ensures
            r == self@.followers.len(),
    {
        self.follower_watermarks.followers.len()
    }

    /// Returns the lowest applied index reported by all registered followers.
    pub fn safe_compaction_index(&self) -> (r: Option<u64>)
        ensures
            r == min_follower_index(self@.followers),
    {
        let fs = &self.follower_watermarks.followers;
        let ghost views = self@.followers;
        let mut best: Option<u64> = None;
        let mut i: usize = 0;
        while i < fs.len()
            invariant
                i <= fs.len(),
                views == fs@.map_values(|p: ReplicationProgress| p@),
                best == min_follower_index(views.subrange(0, i as int)),
            decreases fs.len() - i,
        {
            let index = fs[i].index;
            assert(views.subrange(0, i + 1).drop_last() =~= views.subrange(0, i as int));
            best = match best {
                None => Some(index),
                Some(m) => Some(if index < m { index } else { m }),
            };
            i += 1;
        }
        assert(views.subrange(0, fs.len() as int) =~= views);
        best
    }

    /// Rejects a catalog that is not at the log's last transaction.
    pub fn ensure_catalog_position(&self, actual: u64) -> (r: Result<(), ReplicationError>)
        requires
            self.inv(),
        ensures
            r == as_result(catalog_position_error(self@, actual)),
    {
        let expected = self.last_transaction_id();
        if actual != expected {
            return Err(ReplicationError::CatalogStateMismatch { expected, actual });
        }
        Ok(())
    }

    /// Checks the log format, term, and the contiguity of every entry.
    #[verifier::loop_isolation(false)]
    pub fn validate(&self) -> (r: Result<(), ReplicationError>)
        ensures
            r == as_result(log_error(self@)),
            r is Ok <==> log_valid(self@),
    {
        proof {
            lemma_log_error_none(self@);
        }
        if self.format_version != REPLICATION_LOG_VERSION {
            return Err(ReplicationError::Invalid(InvalidReason::UnsupportedLogVersion(self.format_version)));
        }
        if self.term == 0 {
            return Err(ReplicationError::Invalid(InvalidReason::TermNotPositive));
        }
        let ghost es = self@.entries;
        let mut expected_index = self.base_index;
        let mut expected_transaction_id = self.base_transaction_id;
        let mut i: usize = 0;
        assert(es.subrange(0, es.len() as int) =~= es);
        while i < self.entries.len()
            invariant
                es == self@.entries,
                es.len() == self.entries@.len(),
                i <= es.len(),
                entries_error(es, self.term, self.base_index, self.base_transaction_id)
                    == entries_error(es.subrange(i as int, es.len() as int), self.term, expected_index, expected_transaction_id),
            decreases self.entries.len() - i,
        {
            let ghost rest = es.subrange(i as int, es.len() as int);
            assert(rest[0] == es[i as int]);
            assert(es[i as int] == self.entries@[i as int]@);
            assert(rest.drop_first() =~= es.subrange(i + 1, es.len() as int));
            let entry = &self.entries[i];
            match entry.validate() {
                Ok(()) => {},
                Err(e) => {
                    return Err(e);
                },
            }
            if expected_index == u64::MAX {
                return Err(ReplicationError::Invalid(InvalidReason::IndexExhausted));
            }
            if expected_transaction_id == u64::MAX {
                return Err(ReplicationError::Invalid(InvalidReason::TransactionIdExhausted));
            }
            expected_index = expected_index + 1;
            expected_transaction_id = expected_transaction_id + 1;
            if entry.term != self.term {
                return Err(ReplicationError::TermMismatch { expected: self.term, actual: entry.term });
            }
            if entry.index != expected_index {
                return Err(ReplicationError::IndexGap { expected: expected_index, actual: entry.index });
            }
            if entry.transaction_id != expected_transaction_id {
                return Err(ReplicationError::TransactionGap {
                    expected: expected_transaction_id,
                    actual: entry.transaction_id,
                });
            }
            i += 1;
        }
        Ok(())
    }
}


/// The position of the follower with identifier `id`, when present.
pub open spec fn follower_slot(fs: Seq<ProgressView>, id: Seq<char>) -> Option<int> {
    if exists|k: int| 0 <= k < fs.len() && (#[trigger] fs[k]).follower_id == id {
        Some(choose|k: int| 0 <= k < fs.len() && (#[trigger] fs[k]).follower_id == id)
    } else {
        None
    }
}

/// The first reason to reject an acknowledgement, or the outcome of accepting it.
pub open spec fn spec_acknowledge(l: LogView, catalog: CatalogState, p: ReplicationProgress) -> Result<ReplicationProgressOutcome, ReplicationError> {
    let expected_transaction_id = l.base_transaction_id + (p.index - l.base_index);
    if progress_error(p@) is Some {
        Err(progress_error(p@).unwrap())
    } else if catalog_position_error(l, catalog.transaction_id) is Some {
        Err(catalog_position_error(l, catalog.transaction_id).unwrap())
    } else if p.term != l.term {
        Err(ReplicationError::TermMismatch { expected: l.term, actual: p.term })
    } else if p.schema_tag@ != catalog.schema_tag@ {
        Err(ReplicationError::SchemaMismatch { expected: catalog.schema_tag, actual: p.schema_tag })
    } else if p.index < l.base_index {
        Err(ReplicationError::HistoryUnavailable { index: p.index, base_index: l.base_index })
    } else if p.index > last_index(l) {
        Err(ReplicationError::ProgressUnavailable { requested: p.index, applied: last_index(l) as u64 })
    } else if expected_transaction_id > u64::MAX {
        Err(ReplicationError::Invalid(InvalidReason::ProgressTransactionIdExhausted))
    } else if p.transaction_id != expected_transaction_id {
        Err(ReplicationError::TransactionGap { expected: expected_transaction_id as u64, actual: p.transaction_id })
    } else {
        match follower_slot(l.followers, p.follower_id@) {
            Some(k) => if l.followers[k] == p@ {
                Ok(ReplicationProgressOutcome::Duplicate)
            } else if p.index < l.followers[k].index {
                Err(ReplicationError::ProgressRegression {
                    follower_id: p.follower_id,
                    previous_index: l.followers[k].index,
                    requested_index: p.index,
                })
            } else {
                Ok(ReplicationProgressOutcome::Accepted)
            },
            None => if l.followers.len() >= MAX_REPLICATION_FOLLOWERS {
                Err(ReplicationError::Invalid(InvalidReason::TooManyFollowers))
            } else {
                Ok(ReplicationProgressOutcome::Accepted)
            },
        }
    }
}

/// The follower table after accepting `p`: its report replaces the
/// follower's previous one, or is added for a new follower.
pub open spec fn acknowledged_followers(fs: Seq<ProgressView>, p: ProgressView) -> Seq<ProgressView> {
    match follower_slot(fs, p.follower_id) {
        Some(k) => fs.update(k, p),
        None => fs.push(p),
    }
}

/// The first reason to refuse a follower read at `transaction_id`, if any.
pub open spec fn read_error(l: LogView, catalog_transaction_id: u64, transaction_id: u64) -> Option<ReplicationError> {
    if transaction_id == 0 {
        Some(ReplicationError::Invalid(InvalidReason::ReadTransactionNotPositive))
    } else if catalog_position_error(l, catalog_transaction_id) is Some {
        catalog_position_error(l, catalog_transaction_id)
    } else if transaction_id < l.base_transaction_id {
        Some(ReplicationError::ReadHistoryUnavailable {
            requested: transaction_id,
            base_transaction_id: l.base_transaction_id,
        })
    } else if transaction_id > last_transaction_id(l) {
        Some(ReplicationError::ReadUnavailable {
            requested: transaction_id,
            applied: last_transaction_id(l) as u64,
        })
    } else {
        None
    }
}

impl ReplicationLog {
    fn append_check(&self, catalog: &CatalogState, entry: &ReplicationEntry) -> (r: Result<(), ReplicationError>)
        requires
            self.inv(),
        ensures
            r == as_result(append_error(self@, *catalog, *entry)),
    {
        let last = self.last_index();
        if last == u64::MAX {
            return Err(ReplicationError::Invalid(InvalidReason::IndexExhausted));
        }
        if entry.index != last + 1 {
            return Err(ReplicationError::IndexGap { expected: last + 1, actual: entry.index });
        }
        let last_tx = self.last_transaction_id();
        if last_tx == u64::MAX {
            return Err(ReplicationError::Invalid(InvalidReason::TransactionIdExhausted));
        }
        if entry.transaction_id != last_tx + 1 {
            return Err(ReplicationError::TransactionGap { expected: last_tx + 1, actual: entry.transaction_id });
        }
        if let Err(e) = self.ensure_catalog_position(catalog.transaction_id) {
            return Err(e);
        }
        if !same_text(&entry.schema_tag, &catalog.schema_tag) {
            return Err(ReplicationError::SchemaMismatch {
                expected: catalog.schema_tag.clone(),
                actual: entry.schema_tag.clone(),
            });
        }
        Ok(())
    }

    /// Decides the delivery of one entry to this log and catalog.
    ///
    /// The same entry delivered again is acknowledged without a second
    /// catalog commit. Missing entries and conflicting duplicates are errors.
    pub fn receive(&self, catalog: &CatalogState, entry: &ReplicationEntry) -> (r: Result<Delivery, ReplicationError>)
        requires
            self.inv(),
        ensures
            r == spec_receive(self@, *catalog, *entry),
            r == Ok::<Delivery, ReplicationError>(Delivery::Append) ==> accepts_next(self@, entry@),
    {
        if let Err(e) = entry.validate() {
            return Err(e);
        }
        if entry.term != self.term {
            return Err(ReplicationError::TermMismatch { expected: self.term, actual: entry.term });
        }
        if entry.index <= self.base_index {
            return Err(ReplicationError::HistoryUnavailable { index: entry.index, base_index: self.base_index });
        }
        proof {
            self.lemma_positions_fit();
        }
        let offset = entry.index - self.base_index - 1;
        if offset < self.entries.len() as u64 {
            let existing = &self.entries[offset as usize];
            assert(self@.entries[offset as int] == existing@);
            if existing.same_as(entry) {
                if let Err(e) = self.ensure_catalog_position(catalog.transaction_id) {
                    return Err(e);
                }
                return Ok(Delivery::Duplicate { index: entry.index, transaction_id: entry.transaction_id });
            }
            return Err(ReplicationError::ConflictingDuplicate { index: entry.index });
        }
        if let Err(e) = self.append_check(catalog, entry) {
            return Err(e);
        }
        Ok(Delivery::Append)
    }

    /// Stamps `operations` as the next entry of this authority log.
    pub fn propose(&self, catalog: &CatalogState, operations: Vec<OperationIr>) -> (r: Result<ReplicationEntry, ReplicationError>)
        requires
            self.inv(),
        ensures
            match r {
                Ok(e) => {
                    &&& e@ == proposed_entry(self@, *catalog, operations@.map_values(|o: OperationIr| o@))
                    &&& propose_error(self@, *catalog, operations@.map_values(|o: OperationIr| o@)) is None
                    &&& accepts_next(self@, e@)
                },
                Err(err) => propose_error(self@, *catalog, operations@.map_values(|o: OperationIr| o@)) == Some(err),
            },
    {
        if let Err(e) = self.ensure_catalog_position(catalog.transaction_id) {
            return Err(e);
        }
        let last = self.last_index();
        if last == u64::MAX {
            return Err(ReplicationError::Invalid(InvalidReason::IndexExhausted));
        }
        let last_tx = self.last_transaction_id();
        if last_tx == u64::MAX {
            return Err(ReplicationError::Invalid(InvalidReason::TransactionIdExhausted));
        }
        ReplicationEntry::new(self.term, last + 1, last_tx + 1, catalog.schema_tag.clone(), operations)
    }

    /// Stamps `operations` as the next entry, to be committed only while the
    /// catalog representation matches `if_match` and not `if_none_match`.
    pub fn propose_with_catalog_preconditions(
        &self,
        catalog: &CatalogState,
        operations: Vec<OperationIr>,
        if_match: Option<String>,
        if_none_match: Option<String>,
    ) -> (r: Result<ProposedCommit, ReplicationError>)
        requires
            self.inv(),
        ensures
            match r {
                Ok(c) => {
                    &&& c.entry@ == proposed_entry(self@, *catalog, operations@.map_values(|o: OperationIr| o@))
                    &&& propose_error(self@, *catalog, operations@.map_values(|o: OperationIr| o@)) is None
                    &&& accepts_next(self@, c.entry@)
                    &&& c.preconditions == Some(CommitPreconditions::Catalog { if_match, if_none_match })
                },
                Err(err) => propose_error(self@, *catalog, operations@.map_values(|o: OperationIr| o@)) == Some(err),
            },
    {
        match self.propose(catalog, operations) {
            Ok(entry) => Ok(ProposedCommit {
                entry,
                preconditions: Some(CommitPreconditions::Catalog { if_match, if_none_match }),
            }),
            Err(e) => Err(e),
        }
    }

    /// Stamps `operations` as the next entry, to be committed only while the
    /// representation of the table `table_name` matches `if_match` and not
    /// `if_none_match`.
    pub fn propose_with_table_preconditions(
        &self,
        catalog: &CatalogState,
        table_name: String,
        operations: Vec<OperationIr>,
        if_match: Option<String>,
        if_none_match: Option<String>,
    ) -> (r: Result<ProposedCommit, ReplicationError>)
        requires
            self.inv(),
        ensures
            match r {
                Ok(c) => {
                    &&& c.entry@ == proposed_entry(self@, *catalog, operations@.map_values(|o: OperationIr| o@))
                    &&& propose_error(self@, *catalog, operations@.map_values(|o: OperationIr| o@)) is None
                    &&& accepts_next(self@, c.entry@)
                    &&& c.preconditions == Some(CommitPreconditions::Table { name: table_name, if_match, if_none_match })
                },
                Err(err) => propose_error(self@, *catalog, operations@.map_values(|o: OperationIr| o@)) == Some(err),
            },
    {
        match self.propose(catalog, operations) {
            Ok(entry) => Ok(ProposedCommit {
                entry,
                preconditions: Some(CommitPreconditions::Table { name: table_name, if_match, if_none_match }),
            }),
            Err(e) => Err(e),
        }
    }

    /// Appends an entry that the catalog has committed at `committed_transaction_id`.
    pub fn commit_appended(&mut self, entry: ReplicationEntry, committed_transaction_id: u64) -> (r: Result<ApplyOutcome, ReplicationError>)
        requires
            old(self).inv(),
            accepts_next(old(self)@, entry@),
        ensures
            final(self).inv(),
            committed_transaction_id == entry.transaction_id ==> {
                &&& r == Ok::<ApplyOutcome, ReplicationError>(ApplyOutcome::Applied { index: entry.index, transaction_id: entry.transaction_id })
                &&& final(self)@ == push_entry(old(self)@, entry@)
            },
            committed_transaction_id != entry.transaction_id ==> {
                &&& r == Err::<ApplyOutcome, ReplicationError>(ReplicationError::Invalid(InvalidReason::CommittedTransactionMismatch {
                    committed: committed_transaction_id,
                    expected: entry.transaction_id,
                }))
                &&& final(self)@ == old(self)@
            },
    {
        if committed_transaction_id != entry.transaction_id {
            return Err(ReplicationError::Invalid(InvalidReason::CommittedTransactionMismatch {
                committed: committed_transaction_id,
                expected: entry.transaction_id,
            }));
        }
        let outcome = ApplyOutcome::Applied { index: entry.index, transaction_id: entry.transaction_id };
        let ghost before = self@;
        self.entries.push(entry);
        assert(self@.entries =~= before.entries.push(entry@));
        assert(self@ == push_entry(before, entry@));
        Ok(outcome)
    }

    /// Decides a local follower read at an already applied transaction and
    /// returns the transaction whose retained catalog image is to be read.
    pub fn read_at(&self, catalog_transaction_id: u64, transaction_id: u64) -> (r: Result<u64, ReplicationError>)
        requires
            self.inv(),
        ensures
            match read_error(self@, catalog_transaction_id, transaction_id) {
                Some(e) => r == Err::<u64, ReplicationError>(e),
                None => r == Ok::<u64, ReplicationError>(transaction_id),
            },
    {
        if transaction_id == 0 {
            return Err(ReplicationError::Invalid(InvalidReason::ReadTransactionNotPositive));
        }
        if let Err(e) = self.ensure_catalog_position(catalog_transaction_id) {
            return Err(e);
        }
        if transaction_id < self.base_transaction_id {
            return Err(ReplicationError::ReadHistoryUnavailable {
                requested: transaction_id,
                base_transaction_id: self.base_transaction_id,
            });
        }
        let applied = self.last_transaction_id();
        if transaction_id > applied {
            return Err(ReplicationError::ReadUnavailable { requested: transaction_id, applied });
        }
        Ok(transaction_id)
    }

    /// Decides a read of the latest catalog image that this log covers.
    pub fn read_applied(&self, catalog_transaction_id: u64) -> (r: Result<u64, ReplicationError>)
        requires
            self.inv(),
        ensures
            catalog_transaction_id == 0 ==> r == Err::<u64, ReplicationError>(ReplicationError::ReadUnavailable { requested: 1, applied: 0 }),
            catalog_transaction_id != 0 ==> match read_error(self@, catalog_transaction_id, catalog_transaction_id) {
                Some(e) => r == Err::<u64, ReplicationError>(e),
                None => r == Ok::<u64, ReplicationError>(catalog_transaction_id),
            },
    {
        if catalog_transaction_id == 0 {
            return Err(ReplicationError::ReadUnavailable { requested: 1, applied: 0 });
        }
        self.read_at(catalog_transaction_id, catalog_transaction_id)
    }

    /// Opens the log of a catalog at `catalog_transaction_id` from its decoded
    /// sidecar, or bootstraps one at the catalog position when there is none.
    /// The log must use `term` and end at the catalog position.
    pub fn open(existing: Option<ReplicationLog>, catalog_transaction_id: u64, term: u64) -> (r: Result<ReplicationLog, ReplicationError>)
        requires
            existing matches Some(l) ==> l.inv(),
        ensures
            match existing {
                Some(l) => if l@.term != term {
                    r == Err::<ReplicationLog, ReplicationError>(ReplicationError::TermMismatch { expected: term, actual: l@.term })
                } else {
                    match catalog_position_error(l@, catalog_transaction_id) {
                        Some(e) => r == Err::<ReplicationLog, ReplicationError>(e),
                        None => r matches Ok(o) && o@ == l@ && o.inv(),
                    }
                },
                None => if term == 0 {
                    r == Err::<ReplicationLog, ReplicationError>(ReplicationError::Invalid(InvalidReason::TermNotPositive))
                } else {
                    r matches Ok(o) && o@ == fresh_log(term, catalog_transaction_id, catalog_transaction_id) && o.inv()
                },
            },
    {
        let log = match existing {
            Some(l) => l,
            None => {
                let made = if catalog_transaction_id == 0 {
                    Self::new(term)
                } else {
                    Self::with_position(term, catalog_transaction_id, catalog_transaction_id)
                };
                match made {
                    Ok(l) => l,
                    Err(e) => {
                        return Err(e);
                    },
                }
            },
        };
        if log.term != term {
            return Err(ReplicationError::TermMismatch { expected: term, actual: log.term });
        }
        if let Err(e) = log.ensure_catalog_position(catalog_transaction_id) {
            return Err(e);
        }
        Ok(log)
    }

    /// Builds the progress acknowledgement for this log's applied position.
    pub fn progress_for(&self, catalog: &CatalogState, follower_id: String) -> (r: Result<ReplicationProgress, ReplicationError>)
        requires
            self.inv(),
        ensures
            ({
                let v = ProgressView {
                    version: super::progress::REPLICATION_PROGRESS_VERSION,
                    follower_id: follower_id@,
                    term: self@.term,
                    index: last_index(self@) as u64,
                    transaction_id: last_transaction_id(self@) as u64,
                    schema_tag: catalog.schema_tag@,
                };
                match catalog_position_error(self@, catalog.transaction_id) {
                    Some(e) => r == Err::<ReplicationProgress, ReplicationError>(e),
                    None => match r {
                        Ok(p) => p@ == v && progress_valid(v),
                        Err(e) => progress_error(v) == Some(e),
                    },
                }
            }),
    {
        if let Err(e) = self.ensure_catalog_position(catalog.transaction_id) {
            return Err(e);
        }
        ReplicationProgress::new(
            follower_id,
            self.term,
            self.last_index(),
            self.last_transaction_id(),
            catalog.schema_tag.clone(),
        )
    }

    /// Looks up the slot of a follower by identifier.
    fn find_follower(&self, id: &String) -> (r: Option<usize>)
        requires
            self.inv(),
        ensures
            match r {
                Some(k) => follower_slot(self@.followers, id@) == Some(k as int) && k < self@.followers.len(),
                None => follower_slot(self@.followers, id@) is None,
            },
    {
        let fs = &self.follower_watermarks.followers;
        let ghost views = self@.followers;
        let mut i: usize = 0;
        while i < fs.len()
            invariant
                i <= fs.len(),
                views == fs@.map_values(|p: ReplicationProgress| p@),
                views == self@.followers,
                followers_wf(views),
                forall|j: int| 0 <= j < i ==> (#[trigger] views[j]).follower_id != id@,
            decreases fs.len() - i,
        {
            if same_text(&fs[i].follower_id, id) {
                assert(views[i as int].follower_id == id@);
                proof {
                    let k = choose|k: int| 0 <= k < views.len() && (#[trigger] views[k]).follower_id == id@;
                    assert(views[k].follower_id == id@);
                    if k != i as int {
                        if k < i as int {
                            assert(views[k].follower_id != id@);
                        } else {
                            assert(views[i as int].follower_id != views[k].follower_id);
                        }
                    }
                    assert(k == i as int);
                    assert(follower_slot(views, id@) == Some(i as int));
                }
                return Some(i);
            }
            assert(views[i as int].follower_id != id@);
            i += 1;
        }
        None
    }

    /// Records a validated, monotonic applied position for one follower.
    pub fn acknowledge_follower(&mut self, catalog: &CatalogState, progress: ReplicationProgress) -> (r: Result<ReplicationProgressOutcome, ReplicationError>)
        requires
            old(self).inv(),
        ensures
            final(self).inv(),
            r == spec_acknowledge(old(self)@, *catalog, progress),
            r == Ok::<ReplicationProgressOutcome, ReplicationError>(ReplicationProgressOutcome::Accepted) ==> final(self)@ == (LogView {
                followers: acknowledged_followers(old(self)@.followers, progress@),
                ..old(self)@
            }),
            r != Ok::<ReplicationProgressOutcome, ReplicationError>(ReplicationProgressOutcome::Accepted) ==> final(self)@ == old(self)@,
    {
        if let Err(e) = progress.validate() {
            return Err(e);
        }
        if let Err(e) = self.ensure_catalog_position(catalog.transaction_id) {
            return Err(e);
        }
        if progress.term != self.term {
            return Err(ReplicationError::TermMismatch { expected: self.term, actual: progress.term });
        }
        if !same_text(&progress.schema_tag, &catalog.schema_tag) {
            return Err(ReplicationError::SchemaMismatch {
                expected: catalog.schema_tag.clone(),
                actual: progress.schema_tag,
            });
        }
        if progress.index < self.base_index {
            return Err(ReplicationError::HistoryUnavailable { index: progress.index, base_index: self.base_index });
        }
        let last = self.last_index();
        if progress.index > last {
            return Err(ReplicationError::ProgressUnavailable { requested: progress.index, applied: last });
        }
        let offset = progress.index - self.base_index;
        let expected_transaction_id = match self.base_transaction_id.checked_add(offset) {
            Some(v) => v,
            None => {
                return Err(ReplicationError::Invalid(InvalidReason::ProgressTransactionIdExhausted));
            },
        };
        if progress.transaction_id != expected_transaction_id {
            return Err(ReplicationError::TransactionGap {
                expected: expected_transaction_id,
                actual: progress.transaction_id,
            });
        }
        let ghost before = self@;
        match self.find_follower(&progress.follower_id) {
            Some(k) => {
                let previous = &self.follower_watermarks.followers[k];
                assert(before.followers[k as int] == previous@);
                if previous.same_as(&progress) {
                    return Ok(ReplicationProgressOutcome::Duplicate);
                }
                if progress.index < previous.index {
                    let previous_index = previous.index;
                    return Err(ReplicationError::ProgressRegression {
                        follower_id: progress.follower_id,
                        previous_index,
                        requested_index: progress.index,
                    });
                }
                let ghost pv = progress@;
                self.follower_watermarks.followers.set(k, progress);
                assert(self@.followers =~= before.followers.update(k as int, pv));
                proof {
                    assert forall|i: int, j: int| 0 <= i < j < self@.followers.len() implies
                        (#[trigger] self@.followers[i]).follower_id != (#[trigger] self@.followers[j]).follower_id by {
                        assert(before.followers[i].follower_id != before.followers[j].follower_id);
                    }
                }
            },
            None => {
                if self.follower_watermarks.followers.len() >= MAX_REPLICATION_FOLLOWERS {
                    return Err(ReplicationError::Invalid(InvalidReason::TooManyFollowers));
                }
                let ghost pv = progress@;
                self.follower_watermarks.followers.push(progress);
                assert(self@.followers =~= before.followers.push(pv));
                proof {
                    assert forall|i: int, j: int| 0 <= i < j < self@.followers.len() implies
                        (#[trigger] self@.followers[i]).follower_id != (#[trigger] self@.followers[j]).follower_id by {
                        if j == before.followers.len() {
                            assert(!(exists|k: int| 0 <= k < before.followers.len() && (#[trigger] before.followers[k]).follower_id == pv.follower_id));
                            assert(before.followers[i].follower_id != pv.follower_id);
                        } else {
                            assert(before.followers[i].follower_id != before.followers[j].follower_id);
                        }
                    }
                }
            },
        }
        Ok(ReplicationProgressOutcome::Accepted)
    }
}


/// The four-byte tag that starts a replication sidecar: "TXRP".
pub open spec fn sidecar_magic() -> Seq<u8> {
    seq![0x54u8, 0x58u8, 0x52u8, 0x50u8]
}

pub const REPLICATION_SIDECAR_VERSION: u8 = 1;

/// The sidecar framing of a serialized log: the tag, the version byte, then the JSON.
pub open spec fn framed_sidecar(json: Seq<u8>) -> Seq<u8> {
    sidecar_magic() + seq![REPLICATION_SIDECAR_VERSION] + json
}

/// What unframing `bytes` yields: the JSON payload or the framing error.
pub open spec fn spec_unframe_sidecar(bytes: Seq<u8>) -> Result<Seq<u8>, ReplicationError> {
    if bytes.len() < 4 || bytes.subrange(0, 4) != sidecar_magic() {
        Err(ReplicationError::Invalid(InvalidReason::SidecarHeaderInvalid))
    } else if bytes.len() == 4 {
        Err(ReplicationError::Invalid(InvalidReason::SidecarHeaderTruncated))
    } else if bytes[4] != REPLICATION_SIDECAR_VERSION {
        Err(ReplicationError::Invalid(InvalidReason::UnsupportedSidecarVersion(bytes[4])))
    } else {
        Ok(bytes.subrange(5, bytes.len() as int))
    }
}

/// The bytes of a result, by view.
pub open spec fn map_ok_view(r: Result<Vec<u8>, ReplicationError>) -> Result<Seq<u8>, ReplicationError> {
    match r {
        Ok(v) => Ok(v@),
        Err(e) => Err(e),
    }
}

impl ReplicationLog {
    /// Rebuilds a log from its decoded fields and validates it.
    pub fn from_parts(
        format_version: u16,
        term: u64,
        base_index: u64,
        base_transaction_id: u64,
        entries: Vec<ReplicationEntry>,
    ) -> (r: Result<ReplicationLog, ReplicationError>)
        ensures
            ({
                let v = LogView {
                    format_version,
                    term,
                    base_index,
                    base_transaction_id,
                    entries: entries@.map_values(|e: ReplicationEntry| e@),
                    followers: Seq::empty(),
                };
                &&& (r is Ok <==> log_valid(v))
                &&& match r {
                    Ok(l) => l@ == v && l.inv(),
                    Err(e) => log_error(v) == Some(e),
                }
            }),
    {
        let log = ReplicationLog {
            format_version,
            term,
            base_index,
            base_transaction_id,
            entries,
            follower_watermarks: FollowerWatermarks { followers: Vec::new() },
        };
        assert(log@.followers =~= Seq::<ProgressView>::empty());
        match log.validate() {
            Ok(()) => Ok(log),
            Err(e) => Err(e),
        }
    }

    /// Frames a serialized log as a journaled TXRP sidecar.
    pub fn to_sidecar_bytes(json: &[u8]) -> (r: Vec<u8>)
        ensures
            r@ == framed_sidecar(json@),
    {
        let mut bytes: Vec<u8> = Vec::new();
        bytes.push(0x54u8);
        bytes.push(0x58u8);
        bytes.push(0x52u8);
        bytes.push(0x50u8);
        bytes.push(REPLICATION_SIDECAR_VERSION);
        let mut i: usize = 0;
        while i < json.len()
            invariant
                i <= json.len(),
                bytes@ == sidecar_magic() + seq![REPLICATION_SIDECAR_VERSION] + json@.subrange(0, i as int),
            decreases json.len() - i,
        {
            bytes.push(json[i]);
            assert(json@.subrange(0, i + 1) =~= json@.subrange(0, i as int).push(json@[i as int]));
            i += 1;
        }
        assert(json@.subrange(0, json.len() as int) =~= json@);
        bytes
    }

    /// Checks the TXRP framing of a sidecar and returns its JSON payload.
    pub fn from_sidecar_bytes(bytes: &[u8]) -> (r: Result<Vec<u8>, ReplicationError>)
        ensures
            map_ok_view(r) == spec_unframe_sidecar(bytes@),
    {
        if bytes.len() < 4 || bytes[0] != 0x54u8 || bytes[1] != 0x58u8 || bytes[2] != 0x52u8 || bytes[3] != 0x50u8 {
            proof {
                if bytes@.len() >= 4 {
                    let head = bytes@.subrange(0, 4);
                    assert(head[0] == bytes@[0] && head[1] == bytes@[1] && head[2] == bytes@[2] && head[3] == bytes@[3]);
                    assert(head != sidecar_magic());
                }
            }
            return Err(ReplicationError::Invalid(InvalidReason::SidecarHeaderInvalid));
        }
        assert(bytes@.subrange(0, 4) =~= sidecar_magic());
        if bytes.len() == 4 {
            return Err(ReplicationError::Invalid(InvalidReason::SidecarHeaderTruncated));
        }
        let version = bytes[4];
        if version != REPLICATION_SIDECAR_VERSION {
            return Err(ReplicationError::Invalid(InvalidReason::UnsupportedSidecarVersion(version)));
        }
        let mut payload: Vec<u8> = Vec::new();
        let mut i: usize = 5;
        while i < bytes.len()
            invariant
                5 <= i <= bytes.len(),
                payload@ == bytes@.subrange(5, i as int),
            decreases bytes.len() - i,
        {
            payload.push(bytes[i]);
            assert(bytes@.subrange(5, i + 1) =~= bytes@.subrange(5, i as int).push(bytes@[i as int]));
            i += 1;
        }
        Ok(payload)
    }
}

/// Rejects a sidecar on disk that is not the framing of the in-memory log.
#[verifier::loop_isolation(false)]
pub fn check_sidecar_state(actual: Option<&[u8]>, expected: &[u8]) -> (r: Result<(), ReplicationError>)
    ensures
        r == (match actual {
            Some(bytes) => if bytes@ == expected@ {
                Ok::<(), ReplicationError>(())
            } else {
                Err(ReplicationError::SidecarStateMismatch)
            },
            None => Ok(()),
        }),
{
    match actual {
        None => Ok(()),
        Some(bytes) => {
            if bytes.len() != expected.len() {
                return Err(ReplicationError::SidecarStateMismatch);
            }
            let mut i: usize = 0;
            while i < bytes.len()
                invariant
                    i <= bytes.len(),
                    bytes.len() == expected.len(),
                    forall|j: int| 0 <= j < i ==> bytes@[j] == expected@[j],
                decreases bytes.len() - i,
            {
                if bytes[i] != expected[i] {
                    assert(bytes@[i as int] != expected@[i as int]);
                    return Err(ReplicationError::SidecarStateMismatch);
                }
                i += 1;
            }
            assert(bytes@ =~= expected@);
            Ok(())
        },
    }
}


/// A page of `es` after `after_index`, carrying the position of `l`.
pub open spec fn page_view(l: LogView, after_index: u64, es: Seq<EntryView>) -> BatchView {
    BatchView {
        transport_version: super::REPLICATION_TRANSPORT_VERSION,
        term: l.term,
        base_index: l.base_index,
        base_transaction_id: l.base_transaction_id,
        after_index,
        last_index: last_index(l) as u64,
        last_transaction_id: last_transaction_id(l) as u64,
        entries: es,
        next_after: expected_next_after(es, last_index(l) as u64),
    }
}

/// The page of the first `k` entries after `after_index`.
pub open spec fn page_of(l: LogView, after_index: u64, k: int) -> BatchView {
    let offset = after_index - l.base_index;
    page_view(l, after_index, l.entries.subrange(offset, offset + k))
}

/// One call of `encoded_len` measured the page of `k` entries within the byte bound.
pub open spec fn page_fits<F: Fn(&ReplicationEntryBatch) -> usize>(encoded_len: F, l: LogView, after_index: u64, k: int) -> bool {
    exists|b: ReplicationEntryBatch, size: usize|
        #![trigger encoded_len.ensures((&b,), size)]
        b@ == page_of(l, after_index, k) && encoded_len.ensures((&b,), size) && size <= MAX_REPLICATION_ENTRY_BATCH_BYTES
}

/// One call of `encoded_len` measured the page of `k` entries beyond the byte bound.
pub open spec fn page_too_large<F: Fn(&ReplicationEntryBatch) -> usize>(encoded_len: F, l: LogView, after_index: u64, k: int) -> bool {
    exists|b: ReplicationEntryBatch, size: usize|
        #![trigger encoded_len.ensures((&b,), size)]
        b@ == page_of(l, after_index, k) && encoded_len.ensures((&b,), size) && size > MAX_REPLICATION_ENTRY_BATCH_BYTES
}

/// The number of entries a page may hold: `limit`, or fewer when fewer remain.
pub open spec fn page_capacity(l: LogView, after_index: u64, limit: usize) -> int {
    let available = last_index(l) - after_index;
    if limit < available { limit as int } else { available }
}

/// A page cut from a valid log is a valid page.
pub proof fn lemma_page_valid(l: LogView, after_index: u64, k: int)
    requires
        log_valid(l),
        l.base_index <= after_index <= last_index(l),
        0 <= k <= last_index(l) - after_index,
        k <= MAX_REPLICATION_ENTRY_BATCH,
        k > 0 || after_index == last_index(l),
        last_index(l) <= u64::MAX,
        last_transaction_id(l) <= u64::MAX,
    ensures
        batch_valid(page_of(l, after_index, k)),
{
    let offset = after_index - l.base_index;
    let es = l.entries.subrange(offset, offset + k);
    assert forall|i: int| 0 <= i < es.len() implies {
        &&& entry_valid(#[trigger] es[i])
        &&& es[i].term == l.term
        &&& es[i].index == after_index + 1 + i
        &&& es[i].transaction_id == l.base_transaction_id + (after_index - l.base_index) + 1 + i
    } by {
        assert(es[i] == l.entries[offset + i]);
    }
    assert(batch_entries_contiguous(es, l.term, after_index + 1, l.base_transaction_id + (after_index - l.base_index) + 1));
    if k > 0 {
        assert(es.last() == es[k - 1]);
    }
}

impl ReplicationLog {
    fn page(&self, after_index: u64, entries: Vec<ReplicationEntry>) -> (r: ReplicationEntryBatch)
        requires
            self.inv(),
        ensures
            r@ == page_view(self@, after_index, entries@.map_values(|e: ReplicationEntry| e@)),
    {
        let last = self.last_index();
        let n = entries.len();
        let next_after = if n > 0 && entries[n - 1].index < last {
            Some(entries[n - 1].index)
        } else {
            None
        };
        proof {
            if n > 0 {
                assert(entries@.map_values(|e: ReplicationEntry| e@).last() == entries@[n - 1]@);
            }
        }
        ReplicationEntryBatch {
            transport_version: super::REPLICATION_TRANSPORT_VERSION,
            term: self.term,
            base_index: self.base_index,
            base_transaction_id: self.base_transaction_id,
            after_index,
            last_index: last,
            last_transaction_id: self.last_transaction_id(),
            entries,
            next_after,
        }
    }

    /// Returns a bounded contiguous entry page after an already applied index.
    ///
    /// `encoded_len` measures the transport encoding of a candidate page; the
    /// page grows one entry at a time while the encoding stays within the
    /// byte bound.
    #[verifier::loop_isolation(false)]
    pub fn entry_batch<F: Fn(&ReplicationEntryBatch) -> usize>(
        &self,
        after_index: u64,
        limit: usize,
        encoded_len: F,
    ) -> (r: Result<ReplicationEntryBatch, ReplicationError>)
        requires
            self.inv(),
            forall|b: &ReplicationEntryBatch| #[trigger] encoded_len.requires((b,)),
        ensures
            limit < 1 || limit > MAX_REPLICATION_ENTRY_BATCH ==> r == Err::<ReplicationEntryBatch, ReplicationError>(
                ReplicationError::Invalid(InvalidReason::BatchLimitOutOfRange)),
            1 <= limit <= MAX_REPLICATION_ENTRY_BATCH && after_index < self@.base_index ==> r
                == Err::<ReplicationEntryBatch, ReplicationError>(ReplicationError::HistoryUnavailable {
                index: after_index,
                base_index: self@.base_index,
            }),
            1 <= limit <= MAX_REPLICATION_ENTRY_BATCH && after_index > last_index(self@) ==> r
                == Err::<ReplicationEntryBatch, ReplicationError>(ReplicationError::EntriesUnavailable {
                requested: after_index,
                applied: last_index(self@) as u64,
            }),
            1 <= limit <= MAX_REPLICATION_ENTRY_BATCH && self@.base_index <= after_index <= last_index(self@)
                ==> match r {
                Ok(b) => {
                    let k = b@.entries.len() as int;
                    &&& b@ == page_of(self@, after_index, k)
                    &&& batch_valid(b@)
                    &&& after_index < last_index(self@) ==> k >= 1
                    &&& k <= page_capacity(self@, after_index, limit)
                    &&& forall|j: int| 1 <= j <= k ==> page_fits(encoded_len, self@, after_index, j)
                    &&& k == page_capacity(self@, after_index, limit) || page_too_large(encoded_len, self@, after_index, k + 1)
                },
                Err(e) => {
                    &&& e == ReplicationError::Invalid(InvalidReason::EntryExceedsBatchBytes)
                    &&& page_capacity(self@, after_index, limit) >= 1
                    &&& page_too_large(encoded_len, self@, after_index, 1)
                },
            },
    {
        if limit < 1 || limit > MAX_REPLICATION_ENTRY_BATCH {
            return Err(ReplicationError::Invalid(InvalidReason::BatchLimitOutOfRange));
        }
        if after_index < self.base_index {
            return Err(ReplicationError::HistoryUnavailable { index: after_index, base_index: self.base_index });
        }
        let last = self.last_index();
        if after_index > last {
            return Err(ReplicationError::EntriesUnavailable { requested: after_index, applied: last });
        }
        proof {
            self.lemma_positions_fit();
        }
        let offset = (after_index - self.base_index) as usize;
        let available = self.entries.len() - offset;
        let capacity = if limit < available { limit } else { available };
        let ghost l = self@;
        let mut entries: Vec<ReplicationEntry> = Vec::new();
        let mut k: usize = 0;
        let mut stopped = false;
        while k < capacity && !stopped
            invariant
                k <= capacity,
                capacity == page_capacity(l, after_index, limit),
                offset + capacity <= self.entries@.len(),
                offset == after_index - l.base_index,
                entries@.map_values(|e: ReplicationEntry| e@) == l.entries.subrange(offset as int, offset + k),
                forall|j: int| 1 <= j <= k ==> page_fits(encoded_len, l, after_index, j),
                stopped ==> page_too_large(encoded_len, l, after_index, k + 1) && k >= 1,
            decreases capacity - k + (if stopped { 0int } else { 1int }),
        {
            let mut candidate_entries: Vec<ReplicationEntry> = Vec::new();
            let mut c: usize = 0;
            while c < k
                invariant
                    c <= k,
                    k == entries@.len(),
                    forall|j: int| 0 <= j < c ==> (#[trigger] candidate_entries@[j])@ == entries@[j]@,
                    candidate_entries@.len() == c,
                decreases k - c,
            {
                candidate_entries.push(entries[c].duplicate());
                c += 1;
            }
            candidate_entries.push(self.entries[offset + k].duplicate());
            let candidate = self.page(after_index, candidate_entries);
            proof {
                assert(candidate@.entries =~= l.entries.subrange(offset as int, offset + k + 1));
                assert(candidate@ == page_of(l, after_index, k + 1));
                lemma_page_valid(l, after_index, k + 1);
            }
            let size = encoded_len(&candidate);
            if size > MAX_REPLICATION_ENTRY_BATCH_BYTES {
                if k == 0 {
                    return Err(ReplicationError::Invalid(InvalidReason::EntryExceedsBatchBytes));
                }
                stopped = true;
            } else {
                let ghost before = entries@.map_values(|e: ReplicationEntry| e@);
                entries.push(self.entries[offset + k].duplicate());
                assert(entries@.map_values(|e: ReplicationEntry| e@) =~= l.entries.subrange(offset as int, offset + k + 1));
                k += 1;
            }
        }
        let batch = self.page(after_index, entries);
        proof {
            lemma_page_valid(l, after_index, k as int);
            lemma_batch_error_none(batch@);
        }
        Ok(batch)
    }
}


/// The first reason to refuse a transport page before delivering its entries.
pub open spec fn accept_batch_error(l: LogView, b: BatchView) -> Option<ReplicationError> {
    if super::transport::batch_error(b) is Some {
        super::transport::batch_error(b)
    } else if b.term != l.term {
        Some(ReplicationError::TermMismatch { expected: l.term, actual: b.term })
    } else {
        None
    }
}

/// What an entry that the log accepted yields: the acknowledgement of a
/// duplicate, or the entry applied.
pub open spec fn delivery_outcome(d: Delivery, e: EntryView) -> ApplyOutcome {
    match d {
        Delivery::Duplicate { index, transaction_id } => ApplyOutcome::Duplicate { index, transaction_id },
        Delivery::Append => ApplyOutcome::Applied { index: e.index, transaction_id: e.transaction_id },
    }
}

/// The log after an accepted entry: unchanged by a duplicate, extended by
/// an appended entry.
pub open spec fn delivered_log(l: LogView, d: Delivery, e: EntryView) -> LogView {
    match d {
        Delivery::Duplicate { .. } => l,
        Delivery::Append => push_entry(l, e),
    }
}

/// The delivery of a checked transport page, one entry at a time in order:
/// each entry is decided by `receive` on the log as the entries before it
/// left it, and an appended entry is committed to the catalog before the
/// next is decided.
pub struct PageDelivery {
    entries: Vec<ReplicationEntry>,
    outcomes: Vec<ApplyOutcome>,
    awaiting_commit: bool,
    logs: Ghost<Seq<LogView>>,
    catalogs: Ghost<Seq<CatalogState>>,
}

/// A page delivery's state as plain values: the page's entries, the
/// outcomes of those delivered so far, whether the next one awaits its
/// catalog commit, the log before each delivered entry and after the last,
/// and the catalog state that each decided entry was received against.
pub struct PageDeliveryView {
    pub entries: Seq<EntryView>,
    pub page: Seq<ReplicationEntry>,
    pub outcomes: Seq<ApplyOutcome>,
    pub awaiting_commit: bool,
    pub logs: Seq<LogView>,
    pub catalogs: Seq<CatalogState>,
}

impl View for PageDelivery {
    type V = PageDeliveryView;

    closed spec fn view(&self) -> PageDeliveryView {
        PageDeliveryView {
            entries: self.entries@.map_values(|e: ReplicationEntry| e@),
            page: self.entries@,
            outcomes: self.outcomes@,
            awaiting_commit: self.awaiting_commit,
            logs: self.logs@,
            catalogs: self.catalogs@,
        }
    }
}

/// Whether a page delivery went as `receive` decides, entry by entry in
/// order: entry `i` was received by the log `logs[i]` against the catalog
/// `catalogs[i]`, its outcome is what that decision yields, and the log that
/// the next entry meets is the one it left; an entry that awaits its commit
/// was accepted as the log's next entry.
pub open spec fn delivered_in_order(d: PageDeliveryView) -> bool {
    &&& d.page.len() == d.entries.len()
    &&& forall|i: int| 0 <= i < d.page.len() ==> #[trigger] d.entries[i] == d.page[i]@
    &&& d.outcomes.len() <= d.entries.len()
    &&& d.logs.len() == d.outcomes.len() + 1
    &&& d.catalogs.len() == d.outcomes.len() + if d.awaiting_commit { 1int } else { 0int }
    &&& d.awaiting_commit ==> d.outcomes.len() < d.entries.len()
    &&& forall|i: int| 0 <= i < d.outcomes.len() ==> {
        &&& #[trigger] spec_receive(d.logs[i], d.catalogs[i], d.page[i]) matches Ok(dec)
        &&& d.outcomes[i] == delivery_outcome(dec, d.entries[i])
        &&& d.logs[i + 1] == delivered_log(d.logs[i], dec, d.entries[i])
    }
    &&& d.awaiting_commit ==> {
        let k = d.outcomes.len() as int;
        &&& spec_receive(d.logs[k], d.catalogs[k], d.page[k]) == Ok::<Delivery, ReplicationError>(Delivery::Append)
        &&& accepts_next(d.logs[k], d.entries[k])
    }
}

impl PageDelivery {
    /// The page's consistency, which every operation keeps.
    pub closed spec fn wf(&self) -> bool {
        delivered_in_order(self@)
    }

    /// The entry to deliver next, while any is left.
    pub fn next_entry(&self) -> (r: Option<&ReplicationEntry>)
        ensures
            match r {
                Some(e) => self@.outcomes.len() < self@.entries.len() && e@ == self@.entries[self@.outcomes.len() as int],
                None => self@.outcomes.len() >= self@.entries.len(),
            },
    {
        let k = self.outcomes.len();
        if k < self.entries.len() {
            Some(&self.entries[k])
        } else {
            None
        }
    }

    /// Decides the next entry on `log`, which the entries before it left as
    /// it is, with the catalog at `catalog`. A duplicate is recorded; an
    /// entry to append is handed back for its catalog commit, after which
    /// `applied` records it; a refused entry fails the page, the entries
    /// before it staying delivered.
    pub fn deliver_next(&mut self, log: &ReplicationLog, catalog: &CatalogState) -> (r: Result<
        Option<ReplicationEntry>,
        ReplicationError,
    >)
        requires
            old(self).wf(),
            !old(self)@.awaiting_commit,
            old(self)@.outcomes.len() < old(self)@.entries.len(),
            log.inv(),
            log@ == old(self)@.logs.last(),
        ensures
            final(self).wf(),
            final(self)@.entries == old(self)@.entries,
            ({
                let k = old(self)@.outcomes.len() as int;
                let e = old(self)@.page[k];
                match spec_receive(log@, *catalog, e) {
                    Err(x) => r == Err::<Option<ReplicationEntry>, ReplicationError>(x) && final(self)@ == old(self)@,
                    Ok(Delivery::Duplicate { index, transaction_id }) => {
                        &&& r == Ok::<Option<ReplicationEntry>, ReplicationError>(None)
                        &&& final(self)@.outcomes == old(self)@.outcomes.push(
                            ApplyOutcome::Duplicate { index, transaction_id },
                        )
                        &&& !final(self)@.awaiting_commit
                        &&& final(self)@.logs.last() == log@
                    },
                    Ok(Delivery::Append) => {
                        &&& r matches Ok(Some(x)) && x@ == e@ && accepts_next(log@, x@)
                        &&& final(self)@.outcomes == old(self)@.outcomes
                        &&& final(self)@.awaiting_commit
                        &&& final(self)@.logs == old(self)@.logs
                    },
                }
            }),
    {
        let k = self.outcomes.len();
        let decided = log.receive(catalog, &self.entries[k]);
        let ghost before = self@;
        match decided {
            Err(e) => Err(e),
            Ok(Delivery::Duplicate { index, transaction_id }) => {
                self.outcomes.push(ApplyOutcome::Duplicate { index, transaction_id });
                proof {
                    self.logs@ = self.logs@.push(log@);
                    self.catalogs@ = self.catalogs@.push(*catalog);
                }
                assert(self@.page == before.page);
                assert forall|i: int| 0 <= i < self@.outcomes.len() implies {
                    &&& #[trigger] spec_receive(self@.logs[i], self@.catalogs[i], self@.page[i]) matches Ok(dec)
                    &&& self@.outcomes[i] == delivery_outcome(dec, self@.entries[i])
                    &&& self@.logs[i + 1] == delivered_log(self@.logs[i], dec, self@.entries[i])
                } by {
                    if i < k {
                        assert(self@.logs[i] == before.logs[i] && self@.logs[i + 1] == before.logs[i + 1]);
                        assert(self@.catalogs[i] == before.catalogs[i]);
                    } else {
                        assert(self@.logs[i] == log@);
                    }
                }
                Ok(None)
            },
            Ok(Delivery::Append) => {
                self.awaiting_commit = true;
                proof {
                    self.catalogs@ = self.catalogs@.push(*catalog);
                }
                assert forall|i: int| 0 <= i < self@.outcomes.len() implies {
                    &&& #[trigger] spec_receive(self@.logs[i], self@.catalogs[i], self@.page[i]) matches Ok(dec)
                    &&& self@.outcomes[i] == delivery_outcome(dec, self@.entries[i])
                    &&& self@.logs[i + 1] == delivered_log(self@.logs[i], dec, self@.entries[i])
                } by {
                    assert(self@.catalogs[i] == before.catalogs[i]);
                }
                Ok(Some(self.entries[k].duplicate()))
            },
        }
    }

    /// Records the entry that `deliver_next` handed back once the catalog
    /// has committed it as transaction `committed_transaction_id`: the log
    /// appends it, and a commit under another transaction id fails the page.
    pub fn applied(&mut self, log: &mut ReplicationLog, entry: ReplicationEntry, committed_transaction_id: u64) -> (r: Result<
        ApplyOutcome,
        ReplicationError,
    >)
        requires
            old(self).wf(),
            old(self)@.awaiting_commit,
            old(log).inv(),
            old(log)@ == old(self)@.logs.last(),
            entry@ == old(self)@.entries[old(self)@.outcomes.len() as int],
        ensures
            final(self).wf(),
            final(log).inv(),
            final(self)@.entries == old(self)@.entries,
            committed_transaction_id == entry.transaction_id ==> {
                &&& r == Ok::<ApplyOutcome, ReplicationError>(ApplyOutcome::Applied { index: entry.index, transaction_id: entry.transaction_id })
                &&& final(self)@.outcomes == old(self)@.outcomes.push(r->Ok_0)
                &&& !final(self)@.awaiting_commit
                &&& final(log)@ == push_entry(old(log)@, entry@)
                &&& final(self)@.logs.last() == final(log)@
            },
            committed_transaction_id != entry.transaction_id ==> {
                &&& r is Err
                &&& final(self)@ == old(self)@
                &&& final(log)@ == old(log)@
            },
    {
        let ghost before = self@;
        let ghost k = self@.outcomes.len() as int;
        let ghost entry_view = entry@;
        let ghost log_before = log@;
        let result = log.commit_appended(entry, committed_transaction_id);
        match result {
            Ok(outcome) => {
                self.outcomes.push(outcome);
                self.awaiting_commit = false;
                proof {
                    self.logs@ = self.logs@.push(log@);
                }
                assert(self@.page == before.page);
                assert forall|i: int| 0 <= i < self@.outcomes.len() implies {
                    &&& #[trigger] spec_receive(self@.logs[i], self@.catalogs[i], self@.page[i]) matches Ok(dec)
                    &&& self@.outcomes[i] == delivery_outcome(dec, self@.entries[i])
                    &&& self@.logs[i + 1] == delivered_log(self@.logs[i], dec, self@.entries[i])
                } by {
                    if i < k {
                        assert(self@.logs[i] == before.logs[i] && self@.logs[i + 1] == before.logs[i + 1]);
                    } else {
                        assert(self@.logs[i] == log_before);
                        assert(self@.entries[i] == entry_view);
                    }
                }
                Ok(outcome)
            },
            Err(e) => Err(e),
        }
    }

    /// The outcomes of the delivered entries, in entry order.
    pub fn finish(self) -> (r: Vec<ApplyOutcome>)
        ensures
            r@ == self@.outcomes,
    {
        self.outcomes
    }
}

/// A page is delivered as `receive` decides, entry by entry in order: the
/// outcome of entry `i` is what receiving it yields on the log that the
/// entries before it left, and each delivered entry leaves the log as that
/// decision says, so that a failure keeps the delivered prefix.
pub proof fn law_page_delivered_in_order(d: PageDelivery, i: int)
    requires
        d.wf(),
        0 <= i < d@.outcomes.len(),
    ensures
        spec_receive(d@.logs[i], d@.catalogs[i], d@.page[i]) matches Ok(dec) && d@.outcomes[i] == delivery_outcome(
            dec,
            d@.entries[i],
        ) && d@.logs[i + 1] == delivered_log(d@.logs[i], dec, d@.entries[i]),
        d@.page[i]@ == d@.entries[i],
{
}

impl ReplicationLog {
    /// Checks one transport page and starts delivering its entries in order.
    ///
    /// A page is not a transaction boundary: each entry remains independently
    /// atomic, and a failure may leave an already applied prefix in place.
    pub fn receive_batch(&self, batch: ReplicationEntryBatch) -> (r: Result<PageDelivery, ReplicationError>)
        ensures
            match accept_batch_error(self@, batch@) {
                Some(e) => r == Err::<PageDelivery, ReplicationError>(e),
                None => r matches Ok(d) && d.wf() && d@.entries == batch@.entries && d@.outcomes.len() == 0
                    && !d@.awaiting_commit && d@.logs == seq![self@],
            },
    {
        if let Err(e) = batch.validate() {
            return Err(e);
        }
        if batch.term != self.term {
            return Err(ReplicationError::TermMismatch { expected: self.term, actual: batch.term });
        }
        let ghost start: Seq<LogView> = seq![self@];
        let d = PageDelivery {
            entries: batch.entries,
            outcomes: Vec::new(),
            awaiting_commit: false,
            logs: Ghost(start),
            catalogs: Ghost(Seq::empty()),
        };
        assert(d@.entries == batch@.entries);
        Ok(d)
    }
}

} // verus!
