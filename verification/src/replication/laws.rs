//! Properties of the replication log that span its operations.
use vstd::prelude::*;
use super::{EntryView, OperationView, ReplicationEntry, ReplicationError, entry_valid};
use super::log::{
    CatalogState, Delivery, LogView, accepts_next, acknowledged_followers, follower_slot, followers_wf, spec_acknowledge, append_error, entries_contiguous, framed_sidecar,
    last_index, last_transaction_id, lemma_valid_positions_fit, log_valid, min_follower_index, proposed_entry, propose_error,
    push_entry, spec_receive, spec_unframe_sidecar, fresh_log,
};
use super::progress::{ProgressView, ReplicationProgress, ReplicationProgressOutcome};
use super::transport::{BatchView, batch_valid};

verus! {

/// Appending an accepted entry keeps the log valid and advances both of its
/// positions by exactly one.
pub proof fn law_append_keeps_log_valid(l: LogView, e: EntryView)
    requires
        log_valid(l),
        accepts_next(l, e),
    ensures
        log_valid(push_entry(l, e)),
        last_index(push_entry(l, e)) == last_index(l) + 1,
        last_transaction_id(push_entry(l, e)) == last_transaction_id(l) + 1,
{
    let n = push_entry(l, e);
    assert forall|i: int| 0 <= i < n.entries.len() implies {
        &&& entry_valid(#[trigger] n.entries[i])
        &&& n.entries[i].term == n.term
        &&& n.entries[i].index == n.base_index + i + 1
        &&& n.entries[i].transaction_id == n.base_transaction_id + i + 1
    } by {
        if i < l.entries.len() {
            assert(n.entries[i] == l.entries[i]);
        }
    }
}

/// Redelivering an entry after it was appended is acknowledged as a
/// duplicate, without another commit, once the catalog holds its transaction.
pub proof fn law_redelivery_is_a_duplicate(l: LogView, catalog: CatalogState, e: ReplicationEntry, again: ReplicationEntry)
    requires
        log_valid(l),
        accepts_next(l, e@),
        again@ == e@,
        catalog.transaction_id == e.transaction_id,
    ensures
        spec_receive(push_entry(l, e@), catalog, again) == Ok::<Delivery, ReplicationError>(
            Delivery::Duplicate { index: e.index, transaction_id: e.transaction_id }),
{
    let n = push_entry(l, e@);
    assert(n.entries[e.index - n.base_index - 1] == e@);
}

/// A different entry delivered at an index the log already holds is a
/// conflicting duplicate.
pub proof fn law_conflicting_redelivery_is_rejected(l: LogView, catalog: CatalogState, e: EntryView, other: ReplicationEntry)
    requires
        log_valid(l),
        accepts_next(l, e),
        entry_valid(other@),
        other.term == l.term,
        other.index == e.index,
        other@ != e,
    ensures
        spec_receive(push_entry(l, e), catalog, other) == Err::<Delivery, ReplicationError>(
            ReplicationError::ConflictingDuplicate { index: e.index }),
{
    let n = push_entry(l, e);
    assert(n.entries[other.index - n.base_index - 1] == e);
}

/// An entry beyond the next position is rejected as an index gap.
pub proof fn law_gap_is_rejected(l: LogView, catalog: CatalogState, e: ReplicationEntry)
    requires
        log_valid(l),
        entry_valid(e@),
        e.term == l.term,
        e.index > last_index(l) + 1,
    ensures
        spec_receive(l, catalog, e) == Err::<Delivery, ReplicationError>(
            ReplicationError::IndexGap { expected: (last_index(l) + 1) as u64, actual: e.index }),
{
}

/// The authority and a follower holding the same log, over catalogs at the
/// same position with the same schema, agree on the next entry: the
/// authority's proposal is appended by the follower, and both logs then hold
/// the same entries.
pub proof fn law_follower_accepts_the_authority_entry(
    authority: LogView,
    follower: LogView,
    authority_catalog: CatalogState,
    follower_catalog: CatalogState,
    operations: Seq<OperationView>,
    entry: ReplicationEntry,
)
    requires
        log_valid(authority),
        follower.term == authority.term,
        follower.base_index == authority.base_index,
        follower.base_transaction_id == authority.base_transaction_id,
        follower.entries == authority.entries,
        follower_catalog.transaction_id == authority_catalog.transaction_id,
        follower_catalog.schema_tag@ == authority_catalog.schema_tag@,
        propose_error(authority, authority_catalog, operations) is None,
        entry@ == proposed_entry(authority, authority_catalog, operations),
    ensures
        spec_receive(follower, follower_catalog, entry) == Ok::<Delivery, ReplicationError>(Delivery::Append),
        push_entry(follower, entry@).entries == push_entry(authority, entry@).entries,
{
    lemma_valid_positions_fit(authority);
    assert(append_error(follower, follower_catalog, entry) is None);
}

/// Unframing a framed sidecar gives back the serialized log.
pub proof fn law_sidecar_round_trip(json: Seq<u8>)
    ensures
        spec_unframe_sidecar(framed_sidecar(json)) == Ok::<Seq<u8>, ReplicationError>(json),
{
    let f = framed_sidecar(json);
    assert(f.subrange(0, 4) =~= super::log::sidecar_magic());
    assert(f.subrange(5, f.len() as int) =~= json);
}

/// The entries of a valid page, delivered in order to a follower that has
/// applied exactly up to the page's start, are each the follower's next entry.
pub proof fn law_page_entries_apply_in_order(f: LogView, b: BatchView, i: int)
    requires
        log_valid(f),
        batch_valid(b),
        f.term == b.term,
        last_index(f) == b.after_index,
        last_transaction_id(f) == b.base_transaction_id + (b.after_index - b.base_index),
        0 <= i < b.entries.len(),
    ensures
        accepts_next(LogView { entries: f.entries + b.entries.take(i), ..f }, b.entries[i]),
{
    assert((f.entries + b.entries.take(i)).len() == f.entries.len() + i);
}

/// No follower reports a lower applied index than the safe compaction index.
pub proof fn law_safe_compaction_is_a_lower_bound(fs: Seq<ProgressView>)
    ensures
        match min_follower_index(fs) {
            None => fs.len() == 0,
            Some(m) => {
                &&& forall|i: int| 0 <= i < fs.len() ==> m <= (#[trigger] fs[i]).index
                &&& exists|i: int| 0 <= i < fs.len() && (#[trigger] fs[i]).index == m
            },
        },
    decreases fs.len(),
{
    if fs.len() > 0 {
        let init = fs.drop_last();
        law_safe_compaction_is_a_lower_bound(init);
        match min_follower_index(init) {
            None => {
                assert(fs[fs.len() - 1].index == fs.last().index);
            },
            Some(m) => {
                assert forall|i: int| 0 <= i < fs.len() implies (if fs.last().index < m { fs.last().index } else { m }) <= (#[trigger] fs[i]).index by {
                    if i < init.len() {
                        assert(fs[i] == init[i]);
                    }
                }
                if fs.last().index < m {
                    assert(fs[fs.len() - 1].index == fs.last().index);
                } else {
                    let k = choose|k: int| 0 <= k < init.len() && (#[trigger] init[k]).index == m;
                    assert(fs[k] == init[k]);
                }
            },
        }
    }
}


/// An accepted acknowledgement never moves a follower's applied index backwards.
pub proof fn law_acknowledgement_is_monotonic(l: LogView, catalog: CatalogState, p: ReplicationProgress, k: int)
    requires
        spec_acknowledge(l, catalog, p) == Ok::<ReplicationProgressOutcome, ReplicationError>(ReplicationProgressOutcome::Accepted),
        follower_slot(l.followers, p.follower_id@) == Some(k),
    ensures
        p.index >= l.followers[k].index,
        acknowledged_followers(l.followers, p@)[k] == p@,
{
}

/// Acknowledging the same report again is a duplicate that changes nothing.
pub proof fn law_repeated_acknowledgement_is_a_duplicate(
    l: LogView,
    catalog: CatalogState,
    p: ReplicationProgress,
    again: ReplicationProgress,
)
    requires
        followers_wf(l.followers),
        spec_acknowledge(l, catalog, p) == Ok::<ReplicationProgressOutcome, ReplicationError>(ReplicationProgressOutcome::Accepted),
        again@ == p@,
    ensures
        spec_acknowledge(LogView { followers: acknowledged_followers(l.followers, p@), ..l }, catalog, again)
            == Ok::<ReplicationProgressOutcome, ReplicationError>(ReplicationProgressOutcome::Duplicate),
{
    let fs = l.followers;
    let nf = acknowledged_followers(fs, p@);
    match follower_slot(fs, p.follower_id@) {
        Some(k) => {
            assert(nf[k] == p@);
            let j = choose|j: int| 0 <= j < nf.len() && (#[trigger] nf[j]).follower_id == p.follower_id@;
            if j != k {
                assert(fs[j].follower_id == nf[j].follower_id);
                assert(fs[k].follower_id == p.follower_id@);
                if j < k {
                    assert(fs[j].follower_id != fs[k].follower_id);
                } else {
                    assert(fs[k].follower_id != fs[j].follower_id);
                }
            }
            assert(follower_slot(nf, p.follower_id@) == Some(k));
        },
        None => {
            let n = fs.len() as int;
            assert(nf[n] == p@);
            let j = choose|j: int| 0 <= j < nf.len() && (#[trigger] nf[j]).follower_id == p.follower_id@;
            if j != n {
                assert(nf[j] == fs[j]);
            }
            assert(follower_slot(nf, p.follower_id@) == Some(n));
        },
    }
}

/// A log restarted at an installed snapshot's position refuses the history
/// that the snapshot replaced and takes the entry right after it next.
pub proof fn law_installed_snapshot_resumes_after_its_position(
    term: u64,
    last_index: u64,
    last_transaction_id: u64,
    catalog: CatalogState,
    e: ReplicationEntry,
)
    requires
        entry_valid(e@),
        e.term == term,
    ensures
        e.index <= last_index ==> spec_receive(fresh_log(term, last_index, last_transaction_id), catalog, e) == Err::<
            Delivery,
            ReplicationError,
        >(ReplicationError::HistoryUnavailable { index: e.index, base_index: last_index }),
        accepts_next(fresh_log(term, last_index, last_transaction_id), e@) <==> (e.index == last_index + 1
            && e.transaction_id == last_transaction_id + 1),
{
}

} // verus!
