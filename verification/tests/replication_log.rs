use txbase::replication::log::{
    check_sidecar_state, ApplyOutcome, CatalogState, CommitPreconditions, Delivery, ReplicationLog,
};
use txbase::replication::progress::{ReplicationProgress, ReplicationProgressOutcome};
use txbase::replication::transport::ReplicationEntryBatch;
use txbase::replication::{
    InvalidReason, OperationIr, OperationMethod, ReplicationEntry, ReplicationError, REPLICATION_TRANSPORT_VERSION,
};

fn post(id: u64, name: &str) -> OperationIr {
    OperationIr {
        method: OperationMethod::Post,
        path: "/users/records".to_owned(),
        body: Some(format!("{{\"ID\":{id},\"NAME\":\"{name}\"}}")),
    }
}

fn catalog(transaction_id: u64) -> CatalogState {
    CatalogState { transaction_id, schema_tag: "schema-v1".to_owned() }
}

fn entry(term: u64, index: u64, transaction_id: u64) -> ReplicationEntry {
    ReplicationEntry::new(term, index, transaction_id, "schema-v1".to_owned(), vec![post(index, "Carol")]).unwrap()
}

#[test]
fn entries_reject_reads_and_invalid_positions() {
    let read = OperationIr { method: OperationMethod::Get, path: "/users/records".to_owned(), body: None };
    assert!(matches!(
        ReplicationEntry::new(1, 1, 1, "schema-v1".to_owned(), vec![read]),
        Err(ReplicationError::Invalid(InvalidReason::ReadOperation(OperationMethod::Get)))
    ));
    assert!(matches!(
        ReplicationEntry::new(1, 0, 1, "schema-v1".to_owned(), vec![post(1, "A")]),
        Err(ReplicationError::Invalid(InvalidReason::EntryPositionNotPositive))
    ));
    assert!(matches!(
        ReplicationEntry::new(1, 1, 1, "  ".to_owned(), vec![post(1, "A")]),
        Err(ReplicationError::Invalid(InvalidReason::EmptySchemaTag))
    ));
    assert!(matches!(
        ReplicationEntry::new(1, 1, 1, "schema-v1".to_owned(), Vec::new()),
        Err(ReplicationError::Invalid(InvalidReason::EmptyOperations))
    ));
}

#[test]
fn positions_start_where_the_log_was_placed() {
    let log = ReplicationLog::with_position(3, 4, 8).unwrap();
    assert_eq!(log.term(), 3);
    assert_eq!(log.last_index(), 4);
    assert_eq!(log.last_transaction_id(), 8);
    assert!(log.entries().is_empty());
    assert!(log.validate().is_ok());
    assert!(matches!(ReplicationLog::new(0), Err(ReplicationError::Invalid(InvalidReason::TermNotPositive))));
    assert!(matches!(
        ReplicationLog::from_parts(1, 3, 4, 8, vec![entry(3, 6, 10)]),
        Err(ReplicationError::IndexGap { expected: 5, actual: 6 })
    ));
}

#[test]
fn a_proposed_entry_is_received_once_and_then_as_a_duplicate() {
    let authority = ReplicationLog::new(1).unwrap();
    let proposed = authority.propose(&catalog(0), vec![post(3, "Carol")]).unwrap();
    assert_eq!((proposed.term, proposed.index, proposed.transaction_id), (1, 1, 1));

    let mut replica = ReplicationLog::new(1).unwrap();
    assert_eq!(replica.receive(&catalog(0), &proposed).unwrap(), Delivery::Append);
    let outcome = replica.commit_appended(proposed.duplicate(), 1).unwrap();
    assert_eq!(outcome, ApplyOutcome::Applied { index: 1, transaction_id: 1 });
    assert_eq!(
        replica.receive(&catalog(1), &proposed).unwrap(),
        Delivery::Duplicate { index: 1, transaction_id: 1 }
    );
    assert!(matches!(
        replica.receive(&catalog(0), &proposed),
        Err(ReplicationError::CatalogStateMismatch { expected: 1, actual: 0 })
    ));
    let other = ReplicationEntry::new(1, 1, 1, "schema-v1".to_owned(), vec![post(4, "Dave")]).unwrap();
    assert!(matches!(replica.receive(&catalog(1), &other), Err(ReplicationError::ConflictingDuplicate { index: 1 })));
}

#[test]
fn gaps_and_mismatches_are_rejected_before_commit() {
    let replica = ReplicationLog::new(1).unwrap();
    assert!(matches!(
        replica.receive(&catalog(0), &entry(1, 2, 2)),
        Err(ReplicationError::IndexGap { expected: 1, actual: 2 })
    ));
    assert!(matches!(
        replica.receive(&catalog(0), &entry(2, 1, 1)),
        Err(ReplicationError::TermMismatch { expected: 1, actual: 2 })
    ));
    assert!(matches!(
        replica.receive(&catalog(0), &entry(1, 1, 2)),
        Err(ReplicationError::TransactionGap { expected: 1, actual: 2 })
    ));
    let other_schema = CatalogState { transaction_id: 0, schema_tag: "schema-v2".to_owned() };
    assert!(matches!(replica.receive(&other_schema, &entry(1, 1, 1)), Err(ReplicationError::SchemaMismatch { .. })));
    let compacted = ReplicationLog::with_position(1, 5, 5).unwrap();
    assert!(matches!(
        compacted.receive(&catalog(5), &entry(1, 3, 3)),
        Err(ReplicationError::HistoryUnavailable { index: 3, base_index: 5 })
    ));
}

#[test]
fn a_commit_at_another_transaction_is_refused_and_leaves_the_log() {
    let mut log = ReplicationLog::new(1).unwrap();
    let e = entry(1, 1, 1);
    assert!(matches!(
        log.commit_appended(e, 7),
        Err(ReplicationError::Invalid(InvalidReason::CommittedTransactionMismatch { committed: 7, expected: 1 }))
    ));
    assert_eq!(log.last_index(), 0);
}

#[test]
fn proposals_carry_their_commit_preconditions() {
    let log = ReplicationLog::new(2).unwrap();
    let commit = log
        .propose_with_catalog_preconditions(&catalog(0), vec![post(1, "A")], Some("\"v1\"".to_owned()), None)
        .unwrap();
    assert_eq!(commit.entry.index, 1);
    assert!(matches!(
        commit.preconditions,
        Some(CommitPreconditions::Catalog { if_match: Some(ref tag), if_none_match: None }) if tag == "\"v1\""
    ));
    let commit = log
        .propose_with_table_preconditions(&catalog(0), "users".to_owned(), vec![post(1, "A")], None, Some("*".to_owned()))
        .unwrap();
    assert!(matches!(commit.preconditions, Some(CommitPreconditions::Table { ref name, .. }) if name == "users"));
    assert!(matches!(
        log.propose(&catalog(3), vec![post(1, "A")]),
        Err(ReplicationError::CatalogStateMismatch { expected: 0, actual: 3 })
    ));
}

#[test]
fn follower_reads_are_limited_to_the_applied_log() {
    let mut log = ReplicationLog::with_position(1, 2, 2).unwrap();
    let e = entry(1, 3, 3);
    log.commit_appended(e, 3).unwrap();
    assert_eq!(log.read_at(3, 2).unwrap(), 2);
    assert_eq!(log.read_at(3, 3).unwrap(), 3);
    assert!(matches!(log.read_at(3, 4), Err(ReplicationError::ReadUnavailable { requested: 4, applied: 3 })));
    assert!(matches!(
        log.read_at(3, 1),
        Err(ReplicationError::ReadHistoryUnavailable { requested: 1, base_transaction_id: 2 })
    ));
    assert!(matches!(log.read_at(2, 3), Err(ReplicationError::CatalogStateMismatch { expected: 3, actual: 2 })));
    assert_eq!(log.read_applied(3).unwrap(), 3);
    assert!(matches!(log.read_applied(0), Err(ReplicationError::ReadUnavailable { requested: 1, applied: 0 })));
}

#[test]
fn open_bootstraps_at_the_catalog_position_or_checks_the_existing_log() {
    let fresh = ReplicationLog::open(None, 7, 2).unwrap();
    assert_eq!((fresh.base_index(), fresh.last_transaction_id()), (7, 7));
    let existing = ReplicationLog::new(2).unwrap();
    assert!(matches!(ReplicationLog::open(Some(existing), 0, 3), Err(ReplicationError::TermMismatch { expected: 3, actual: 2 })));
    let existing = ReplicationLog::new(2).unwrap();
    assert!(matches!(
        ReplicationLog::open(Some(existing), 4, 2),
        Err(ReplicationError::CatalogStateMismatch { expected: 0, actual: 4 })
    ));
}

#[test]
fn sidecar_framing_round_trips_and_rejects_bad_headers() {
    let json = br#"{"format_version":1}"#;
    let framed = ReplicationLog::to_sidecar_bytes(json);
    assert_eq!(&framed[..5], b"TXRP\x01");
    assert_eq!(ReplicationLog::from_sidecar_bytes(&framed).unwrap(), json.to_vec());
    assert!(matches!(
        ReplicationLog::from_sidecar_bytes(b"XXXX\x01{}"),
        Err(ReplicationError::Invalid(InvalidReason::SidecarHeaderInvalid))
    ));
    assert!(matches!(
        ReplicationLog::from_sidecar_bytes(b"TXRP"),
        Err(ReplicationError::Invalid(InvalidReason::SidecarHeaderTruncated))
    ));
    assert!(matches!(
        ReplicationLog::from_sidecar_bytes(b"TXRP\x02{}"),
        Err(ReplicationError::Invalid(InvalidReason::UnsupportedSidecarVersion(2)))
    ));
    assert!(check_sidecar_state(None, &framed).is_ok());
    assert!(check_sidecar_state(Some(&framed), &framed).is_ok());
    assert!(matches!(check_sidecar_state(Some(b"TXRP\x01{}"), &framed), Err(ReplicationError::SidecarStateMismatch)));
}

#[test]
fn follower_acknowledgements_are_monotonic_and_gate_compaction() {
    let mut log = ReplicationLog::with_position(1, 0, 0).unwrap();
    for i in 1..=3 {
        log.commit_appended(entry(1, i, i), i).unwrap();
    }
    let at = |index: u64| ReplicationProgress::new("follower-1".to_owned(), 1, index, index, "schema-v1".to_owned()).unwrap();
    assert_eq!(log.safe_compaction_index(), None);
    assert_eq!(log.acknowledge_follower(&catalog(3), at(2)).unwrap(), ReplicationProgressOutcome::Accepted);
    assert_eq!(log.acknowledge_follower(&catalog(3), at(2)).unwrap(), ReplicationProgressOutcome::Duplicate);
    assert!(matches!(
        log.acknowledge_follower(&catalog(3), at(1)),
        Err(ReplicationError::ProgressRegression { previous_index: 2, requested_index: 1, .. })
    ));
    let other = ReplicationProgress::new("follower-2".to_owned(), 1, 1, 1, "schema-v1".to_owned()).unwrap();
    log.acknowledge_follower(&catalog(3), other).unwrap();
    assert_eq!(log.follower_count(), 2);
    assert_eq!(log.safe_compaction_index(), Some(1));
    assert!(matches!(
        log.acknowledge_follower(&catalog(3), at(4)),
        Err(ReplicationError::ProgressUnavailable { requested: 4, applied: 3 })
    ));
    let progress = log.progress_for(&catalog(3), "follower-9".to_owned()).unwrap();
    assert_eq!((progress.index, progress.transaction_id), (3, 3));
    assert!(ReplicationProgress::new("bad id".to_owned(), 1, 1, 1, "schema-v1".to_owned()).is_err());
}

#[test]
fn entry_pages_are_contiguous_bounded_and_delivered_in_order() {
    let mut authority = ReplicationLog::new(1).unwrap();
    for i in 1..=3 {
        authority.commit_appended(entry(1, i, i), i).unwrap();
    }
    let page = authority.entry_batch(1, 2, |_batch: &ReplicationEntryBatch| 10).unwrap();
    assert_eq!(page.after_index, 1);
    assert_eq!(page.entries.iter().map(|e| e.index).collect::<Vec<_>>(), vec![2, 3]);
    assert_eq!(page.next_after, None);
    let first = authority.entry_batch(0, 2, |_batch: &ReplicationEntryBatch| 10).unwrap();
    assert_eq!(first.next_after, Some(2));
    assert!(matches!(
        authority.entry_batch(0, 0, |_batch: &ReplicationEntryBatch| 10),
        Err(ReplicationError::Invalid(InvalidReason::BatchLimitOutOfRange))
    ));
    assert!(matches!(
        authority.entry_batch(4, 1, |_batch: &ReplicationEntryBatch| 10),
        Err(ReplicationError::EntriesUnavailable { .. })
    ));
    assert!(first.validate().is_ok());
    assert_eq!(first.transport_version, REPLICATION_TRANSPORT_VERSION);

    let mut replica = ReplicationLog::new(1).unwrap();
    let mut delivery = replica.receive_batch(first).unwrap();
    let mut count = 0;
    while let Some(e) = delivery.next_entry() {
        let e = e.duplicate();
        assert_eq!(replica.receive(&catalog(replica.last_transaction_id()), &e).unwrap(), Delivery::Append);
        let state = catalog(replica.last_transaction_id());
        let accepted = delivery.deliver_next(&replica, &state).unwrap().unwrap();
        assert_eq!(accepted.index, e.index);
        let tx = accepted.transaction_id;
        let outcome = delivery.applied(&mut replica, accepted, tx).unwrap();
        assert!(matches!(outcome, ApplyOutcome::Applied { index, .. } if index == e.index));
        count += 1;
    }
    assert_eq!(count, 2);
    assert_eq!(delivery.finish().len(), 2);
    assert_eq!(replica.last_index(), 2);
    let wrong_term = ReplicationLog::new(5).unwrap();
    let again = authority.entry_batch(0, 1, |_batch: &ReplicationEntryBatch| 10).unwrap();
    assert!(matches!(wrong_term.receive_batch(again), Err(ReplicationError::TermMismatch { expected: 5, actual: 1 })));
}

#[test]
fn a_log_restarted_at_a_snapshot_resumes_after_it() {
    let log = ReplicationLog::with_position(2, 5, 9).unwrap();
    assert!(matches!(
        log.receive(&catalog(9), &entry(2, 5, 9)),
        Err(ReplicationError::HistoryUnavailable { index: 5, base_index: 5 })
    ));
    assert!(matches!(
        log.receive(&catalog(9), &entry(2, 3, 7)),
        Err(ReplicationError::HistoryUnavailable { index: 3, base_index: 5 })
    ));
    assert_eq!(log.receive(&catalog(9), &entry(2, 6, 10)).unwrap(), Delivery::Append);
}

#[test]
fn replication_entry_batches_reject_empty_or_beyond_last_pages() {
    let mut log = ReplicationLog::new(8).unwrap();
    log.commit_appended(entry(8, 1, 1), 1).unwrap();
    log.commit_appended(entry(8, 2, 2), 2).unwrap();

    let mut empty = log.entry_batch(0, 2, |_batch: &ReplicationEntryBatch| 10).unwrap();
    empty.entries.clear();
    empty.next_after = None;
    assert!(matches!(
        empty.validate(),
        Err(ReplicationError::Invalid(reason))
            if txbase::replication::messages::invalid_message(&reason).contains("cannot be empty before the last index")
    ));

    let mut beyond_last = log.entry_batch(0, 2, |_batch: &ReplicationEntryBatch| 10).unwrap();
    beyond_last.last_index = 1;
    beyond_last.last_transaction_id = 1;
    assert!(matches!(
        beyond_last.validate(),
        Err(ReplicationError::Invalid(reason))
            if txbase::replication::messages::invalid_message(&reason).contains("beyond last_index")
    ));
}

#[test]
fn a_first_entry_over_the_byte_bound_is_an_error_not_an_empty_page() {
    let mut log = ReplicationLog::new(8).unwrap();
    log.commit_appended(entry(8, 1, 1), 1).unwrap();
    assert!(matches!(
        log.entry_batch(0, 2, |_batch: &ReplicationEntryBatch| usize::MAX),
        Err(ReplicationError::Invalid(InvalidReason::EntryExceedsBatchBytes))
    ));
    let at_end = log.entry_batch(1, 2, |_batch: &ReplicationEntryBatch| usize::MAX).unwrap();
    assert!(at_end.entries.is_empty());
    assert!(at_end.validate().is_ok());
}

#[test]
fn replication_errors_read_as_their_messages() {
    assert_eq!(
        ReplicationError::Invalid(InvalidReason::BatchEmptyBeforeLast).message(),
        "invalid replication state: replication entry batch cannot be empty before the last index"
    );
    assert!(ReplicationError::Invalid(InvalidReason::BatchBeyondLastIndex).message().contains("beyond last_index"));
    assert_eq!(
        ReplicationError::TermMismatch { expected: 8, actual: 12 }.message(),
        "replication term mismatch: expected 8, got 12"
    );
    assert_eq!(
        ReplicationError::Invalid(InvalidReason::ReadOperation(OperationMethod::Query)).message(),
        "invalid replication state: QUERY is a read operation"
    );
    assert_eq!(
        ReplicationError::SchemaMismatch { expected: "schema-v1".to_owned(), actual: "v2".to_owned() }.message(),
        "replication schema mismatch: expected schema-v1, got v2"
    );
    assert_eq!(
        ReplicationError::Invalid(InvalidReason::BatchLimitOutOfRange).message(),
        "invalid replication state: replication entry batch limit must be between 1 and 128"
    );
}

#[test]
fn page_delivery_acknowledges_duplicates_and_keeps_the_delivered_prefix_on_failure() {
    let mut authority = ReplicationLog::new(1).unwrap();
    for i in 1..=3 {
        authority.commit_appended(entry(1, i, i), i).unwrap();
    }
    let mut replica = ReplicationLog::new(1).unwrap();
    replica.commit_appended(entry(1, 1, 1), 1).unwrap();

    let page = authority.entry_batch(0, 3, |_batch: &ReplicationEntryBatch| 10).unwrap();
    let mut delivery = replica.receive_batch(page).unwrap();
    let mut outcomes = Vec::new();
    while delivery.next_entry().is_some() {
        let state = catalog(replica.last_transaction_id());
        if let Some(accepted) = delivery.deliver_next(&replica, &state).unwrap() {
            let tx = accepted.transaction_id;
            outcomes.push(delivery.applied(&mut replica, accepted, tx).unwrap());
        }
    }
    assert_eq!(outcomes.len(), 2);
    let all = delivery.finish();
    assert!(matches!(all[0], ApplyOutcome::Duplicate { index: 1, transaction_id: 1 }));
    assert!(matches!(all[1], ApplyOutcome::Applied { index: 2, transaction_id: 2 }));
    assert!(matches!(all[2], ApplyOutcome::Applied { index: 3, transaction_id: 3 }));
    assert_eq!(replica.last_index(), 3);

    let mut lagging = ReplicationLog::new(1).unwrap();
    let page = authority.entry_batch(0, 3, |_batch: &ReplicationEntryBatch| 10).unwrap();
    let mut delivery = lagging.receive_batch(page).unwrap();
    let accepted = delivery.deliver_next(&lagging, &catalog(0)).unwrap().unwrap();
    let tx = accepted.transaction_id;
    delivery.applied(&mut lagging, accepted, tx).unwrap();
    assert!(delivery.deliver_next(&lagging, &catalog(0)).is_err());
    assert_eq!(lagging.last_index(), 1);
    assert_eq!(delivery.finish().len(), 1);
}
