use hl_capture::capture_progress::{
    ArchivedBlockPlan, CaptureProgressError, InMemoryProgressStore, PublicationAcknowledgement, RecordDisposition,
};
use hl_capture::publication_plan::{PlannedPublication, PublicationAck};

fn publication(ordinal: u32) -> PlannedPublication {
    PlannedPublication {
        ordinal,
        message_id: format!("msg-{ordinal}"),
        subject: "hl.mainnet.blocks".to_string(),
        publication_sha256: [ordinal as u8 + 1; 32],
    }
}

fn plan(height: u64, publications: u32) -> ArchivedBlockPlan {
    ArchivedBlockPlan {
        chain_id: "mainnet".to_string(),
        block_height: height,
        canonical_block_hash: [height as u8; 32],
        archive_receipt_id: format!("receipt-{height}"),
        archive_manifest_sha256: [7; 32],
        publications: (0..publications).map(publication).collect(),
    }
}

fn ack(ordinal: u32, sequence: u64, at: i64) -> PublicationAcknowledgement {
    PublicationAcknowledgement {
        ack: PublicationAck {
            ordinal,
            message_id: format!("msg-{ordinal}"),
            subject: "hl.mainnet.blocks".to_string(),
            publication_sha256: [ordinal as u8 + 1; 32],
            stream: "HL_BLOCKS".to_string(),
        },
        stream_sequence: sequence,
        acknowledged_at: at,
    }
}

fn store() -> InMemoryProgressStore {
    let mut store = InMemoryProgressStore::new(4).expect("store");
    assert_eq!(store.initialize_chain("mainnet", 100), Ok(RecordDisposition::New));
    store
}

#[test]
fn zero_capacity_is_refused() {
    assert!(matches!(InMemoryProgressStore::new(0), Err(CaptureProgressError::InvalidInput)));
}

#[test]
fn initialization_is_idempotent_and_conflicts_on_another_height() {
    let mut store = store();
    assert_eq!(store.initialize_chain("mainnet", 100), Ok(RecordDisposition::IdenticalDuplicate));
    assert_eq!(store.initialize_chain("mainnet", 101), Err(CaptureProgressError::ConflictingInitialization));
    assert_eq!(store.next_expected_height("mainnet"), Ok(100));
    assert_eq!(store.next_expected_height("testnet"), Err(CaptureProgressError::ChainNotInitialized));
}

#[test]
fn archived_plans_read_back_and_conflicts_are_refused() {
    let mut store = store();
    assert_eq!(store.record_archived(&plan(100, 2)), Ok(RecordDisposition::New));
    assert_eq!(store.record_archived(&plan(100, 2)), Ok(RecordDisposition::IdenticalDuplicate));
    assert_eq!(store.record_archived(&plan(100, 3)), Err(CaptureProgressError::ConflictingBlock));
    assert_eq!(store.record_archived(&plan(99, 1)), Err(CaptureProgressError::BelowFirstHeight));
    let loaded = store.load_archived_block("mainnet", 100).expect("load").expect("present");
    assert_eq!(loaded.block_height, 100);
    assert_eq!(loaded.archive_receipt_id, "receipt-100");
    assert_eq!(loaded.publications.len(), 2);
    assert!(store.load_archived_block("mainnet", 101).expect("load").is_none());
    let mut other = plan(100, 1);
    other.chain_id = "testnet".to_string();
    assert_eq!(store.record_archived(&other), Err(CaptureProgressError::ChainNotInitialized));
}

#[test]
fn capacity_counts_blocks_across_chains() {
    let mut store = InMemoryProgressStore::new(1).expect("store");
    store.initialize_chain("mainnet", 100).expect("init");
    assert_eq!(store.record_archived(&plan(100, 1)), Ok(RecordDisposition::New));
    assert_eq!(store.record_archived(&plan(101, 1)), Err(CaptureProgressError::CapacityExceeded { limit: 1 }));
}

#[test]
fn cursor_advances_only_over_fully_acknowledged_blocks() {
    let mut store = store();
    store.record_archived(&plan(100, 2)).expect("archive");
    assert_eq!(store.advance_cursor("mainnet", 100).map(|c| c.cursor_version), Err(CaptureProgressError::PublicationIncomplete));
    assert_eq!(store.record_acknowledgement("mainnet", 100, &ack(0, 11, 5_000)), Ok(RecordDisposition::New));
    assert_eq!(store.advance_cursor("mainnet", 100).map(|c| c.cursor_version), Err(CaptureProgressError::PublicationIncomplete));
    assert_eq!(store.record_acknowledgement("mainnet", 100, &ack(1, 12, 4_000)), Ok(RecordDisposition::New));
    let cursor = store.advance_cursor("mainnet", 100).expect("advance");
    assert_eq!(cursor.chain_id, "mainnet");
    assert_eq!(cursor.committed_block_height, 100);
    assert_eq!(cursor.cursor_version, 1);
    assert_eq!(cursor.updated_at, 5_000);
    assert_eq!(cursor.canonical_block_hash, [100; 32]);
    assert_eq!(cursor.archive_receipt_id, "receipt-100");
    let again = store.advance_cursor("mainnet", 100).expect("same cursor");
    assert_eq!(again.cursor_version, 1);
    assert_eq!(store.next_expected_height("mainnet"), Ok(101));
    let loaded = store.load_cursor("mainnet").expect("load").expect("cursor");
    assert_eq!(loaded.committed_block_height, 100);
}

#[test]
fn cursor_never_skips_a_height() {
    let mut store = store();
    store.record_archived(&plan(101, 1)).expect("archive");
    store.record_acknowledgement("mainnet", 101, &ack(0, 1, 1)).expect("ack");
    assert!(matches!(
        store.advance_cursor("mainnet", 101),
        Err(CaptureProgressError::NonContiguousAdvance { expected: 100, actual: 101 })
    ));
    assert!(matches!(store.advance_cursor("mainnet", 100), Err(CaptureProgressError::UnknownBlock)));
    assert!(store.load_cursor("mainnet").expect("load").is_none());
}

#[test]
fn acknowledgements_must_match_their_publication() {
    let mut store = store();
    store.record_archived(&plan(100, 1)).expect("archive");
    let mut wrong = ack(0, 1, 1);
    wrong.ack.subject = "hl.mainnet.other".to_string();
    assert_eq!(store.record_acknowledgement("mainnet", 100, &wrong), Err(CaptureProgressError::AcknowledgementMismatch));
    assert_eq!(store.record_acknowledgement("mainnet", 100, &ack(3, 1, 1)), Err(CaptureProgressError::AcknowledgementMismatch));
    assert_eq!(store.record_acknowledgement("mainnet", 101, &ack(0, 1, 1)), Err(CaptureProgressError::UnknownBlock));
    assert_eq!(store.record_acknowledgement("mainnet", 100, &ack(0, 1, 1)), Ok(RecordDisposition::New));
    assert_eq!(store.record_acknowledgement("mainnet", 100, &ack(0, 1, 1)), Ok(RecordDisposition::IdenticalDuplicate));
    assert_eq!(store.record_acknowledgement("mainnet", 100, &ack(0, 2, 1)), Err(CaptureProgressError::ConflictingAcknowledgement));
    let acks = store.load_acknowledgements("mainnet", 100).expect("acks");
    assert_eq!(acks.len(), 1);
    assert_eq!(acks[0].stream_sequence, 1);
    assert!(matches!(store.load_acknowledgements("mainnet", 102), Err(CaptureProgressError::UnknownBlock)));
}

#[test]
fn pending_blocks_lie_above_the_cursor_in_height_order() {
    let mut store = store();
    for height in [102, 100, 101] {
        store.record_archived(&plan(height, 1)).expect("archive");
    }
    store.record_acknowledgement("mainnet", 100, &ack(0, 1, 1)).expect("ack");
    store.advance_cursor("mainnet", 100).expect("advance");
    let pending = store.pending_blocks("mainnet", 8).expect("pending");
    assert_eq!(pending.iter().map(|p| p.block_height).collect::<Vec<_>>(), vec![101, 102]);
    let first = store.pending_blocks("mainnet", 1).expect("pending");
    assert_eq!(first.len(), 1);
    assert_eq!(first[0].block_height, 101);
    assert!(matches!(store.pending_blocks("mainnet", 0), Err(CaptureProgressError::InvalidLimit)));
}

#[test]
fn a_block_without_publications_cannot_be_committed() {
    let mut store = store();
    store.record_archived(&plan(100, 0)).expect("archive");
    assert!(matches!(store.advance_cursor("mainnet", 100), Err(CaptureProgressError::PublicationIncomplete)));
}
