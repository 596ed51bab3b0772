use hl_capture::publication::{
    admit_committed_publication, encode_block_marker, ArchiveReceipt, BlockBinding, CommittedBlock,
    CommittedPublicationBatch, ConfirmationClass, MarkerEvent, MarkerSource, PublicationAck,
    PublicationDisposition, PublicationError, PublicationLedger, PublicationMessage, BLOCK_MARKER_SCHEMA_V1,
};
use hl_capture::subjects::{subject_for_event_kind, EventKind, Subject};
use sha2::Digest;

fn binding(hash: u8) -> BlockBinding {
    BlockBinding {
        chain_id: "mainnet".to_string(),
        block_height: 7,
        canonical_block_hash: [hash; 32],
        archive_receipt_id: "receipt".to_string(),
        archive_manifest_sha256: [9; 32],
    }
}

fn message(id: &str, hash: u8, payload: &[u8]) -> PublicationMessage {
    PublicationMessage::try_new(Subject::BlockCommitted, id, "v1", binding(hash), payload.to_vec()).expect("message")
}

#[test]
fn messages_carry_the_digest_of_their_payload() {
    let m = message("blk_01", 1, b"payload");
    assert_eq!(m.publication_sha256().to_vec(), sha2::Sha256::digest(b"payload").to_vec());
    assert_eq!(m.stream(), "HL_CANONICAL");
    assert_eq!(m.subject(), Subject::BlockCommitted);
    let refuse = |id: &str, payload: Vec<u8>| {
        PublicationMessage::try_new(Subject::BlockCommitted, id, "v1", binding(1), payload).err()
    };
    assert_eq!(refuse("Blk_01", b"x".to_vec()), Some(PublicationError::NonCanonicalMessageId));
    assert_eq!(refuse("", b"x".to_vec()), Some(PublicationError::InvalidIdentity));
    assert_eq!(refuse("blk", vec![]), Some(PublicationError::PayloadSize { actual: 0, limit: 7_500_000 }));
}

#[test]
fn acknowledgements_come_from_the_message_stream() {
    let m = message("blk_01", 1, b"payload");
    assert_eq!(PublicationAck::try_new(&m, "HL_STATE", 1, false).err(), Some(PublicationError::UnexpectedAckStream));
    assert_eq!(PublicationAck::try_new(&m, "HL_CANONICAL", 0, false).err(), Some(PublicationError::InvalidAck));
    let ack = PublicationAck::try_new(&m, "HL_CANONICAL", 5, true).expect("ack");
    assert_eq!(ack.stream_sequence(), 5);
    assert!(ack.duplicate());
    assert_eq!(ack.message_id(), "blk_01");
    assert_eq!(ack.publication_sha256(), m.publication_sha256());
}

#[test]
fn the_ledger_accepts_repeats_and_refuses_divergent_reuse() {
    assert_eq!(PublicationLedger::new(0).err(), Some(PublicationError::InvalidLedgerCapacity));
    let mut ledger = PublicationLedger::new(1).expect("ledger");
    assert_eq!(ledger.record(&message("blk_01", 1, b"a")), Ok(PublicationDisposition::New));
    assert_eq!(ledger.record(&message("blk_01", 1, b"a")), Ok(PublicationDisposition::IdenticalDuplicate));
    assert_eq!(
        ledger.record(&message("blk_01", 2, b"a")),
        Err(PublicationError::DivergentMessageId { message_id: "blk_01".to_string() })
    );
    assert_eq!(
        ledger.record(&message("blk_02", 1, b"b")),
        Err(PublicationError::LedgerCapacityExceeded { limit: 1 })
    );
    assert_eq!(ledger.len(), 1);
}

#[test]
fn only_committed_blocks_use_committed_subjects() {
    assert_eq!(admit_committed_publication(ConfirmationClass::CommittedPrimary), Ok(()));
    assert_eq!(admit_committed_publication(ConfirmationClass::ProvisionalSource), Err(PublicationError::NotCommitted));
}

#[test]
fn subjects_have_stable_names_and_streams() {
    assert_eq!(Subject::all().len(), 21);
    assert_eq!(Subject::BlockCommitted.as_str(), "hl.v1.block.committed");
    assert_eq!(Subject::StateBookDelta.stream(), "HL_STATE");
    assert_eq!(subject_for_event_kind(EventKind::TradeMatched), Subject::EventFill);
    assert_eq!(subject_for_event_kind(EventKind::OracleUpdated), Subject::EventOracle);
}

fn committed_block(confirmation: ConfirmationClass) -> CommittedBlock {
    CommittedBlock {
        chain_id: "mainnet".to_string(),
        block_height: 7,
        block_time_micros: 1_000,
        confirmation,
        canonical_block_hash: [0xaa; 32],
        sources: vec![MarkerSource { source_id: "primary".to_string(), source_hash: [1; 32] }],
        events: vec![MarkerEvent {
            event_id: "evt_1".to_string(),
            kind: EventKind::TradeMatched,
            wire_name: "trade_matched".to_string(),
            schema_version: "1.0.0".to_string(),
            payload_hash: [2; 32],
            encoded: b"event".to_vec(),
        }],
    }
}

fn receipt(height: u64) -> ArchiveReceipt {
    ArchiveReceipt {
        block_height: height,
        canonical_block_hash: [0xaa; 32],
        receipt_id: "r".to_string(),
        manifest_id: "m".to_string(),
        manifest_sha256: [3; 32],
        schema_fingerprint: vec![4, 5],
    }
}

#[test]
fn block_markers_follow_the_frozen_layout() {
    let block = committed_block(ConfirmationClass::CommittedPrimary);
    let marker = encode_block_marker(&block, &receipt(7)).expect("marker");
    let mut expected = Vec::new();
    let counted = |out: &mut Vec<u8>, b: &[u8]| {
        out.extend_from_slice(&(b.len() as u64).to_be_bytes());
        out.extend_from_slice(b);
    };
    counted(&mut expected, BLOCK_MARKER_SCHEMA_V1.as_bytes());
    counted(&mut expected, b"mainnet");
    expected.extend_from_slice(&7u64.to_be_bytes());
    expected.extend_from_slice(&1_000u64.to_be_bytes());
    expected.push(2);
    expected.extend_from_slice(&[0xaa; 32]);
    counted(&mut expected, b"r");
    counted(&mut expected, b"m");
    expected.extend_from_slice(&[3; 32]);
    expected.extend_from_slice(&[4, 5]);
    expected.extend_from_slice(&1u64.to_be_bytes());
    counted(&mut expected, b"primary");
    expected.extend_from_slice(&[1; 32]);
    expected.extend_from_slice(&1u64.to_be_bytes());
    counted(&mut expected, b"evt_1");
    counted(&mut expected, b"trade_matched");
    expected.extend_from_slice(&[2; 32]);
    expected.extend_from_slice(&sha2::Sha256::digest(b"event"));
    assert_eq!(marker, expected);
}

#[test]
fn committed_batches_bind_block_and_receipt() {
    let block = committed_block(ConfirmationClass::CommittedIndependent);
    assert_eq!(CommittedPublicationBatch::try_new(&block, &receipt(8)).err(), Some(PublicationError::ArchiveReceiptMismatch));
    let provisional = committed_block(ConfirmationClass::ProvisionalSource);
    assert_eq!(CommittedPublicationBatch::try_new(&provisional, &receipt(7)).err(), Some(PublicationError::NotCommitted));
    let batch = CommittedPublicationBatch::try_new(&block, &receipt(7)).expect("batch");
    assert_eq!(batch.block().message_id(), format!("blk_{}", "aa".repeat(32)));
    assert_eq!(batch.block().subject(), Subject::BlockCommitted);
    assert_eq!(batch.events().len(), 1);
    assert_eq!(batch.events()[0].subject(), Subject::EventFill);
    assert_eq!(batch.events()[0].message_id(), "evt_1");
    assert_eq!(batch.events()[0].payload(), b"event");
}
