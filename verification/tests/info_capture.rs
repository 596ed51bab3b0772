use hl_capture::config::{ObservationClass, SourceTrust};
use hl_capture::egress::EgressError;
use hl_capture::info_capture::{
    reject_committed, replay_request_hash, response_verdict, settle_archived, MemoryInfoArchive, ParsedInfo,
    ReplayRun,
};
use hl_capture::info_rest::{InfoCaptureError, InfoCaptureOutcome, InfoJobCheckpoint, MemoryInfoPublisher};

#[test]
fn archive_reads_back_the_first_write() {
    let mut archive = MemoryInfoArchive::new();
    assert!(archive.is_empty());
    let reference = archive.put(b"{\"coin\":\"BTC\"}").expect("put");
    assert!(reference.starts_with("info-"));
    let again = archive.put(b"{\"coin\":\"BTC\"}").expect("put again");
    assert_eq!(reference, again);
    assert_eq!(archive.len(), 1);
    assert_eq!(archive.get(&reference).map(|b| b.as_slice()), Some(&b"{\"coin\":\"BTC\"}"[..]));
    assert!(archive.get("info-missing").is_none());
    assert!(matches!(archive.put(b""), Err(InfoCaptureError::EmptyBody)));
    assert!(!archive.was_published(&reference));
    archive.mark_published(&reference);
    assert!(archive.was_published(&reference));
}

#[test]
fn responses_are_judged_by_status_and_size() {
    assert_eq!(response_verdict(200, 10, 10), Ok(()));
    assert_eq!(response_verdict(200, 11, 10), Err(EgressError::BodyTooLarge));
    assert_eq!(response_verdict(429, 0, 10), Err(EgressError::RateLimited));
    assert_eq!(response_verdict(503, 0, 10), Err(EgressError::HttpStatus(503)));
}

#[test]
fn info_captures_never_reach_the_committed_lane() {
    assert!(reject_committed(SourceTrust::ReconciledSnapshot, ObservationClass::Snapshot, false).is_ok());
    assert!(matches!(
        reject_committed(SourceTrust::ReconciledSnapshot, ObservationClass::Snapshot, true),
        Err(InfoCaptureError::CommittedLane)
    ));
    assert!(matches!(
        reject_committed(SourceTrust::LocallyVerifiedCommitted, ObservationClass::CommittedBlock, false),
        Err(InfoCaptureError::CommittedLane)
    ));
}

#[test]
fn replay_uses_the_recorded_request_hash() {
    let stored = "ab".repeat(32);
    assert_eq!(replay_request_hash(Some(&stored), b"body"), [0xab; 32]);
    assert_eq!(replay_request_hash(Some("zz"), b"body"), *blake3::hash(b"body").as_bytes());
    assert_eq!(replay_request_hash(Some("abcd"), b"body"), *blake3::hash(b"body").as_bytes());
    assert_eq!(replay_request_hash(None, b"body"), *blake3::hash(b"body").as_bytes());
}

#[test]
fn settled_bodies_publish_once() {
    let mut archive = MemoryInfoArchive::new();
    let mut publisher = MemoryInfoPublisher::new();
    let mut checkpoint = InfoJobCheckpoint::new("job", "l2Book", 0, 0);
    let reference = archive.put(b"body").expect("put");
    checkpoint.queue_pending(&reference);
    checkpoint.queue_pending(&reference);
    assert_eq!(checkpoint.pending_publish_refs().len(), 1);
    let hash = [7u8; 32];
    let mismatch = settle_archived(
        &mut archive,
        &mut publisher,
        &mut checkpoint,
        &reference,
        ParsedInfo::Parsed { request_hash: [8; 32] },
        &hash,
    );
    assert!(matches!(mismatch, Err(InfoCaptureError::Checkpoint)));
    assert_eq!(checkpoint.pending_publish_refs().len(), 1);
    let published = settle_archived(
        &mut archive,
        &mut publisher,
        &mut checkpoint,
        &reference,
        ParsedInfo::Parsed { request_hash: hash },
        &hash,
    );
    assert_eq!(published, Ok(InfoCaptureOutcome::Published));
    assert_eq!(publisher.publications().len(), 1);
    assert!(checkpoint.pending_publish_refs().is_empty());
    checkpoint.queue_pending(&reference);
    let duplicate = settle_archived(
        &mut archive,
        &mut publisher,
        &mut checkpoint,
        &reference,
        ParsedInfo::Parsed { request_hash: hash },
        &hash,
    );
    assert_eq!(duplicate, Ok(InfoCaptureOutcome::Duplicate));
    assert_eq!(publisher.publications().len(), 1);
    assert!(checkpoint.pending_publish_refs().is_empty());
}

#[test]
fn quarantined_bodies_record_their_reason() {
    let mut archive = MemoryInfoArchive::new();
    let mut publisher = MemoryInfoPublisher::new();
    let mut checkpoint = InfoJobCheckpoint::new("job", "l2Book", 0, 0);
    let reference = archive.put(b"bad").expect("put");
    checkpoint.queue_pending(&reference);
    let outcome = settle_archived(
        &mut archive,
        &mut publisher,
        &mut checkpoint,
        &reference,
        ParsedInfo::Quarantine { reason_code: "info.schema".to_string() },
        &[0; 32],
    );
    assert_eq!(outcome, Ok(InfoCaptureOutcome::Quarantined));
    assert_eq!(checkpoint.quarantine_reason(), Some("info.schema"));
    assert!(publisher.publications().is_empty());
}

#[test]
fn a_replay_visits_the_queued_bodies_in_order() {
    let mut checkpoint = InfoJobCheckpoint::new("job", "l2Book", 0, 0);
    checkpoint.queue_pending("info-a");
    checkpoint.queue_pending("info-b");
    let mut run = ReplayRun::start(&checkpoint);
    assert_eq!(run.next_ref(&checkpoint).as_deref(), Some("info-a"));
    checkpoint.drop_pending("info-b");
    run.record(InfoCaptureOutcome::Duplicate);
    assert_eq!(run.next_ref(&checkpoint), None);
    assert_eq!(run.finish(), InfoCaptureOutcome::Duplicate);
    let empty = ReplayRun::start(&InfoJobCheckpoint::new("job", "l2Book", 0, 0));
    assert_eq!(empty.finish(), InfoCaptureOutcome::Duplicate);
}
