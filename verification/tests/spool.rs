use hl_capture::aux_checkpoint::{
    checkpoint_file_acceptable, checkpoint_for, checkpoint_load_step, decode_hash, encoded_checkpoint_fits,
    removal_allowed, segment_file, AuxCheckpointError, CheckpointLoadStep, ClosedSegment, AUX_CHECKPOINT_SCHEMA,
};
use hl_capture::backlog::{
    validate_config, validate_reader, BacklogAction, BacklogError, CursorPolicy, EndVerdict, RecordVerdict,
    SegmentInfo, SpoolBacklog,
};

#[test]
fn backlog_settings_are_checked() {
    assert_eq!(validate_config("hyperliquid-node-v1", 1024), Ok(()));
    assert_eq!(validate_config("", 1024), Err(BacklogError::InvalidConfig));
    assert_eq!(validate_config(" padded", 1024), Err(BacklogError::InvalidConfig));
    assert_eq!(validate_config("v1", 0), Err(BacklogError::InvalidConfig));
    assert_eq!(BacklogError::InvalidConfig.reason_code(), "capture_backlog.invalid_config");
    assert_eq!(
        BacklogError::Spool { reason_code: "spool.corrupt".to_string() }.reason_code(),
        "spool.corrupt"
    );
}

#[test]
fn segment_headers_must_name_this_source() {
    let ok = validate_reader("src", "v1", CursorPolicy::ContiguousNativeOffset, "src", "v1", CursorPolicy::ContiguousNativeOffset);
    assert_eq!(ok, Ok(()));
    assert_eq!(
        validate_reader("other", "v1", CursorPolicy::ContiguousNativeOffset, "src", "v1", CursorPolicy::ContiguousNativeOffset),
        Err(BacklogError::SourceMismatch)
    );
    assert_eq!(
        validate_reader("src", "v1", CursorPolicy::MonotonicByteOffset, "src", "v1", CursorPolicy::ContiguousNativeOffset),
        Err(BacklogError::CursorPolicyMismatch)
    );
}

#[test]
fn backlog_replays_from_the_expected_offset_and_never_twice() {
    let segments = vec![SegmentInfo { closed_extent: Some(4) }, SegmentInfo { closed_extent: None }];
    let mut backlog = SpoolBacklog::open("v1", 1024, segments, 6).expect("open");
    assert_eq!(backlog.poll(), Ok(BacklogAction::OpenSegment { index: 1 }));
    assert_eq!(backlog.poll(), Ok(BacklogAction::ReadRecord));
    assert_eq!(backlog.on_record(5), Ok(RecordVerdict::Skip));
    assert_eq!(backlog.on_record(7), Err(BacklogError::Gap { expected: 6, observed: 7 }));
    assert_eq!(backlog.on_record(6), Ok(RecordVerdict::Reconstruct));
    backlog.on_reconstructed(6, true).expect("observation");
    assert_eq!(backlog.poll(), Err(BacklogError::PendingAcknowledgement));
    assert_eq!(backlog.acknowledge(5), Err(BacklogError::AcknowledgementMismatch));
    backlog.acknowledge(6).expect("ack");
    assert_eq!(backlog.next_expected_offset(), 7);
    assert_eq!(backlog.on_record(6), Ok(RecordVerdict::Skip));
    assert_eq!(backlog.on_end_of_file(), Ok(EndVerdict::CaughtUp));
}

#[test]
fn a_failed_reconstruction_is_retried() {
    let mut backlog = SpoolBacklog::open("v1", 1024, vec![SegmentInfo { closed_extent: Some(9) }], 0).expect("open");
    assert_eq!(backlog.poll(), Ok(BacklogAction::OpenSegment { index: 0 }));
    assert_eq!(backlog.on_reconstructed(0, false), Err(BacklogError::Observation));
    assert_eq!(backlog.poll(), Ok(BacklogAction::RetryRecord));
    assert_eq!(backlog.on_incomplete_tail(3), Err(BacklogError::IncompleteTail { record_offset: 3 }));
    assert_eq!(backlog.on_end_of_file(), Ok(EndVerdict::FinishSegment));
    assert_eq!(backlog.on_end_of_file(), Err(BacklogError::InvalidState));
}

#[test]
fn caught_up_when_no_segment_reaches_the_offset() {
    let mut backlog = SpoolBacklog::open("v1", 1024, vec![SegmentInfo { closed_extent: Some(2) }], 10).expect("open");
    assert_eq!(backlog.poll(), Ok(BacklogAction::CaughtUp));
}

fn segment(first: Option<u64>, last: Option<u64>, count: u64) -> ClosedSegment {
    ClosedSegment {
        source_id: "node-fills".to_string(),
        source_version: "hyperliquid-node-v1".to_string(),
        segment_sequence: 3,
        segment_file: segment_file(3),
        segment_blake3: [1; 32],
        manifest_file: format!("{}.manifest", segment_file(3)),
        manifest_blake3: [2; 32],
        first_local_sequence: first,
        last_local_sequence: last,
        cursor_epoch: "epoch".to_string(),
        cursor_offset: 99,
        record_count: count,
    }
}

#[test]
fn segment_files_are_zero_padded() {
    assert_eq!(segment_file(3), "segment-0000000003.hlsp");
    assert_eq!(segment_file(12_345_678_901), "segment-12345678901.hlsp");
}

#[test]
fn checkpoints_are_built_for_closed_segments_with_records() {
    let identity = "00".repeat(32);
    let ids = vec!["manifest-1".to_string()];
    let checkpoint = checkpoint_for(&segment(Some(10), Some(12), 3), &identity, &ids, 5, None).expect("checkpoint");
    assert_eq!(checkpoint.schema_version, AUX_CHECKPOINT_SCHEMA);
    assert_eq!(checkpoint.local_sequence, 12);
    assert_eq!(checkpoint.segment_blake3, "01".repeat(32));
    assert_eq!(checkpoint.validate("node-fills", "hyperliquid-node-v1", &identity), Ok(()));
    assert_eq!(checkpoint.validate("node-fills", "other", &identity), Err(AuxCheckpointError::InvalidManifest));
    assert_eq!(checkpoint.spool_segment_blake3(), Ok([1; 32]));
    assert_eq!(checkpoint.spool_manifest_blake3(), Ok([2; 32]));
    assert_eq!(
        checkpoint_for(&segment(None, None, 0), &identity, &ids, 5, None).err(),
        Some(AuxCheckpointError::InvalidManifest)
    );
    assert_eq!(
        checkpoint_for(&segment(Some(10), Some(12), 2), &identity, &ids, 5, None).err(),
        Some(AuxCheckpointError::InvalidManifest)
    );
    assert_eq!(checkpoint_for(&segment(Some(10), Some(12), 3), &identity, &vec![], 5, None).err(), Some(AuxCheckpointError::InvalidManifest));
}

#[test]
fn uncommitted_checkpoint_temp_is_discarded_without_advancing_the_baseline() {
    assert_eq!(checkpoint_load_step(true, false), CheckpointLoadStep::RemoveTempThenNone);
    assert_eq!(checkpoint_load_step(true, true), CheckpointLoadStep::RemoveTempThenRead);
    assert_eq!(checkpoint_load_step(false, true), CheckpointLoadStep::Read);
}

#[test]
fn checkpoint_files_and_removals_fail_closed() {
    assert_eq!(checkpoint_file_acceptable(true, false, 16_384), Ok(()));
    assert_eq!(checkpoint_file_acceptable(true, true, 10), Err(AuxCheckpointError::InvalidManifest));
    assert_eq!(checkpoint_file_acceptable(true, false, 16_385), Err(AuxCheckpointError::InvalidManifest));
    assert_eq!(encoded_checkpoint_fits(16_383), Ok(()));
    assert_eq!(encoded_checkpoint_fits(16_384), Err(AuxCheckpointError::InvalidManifest));
    let digest = *blake3::hash(b"segment").as_bytes();
    assert_eq!(removal_allowed(true, false, b"segment", &digest), Ok(()));
    assert_eq!(removal_allowed(true, false, b"changed", &digest), Err(AuxCheckpointError::ManifestContentMismatch));
    assert_eq!(removal_allowed(false, false, b"segment", &digest), Err(AuxCheckpointError::UnsafeSpoolEntry));
    assert_eq!(decode_hash(&"ab".repeat(32)), Ok([0xab; 32]));
    assert_eq!(decode_hash("ab"), Err(AuxCheckpointError::InvalidManifest));
}
