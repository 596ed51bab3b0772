use hl_capture::backlog::CursorPolicy;
use hl_capture::config::ObservationClass;
use hl_capture::maintenance::{packable_ranges, UncompactedLeaf};
use hl_capture::node_files::SourceCursor;
use hl_capture::raw_segment::{
    check_batch_receipt, checkpoint_matches, start_verification, CheckpointEntry, RawBatchIdentity,
    RawSegmentArchiveVerification, RawSpoolArchiveEvidence, SegmentArchiver, SequenceRange, VerifiedManifest,
};
use hl_capture::service_errors::{RawSegmentArchiveConfig, RawSegmentArchiveError};

fn cursor(epoch: &str, offset: u64) -> SourceCursor {
    SourceCursor { epoch: epoch.to_string(), offset }
}

fn identity(hour_micros: i64) -> RawBatchIdentity {
    RawBatchIdentity::from_parts(
        "node-a",
        "v1",
        ObservationClass::CommittedBlock,
        "epoch-1",
        "schema-1",
        hour_micros,
    )
}

fn evidence(first: u64, last: u64, count: u64) -> RawSpoolArchiveEvidence {
    RawSpoolArchiveEvidence::try_new([1; 32], [2; 32], first, cursor("epoch-1", 900), last, count).unwrap()
}

fn verified(start: u64, end: u64, offset: u64) -> VerifiedManifest {
    VerifiedManifest {
        manifest_sha256: [7; 32],
        chain_id: "mainnet".to_string(),
        source_id: "node-a".to_string(),
        spool_manifest_blake3: [1; 32],
        spool_segment_blake3: [2; 32],
        cursor_policy: CursorPolicy::MonotonicByteOffset,
        local_sequence_range: Some(SequenceRange { start, end }),
        cursor: cursor("epoch-1", offset),
    }
}

fn run(v: &RawSegmentArchiveVerification, reports: Vec<VerifiedManifest>) -> Result<(), RawSegmentArchiveError> {
    let mut state = start_verification(v)?;
    for report in &reports {
        state = state.check(v, report)?;
    }
    state.finish(v)
}

#[test]
fn received_hour_rounds_toward_zero() {
    assert_eq!(identity(0).received_hour, 0);
    assert_eq!(identity(3_600_000_000 * 2 + 5).received_hour, 2);
    assert_eq!(identity(-1).received_hour, 0);
    assert_eq!(identity(-3_600_000_001).received_hour, -1);
    assert_eq!(identity(i64::MIN).received_hour, i64::MIN / 3_600_000_000);
}

#[test]
fn spool_evidence_must_count_from_first_to_last() {
    assert!(RawSpoolArchiveEvidence::try_new([0; 32], [0; 32], 10, cursor("e", 1), 14, 5).is_ok());
    assert_eq!(
        RawSpoolArchiveEvidence::try_new([0; 32], [0; 32], 10, cursor("e", 1), 14, 4).unwrap_err(),
        RawSegmentArchiveError::VerificationMismatch
    );
    assert_eq!(
        RawSpoolArchiveEvidence::try_new([0; 32], [0; 32], 10, cursor("e", 1), 9, 0).unwrap_err(),
        RawSegmentArchiveError::VerificationMismatch
    );
    assert!(RawSpoolArchiveEvidence::try_new([0; 32], [0; 32], u64::MAX, cursor("e", 1), u64::MAX, 1).is_ok());
    assert!(RawSpoolArchiveEvidence::try_new([0; 32], [0; 32], u64::MAX, cursor("e", 1), u64::MAX, 2).is_err());
}

#[test]
fn verification_accepts_manifests_that_account_for_the_segment() {
    let v = RawSegmentArchiveVerification::new(
        "mainnet".to_string(),
        "node-a".to_string(),
        evidence(10, 19, 10),
        vec!["m1".to_string(), "m2".to_string()],
    );
    assert_eq!(run(&v, vec![verified(10, 13, 400), verified(14, 19, 900)]), Ok(()));
}

#[test]
fn verification_refuses_gaps_counts_and_foreign_manifests() {
    let make = || {
        RawSegmentArchiveVerification::new(
            "mainnet".to_string(),
            "node-a".to_string(),
            evidence(10, 19, 10),
            vec!["m1".to_string(), "m2".to_string()],
        )
    };
    let mismatch = Err(RawSegmentArchiveError::VerificationMismatch);
    // A gap between the two manifests.
    assert_eq!(run(&make(), vec![verified(10, 13, 400), verified(15, 19, 900)]), mismatch);
    // The first manifest does not start at the segment's first record.
    assert_eq!(run(&make(), vec![verified(11, 13, 400), verified(14, 19, 900)]), mismatch);
    // The last cursor differs.
    assert_eq!(run(&make(), vec![verified(10, 13, 400), verified(14, 19, 899)]), mismatch);
    // Another chain.
    let mut foreign = verified(14, 19, 900);
    foreign.chain_id = "testnet".to_string();
    assert_eq!(run(&make(), vec![verified(10, 13, 400), foreign]), mismatch);
    // Native offsets are not verifiable this way.
    let mut native = verified(14, 19, 900);
    native.cursor_policy = CursorPolicy::ContiguousNativeOffset;
    assert_eq!(run(&make(), vec![verified(10, 13, 400), native]), mismatch);
    // No manifests at all.
    let empty =
        RawSegmentArchiveVerification::new("mainnet".to_string(), "node-a".to_string(), evidence(10, 19, 10), vec![]);
    assert!(start_verification(&empty).is_err());
}

#[test]
fn verification_checks_checkpoint_entries() {
    let entries = vec![
        CheckpointEntry { manifest_id: "m1".to_string(), manifest_sha256: [7; 32], range: SequenceRange { start: 10, end: 13 } },
        CheckpointEntry { manifest_id: "m2".to_string(), manifest_sha256: [7; 32], range: SequenceRange { start: 14, end: 19 } },
    ];
    let v = RawSegmentArchiveVerification::new(
        "mainnet".to_string(),
        "node-a".to_string(),
        evidence(10, 19, 10),
        vec!["m1".to_string(), "m2".to_string()],
    )
    .with_checkpoint_entries(entries);
    assert_eq!(v.manifest_request(1), ("m2", Some(SequenceRange { start: 14, end: 19 })));
    assert_eq!(run(&v, vec![verified(10, 13, 400), verified(14, 19, 900)]), Ok(()));
    let mut other_digest = verified(14, 19, 900);
    other_digest.manifest_sha256 = [8; 32];
    assert_eq!(
        run(&v, vec![verified(10, 13, 400), other_digest]),
        Err(RawSegmentArchiveError::VerificationMismatch)
    );
    let misnamed = RawSegmentArchiveVerification::new(
        "mainnet".to_string(),
        "node-a".to_string(),
        evidence(10, 19, 10),
        vec!["m1".to_string(), "m3".to_string()],
    )
    .with_checkpoint_entries(vec![
        CheckpointEntry { manifest_id: "m1".to_string(), manifest_sha256: [7; 32], range: SequenceRange { start: 10, end: 13 } },
        CheckpointEntry { manifest_id: "m2".to_string(), manifest_sha256: [7; 32], range: SequenceRange { start: 14, end: 19 } },
    ]);
    assert!(start_verification(&misnamed).is_err());
}

#[test]
fn loaded_checkpoint_must_hold_the_same_entries() {
    let a = vec![CheckpointEntry { manifest_id: "m1".to_string(), manifest_sha256: [7; 32], range: SequenceRange { start: 1, end: 2 } }];
    let b = vec![CheckpointEntry { manifest_id: "m1".to_string(), manifest_sha256: [7; 32], range: SequenceRange { start: 1, end: 3 } }];
    assert_eq!(checkpoint_matches(Some(&a), &a), Ok(()));
    assert_eq!(checkpoint_matches(Some(&b), &a), Err(RawSegmentArchiveError::VerificationMismatch));
    assert_eq!(checkpoint_matches(None, &a), Err(RawSegmentArchiveError::VerificationMismatch));
}

#[test]
fn archiver_splits_batches_by_identity_size_and_count() {
    let config = RawSegmentArchiveConfig::try_new(100, 2, 150).unwrap();
    let mut a = SegmentArchiver::open(config, Some(CursorPolicy::MonotonicByteOffset), Some(40)).unwrap();
    let hour0 = identity(0);
    let hour1 = identity(3_600_000_000);
    assert_eq!(a.must_flush(&hour0, 60), Ok(false));
    assert_eq!(a.push(&hour0, 60), Ok(Some(40)));
    assert_eq!(a.must_flush(&hour0, 60), Ok(false));
    assert_eq!(a.push(&hour0, 60), Ok(Some(41)));
    // The batch is full.
    assert_eq!(a.must_flush(&hour0, 1), Ok(true));
    assert_eq!(a.batch_first_sequence(), Some(40));
    a.record_batch("m1".to_string(), [1; 32], Some(SequenceRange { start: 40, end: 41 })).unwrap();
    assert_eq!(a.batch_records(), 0);
    assert_eq!(a.push(&hour0, 100), Ok(Some(42)));
    // Another hour starts another batch.
    assert_eq!(a.must_flush(&hour1, 10), Ok(true));
    a.record_batch("m2".to_string(), [2; 32], Some(SequenceRange { start: 42, end: 42 })).unwrap();
    assert_eq!(a.push(&hour1, 100), Ok(Some(43)));
    // Too many bytes.
    assert_eq!(a.must_flush(&hour1, 51), Ok(true));
    assert_eq!(a.must_flush(&hour1, 50), Ok(false));
    a.record_batch("m3".to_string(), [3; 32], Some(SequenceRange { start: 43, end: 43 })).unwrap();
    assert_eq!(a.must_flush(&hour1, u64::MAX), Ok(false));
    let summary = a.finish(4, Some(43)).unwrap();
    assert_eq!(summary.observation_count(), 4);
    assert_eq!(summary.batch_count(), 3);
    assert_eq!(summary.manifest_ids(), &["m1".to_string(), "m2".to_string(), "m3".to_string()]);
    assert_eq!(summary.checkpoint_entries().unwrap().unwrap().len(), 3);
}

#[test]
fn archiver_checks_the_segment_manifest() {
    let config = RawSegmentArchiveConfig::try_new(100, 10, 1000).unwrap();
    assert_eq!(
        SegmentArchiver::open(config, Some(CursorPolicy::MonotonicByteOffset), None).unwrap_err(),
        RawSegmentArchiveError::VerificationMismatch
    );
    let mut native = SegmentArchiver::open(config, None, None).unwrap();
    assert_eq!(native.push(&identity(0), 5), Ok(None));
    native.record_batch("m1".to_string(), [1; 32], None).unwrap();
    let summary = native.finish(1, Some(99)).unwrap();
    assert!(summary.checkpoint_entries().unwrap().is_none());

    let mut short = SegmentArchiver::open(config, Some(CursorPolicy::MonotonicByteOffset), Some(7)).unwrap();
    assert_eq!(short.push(&identity(0), 5), Ok(Some(7)));
    short.record_batch("m1".to_string(), [1; 32], Some(SequenceRange { start: 7, end: 7 })).unwrap();
    assert_eq!(short.finish(2, Some(7)).unwrap_err(), RawSegmentArchiveError::VerificationMismatch);

    let mut wrong_last = SegmentArchiver::open(config, Some(CursorPolicy::MonotonicByteOffset), Some(7)).unwrap();
    assert_eq!(wrong_last.push(&identity(0), 5), Ok(Some(7)));
    wrong_last.record_batch("m1".to_string(), [1; 32], Some(SequenceRange { start: 7, end: 7 })).unwrap();
    assert_eq!(wrong_last.finish(1, Some(8)).unwrap_err(), RawSegmentArchiveError::VerificationMismatch);
}

#[test]
fn archiver_refuses_mixed_checkpoint_entries_and_sequence_overflow() {
    let config = RawSegmentArchiveConfig::try_new(100, 1, 1000).unwrap();
    let mut a = SegmentArchiver::open(config, Some(CursorPolicy::MonotonicByteOffset), Some(u64::MAX)).unwrap();
    assert_eq!(a.push(&identity(0), 1), Ok(Some(u64::MAX)));
    a.record_batch("m1".to_string(), [1; 32], Some(SequenceRange { start: u64::MAX, end: u64::MAX })).unwrap();
    assert_eq!(
        a.push(&identity(0), 1).unwrap_err().reason_code(),
        "capture_raw_archive.sequence_overflow"
    );
    let mut b = SegmentArchiver::open(config, Some(CursorPolicy::MonotonicByteOffset), Some(1)).unwrap();
    b.push(&identity(0), 1).unwrap();
    b.record_batch("m1".to_string(), [1; 32], Some(SequenceRange { start: 1, end: 1 })).unwrap();
    b.push(&identity(0), 1).unwrap();
    assert_eq!(
        b.record_batch("m2".to_string(), [1; 32], None),
        Err(RawSegmentArchiveError::VerificationMismatch)
    );
}

#[test]
fn batch_receipt_must_match_the_batch() {
    let report = verified(1, 4, 10);
    assert_eq!(
        check_batch_receipt(&report, "mainnet", "node-a", &[1; 32], &[2; 32], CursorPolicy::MonotonicByteOffset, Some(SequenceRange { start: 1, end: 4 })),
        Ok(())
    );
    assert_eq!(
        check_batch_receipt(&report, "mainnet", "node-a", &[1; 32], &[2; 32], CursorPolicy::MonotonicByteOffset, Some(SequenceRange { start: 1, end: 5 })),
        Err(RawSegmentArchiveError::VerificationMismatch)
    );
    assert_eq!(
        check_batch_receipt(&report, "mainnet", "node-b", &[1; 32], &[2; 32], CursorPolicy::MonotonicByteOffset, Some(SequenceRange { start: 1, end: 4 })),
        Err(RawSegmentArchiveError::VerificationMismatch)
    );
}

fn leaf(partition: &str, start: u64, end: u64) -> UncompactedLeaf {
    UncompactedLeaf { partition: partition.to_string(), range: SequenceRange { start, end } }
}

#[test]
fn packable_ranges_join_contiguous_leaves_of_one_partition() {
    let leaves = vec![
        leaf("p1", 1, 10),
        leaf("p1", 11, 20),
        leaf("p1", 21, 30),
        leaf("p2", 31, 40),
        leaf("p2", 45, 50),
        leaf("p2", 51, 60),
        leaf("p3", 61, 70),
    ];
    assert_eq!(
        packable_ranges(&leaves, 0, 10),
        vec![SequenceRange { start: 1, end: 30 }, SequenceRange { start: 45, end: 60 }]
    );
    // At most one range per cycle.
    assert_eq!(packable_ranges(&leaves, 0, 1), vec![SequenceRange { start: 1, end: 30 }]);
    assert_eq!(packable_ranges(&leaves, 0, 0), vec![]);
}

#[test]
fn packable_ranges_hold_back_the_tail() {
    let leaves = vec![leaf("p1", 1, 10), leaf("p1", 11, 20), leaf("p1", 21, 30), leaf("p1", 31, 40)];
    assert_eq!(packable_ranges(&leaves, 1, 10), vec![SequenceRange { start: 1, end: 30 }]);
    assert_eq!(packable_ranges(&leaves, 2, 10), vec![SequenceRange { start: 1, end: 20 }]);
    assert_eq!(packable_ranges(&leaves, 3, 10), vec![]);
    assert_eq!(packable_ranges(&leaves, u64::MAX, 10), vec![]);
    assert_eq!(packable_ranges(&Vec::new(), 1, 10), vec![]);
}
