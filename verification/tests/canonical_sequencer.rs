use hl_capture::canonical_sequencer::{
    BlockCandidate, CanonicalBlock, CanonicalEvent, CanonicalSequencer, SequencerDecision, SequencerHealth,
};
use hl_capture::config::{ObservationClass, SourceTrust};
use hl_capture::publication::ConfirmationClass;
use hl_capture::quarantine::QuarantineReason;
use hl_capture::sequencing::{
    CandidateError, EvidenceProblem, GapRange, PublicationLane, SequencerConfig, SequencerError, SourceAdmission,
};
use hl_capture::strmap::StrMap;

fn committed_primary() -> SourceAdmission {
    SourceAdmission {
        observation_class: ObservationClass::CommittedBlock,
        trust: SourceTrust::LocallyVerifiedCommitted,
        publication_lane: PublicationLane::CommittedCandidate,
    }
}

fn committed_independent() -> SourceAdmission {
    SourceAdmission {
        observation_class: ObservationClass::CommittedBlock,
        trust: SourceTrust::IndependentCommitted,
        publication_lane: PublicationLane::CommittedCandidate,
    }
}

fn provisional() -> SourceAdmission {
    SourceAdmission {
        observation_class: ObservationClass::ProvisionalFeed,
        trust: SourceTrust::ThirdPartyProvisional,
        publication_lane: PublicationLane::Provisional,
    }
}

fn block_with(
    chain: &str,
    height: u64,
    source: &str,
    canonical: u8,
    source_hash: u8,
    evidence: u8,
    content: u8,
    confirmation: ConfirmationClass,
) -> CanonicalBlock {
    let mut sources = StrMap::new();
    sources.insert(source.to_string(), [source_hash; 32]);
    let mut ev = StrMap::new();
    ev.insert(source.to_string(), [evidence; 32]);
    CanonicalBlock {
        chain_id: chain.to_string(),
        block_height: height,
        canonical_block_hash: [canonical; 32],
        confirmation_class: confirmation,
        source_block_hashes: sources,
        events: vec![CanonicalEvent {
            event_id: format!("event-{height}"),
            content_sha256: [content; 32],
            source_evidence: ev,
        }],
    }
}

fn block(height: u64, source: &str, confirmation: ConfirmationClass) -> CanonicalBlock {
    block_with("mainnet", height, source, 0x55, 0x66, 1, 9, confirmation)
}

fn primary(height: u64) -> BlockCandidate {
    BlockCandidate::try_new("primary".to_string(), committed_primary(), block(height, "primary", ConfirmationClass::CommittedPrimary))
        .expect("candidate")
}

fn sequencer_with(max_pending: usize, retained: usize) -> CanonicalSequencer {
    CanonicalSequencer::new(
        SequencerConfig::try_new("mainnet".to_string(), 100, max_pending, retained).expect("sequencer config"),
    )
}

fn sequencer() -> CanonicalSequencer {
    sequencer_with(8, 8)
}

fn commit_heights(decisions: &[SequencerDecision]) -> Vec<u64> {
    decisions
        .iter()
        .filter_map(|d| match d {
            SequencerDecision::Commit(b) => Some(b.block_height),
            _ => None,
        })
        .collect()
}

#[test]
fn observe_returns_existing_unsupported_lane_error_when_try_new_is_bypassed() {
    let lanes = [
        (committed_primary(), ConfirmationClass::CommittedPrimary),
        (provisional(), ConfirmationClass::ProvisionalSource),
        (
            SourceAdmission {
                observation_class: ObservationClass::Snapshot,
                trust: SourceTrust::ReconciledSnapshot,
                publication_lane: PublicationLane::Reconciliation,
            },
            ConfirmationClass::CommittedPrimary,
        ),
        (
            SourceAdmission {
                observation_class: ObservationClass::HistoricalBlock,
                trust: SourceTrust::RecoveryOnly,
                publication_lane: PublicationLane::Recovery,
            },
            ConfirmationClass::CommittedPrimary,
        ),
        (
            SourceAdmission {
                observation_class: ObservationClass::ProvisionalMempool,
                trust: SourceTrust::MempoolProvisional,
                publication_lane: PublicationLane::Mempool,
            },
            ConfirmationClass::CommittedPrimary,
        ),
    ];
    let mut saw_reconciliation = false;
    let mut saw_recovery = false;
    let mut saw_mempool = false;
    for (admission, confirmation) in lanes {
        let candidate = BlockCandidate::try_new("primary".to_string(), admission, block(100, "primary", confirmation));
        match admission.publication_lane {
            PublicationLane::CommittedCandidate | PublicationLane::Provisional => {
                let candidate = candidate.expect("admitted sequencer lanes still construct");
                sequencer().observe(candidate).expect("admitted lanes keep the observe success contract");
            }
            lane => {
                match lane {
                    PublicationLane::Reconciliation => saw_reconciliation = true,
                    PublicationLane::Recovery => saw_recovery = true,
                    _ => saw_mempool = true,
                }
                let error = candidate.expect_err("unsupported lanes fail closed");
                assert_eq!(error, CandidateError::UnsupportedPublicationLane);
                assert_eq!(SequencerError::Candidate(error).reason_code(), "sequencer.unsupported_publication_lane");
            }
        }
    }
    assert!(
        saw_reconciliation && saw_recovery && saw_mempool,
        "fixture must still construct reconciliation, recovery, and mempool admissions"
    );
}

#[test]
fn commits_wait_for_the_gap_and_then_run_in_height_order() {
    let mut s = sequencer();
    let d = s.observe(primary(102)).expect("observe");
    assert_eq!(d.len(), 1);
    match &d[0] {
        SequencerDecision::RequestGap { incident_id, start, end_inclusive } => {
            assert_eq!((*start, *end_inclusive), (100, 101));
            assert!(incident_id.starts_with("inc_"));
            assert_eq!(incident_id.len(), 68);
        }
        other => panic!("unexpected {other:?}"),
    }
    assert_eq!(s.outstanding_gap(), Some(GapRange { start: 100, end_inclusive: 101 }));
    assert!(matches!(s.health(), SequencerHealth::RedGap { start: 100, end_inclusive: 101, .. }));
    assert_eq!(s.pending_block_count(), 1);
    assert_eq!(s.committed_watermark(), None);

    let d = s.observe(primary(100)).expect("observe");
    assert_eq!(commit_heights(&d), vec![100]);
    assert!(matches!(d[1], SequencerDecision::RequestGap { start: 101, end_inclusive: 101, .. }));
    assert_eq!(s.committed_watermark(), Some(100));

    let d = s.observe(primary(101)).expect("observe");
    assert_eq!(commit_heights(&d), vec![101, 102]);
    assert_eq!(d.len(), 2);
    assert_eq!(s.committed_watermark(), Some(102));
    assert_eq!(s.pending_block_count(), 0);
    assert_eq!(s.outstanding_gap(), None);
    assert!(matches!(s.health(), SequencerHealth::Green));
}

#[test]
fn a_block_that_fills_no_gap_awaits_more_evidence() {
    let mut s = sequencer();
    s.observe(primary(103)).expect("first");
    let d = s.observe(primary(105)).expect("second");
    assert_eq!(d.len(), 1);
    assert!(matches!(d[0], SequencerDecision::AwaitMoreEvidence));
    assert_eq!(s.pending_block_count(), 2);
}

#[test]
fn gap_incident_ids_are_stable_and_distinct() {
    let mut a = sequencer();
    let mut b = sequencer();
    let da = a.observe(primary(102)).expect("a");
    let db = b.observe(primary(102)).expect("b");
    let id = |d: &SequencerDecision| match d {
        SequencerDecision::RequestGap { incident_id, .. } => incident_id.clone(),
        other => panic!("unexpected {other:?}"),
    };
    assert_eq!(id(&da[0]), id(&db[0]));
    let mut c = sequencer();
    let dc = c.observe(primary(103)).expect("c");
    assert_ne!(id(&da[0]), id(&dc[0]));
    assert!(id(&dc[0])[4..].chars().all(|ch| ch.is_ascii_hexdigit() && !ch.is_ascii_uppercase()));
}

#[test]
fn second_source_for_a_committed_block_is_a_duplicate() {
    let mut s = sequencer();
    s.observe(primary(100)).expect("commit");
    let independent = BlockCandidate::try_new(
        "independent".to_string(),
        committed_independent(),
        block(100, "independent", ConfirmationClass::CommittedIndependent),
    )
    .expect("candidate");
    let d = s.observe(independent).expect("duplicate");
    assert_eq!(d.len(), 1);
    match &d[0] {
        SequencerDecision::RecordDuplicate { block_height, source_id } => {
            assert_eq!(*block_height, 100);
            assert_eq!(source_id, "independent");
        }
        other => panic!("unexpected {other:?}"),
    }
    assert_eq!(s.committed_watermark(), Some(100));
}

#[test]
fn pending_duplicate_is_recorded_without_commit() {
    let mut s = sequencer();
    s.observe(primary(104)).expect("pending");
    let d = s.observe(primary(104)).expect("again");
    assert!(matches!(d[0], SequencerDecision::RecordDuplicate { block_height: 104, .. }));
    assert_eq!(s.pending_block_count(), 1);
}

#[test]
fn conflicting_canonical_block_latches_red_until_resolution() {
    let mut s = sequencer();
    s.observe(primary(100)).expect("commit");
    let other = BlockCandidate::try_new(
        "independent".to_string(),
        committed_independent(),
        block_with("mainnet", 100, "independent", 0x77, 0x66, 1, 9, ConfirmationClass::CommittedIndependent),
    )
    .expect("candidate");
    let d = s.observe(other).expect("quarantine");
    let incident = match &d[0] {
        SequencerDecision::Quarantine(record) => {
            assert_eq!(record.block_height(), 100);
            assert_eq!(record.chain_id(), "mainnet");
            assert_eq!(record.existing_source_ids(), &vec!["primary".to_string()]);
            assert_eq!(record.conflicting_source_id(), "independent");
            assert_eq!(
                record.reason(),
                &QuarantineReason::ConflictingCanonicalBlock { existing_hash: [0x55; 32], conflicting_hash: [0x77; 32] }
            );
            assert_eq!(record.reason().reason_code(), "sequencer.conflicting_canonical_block");
            record.incident_id().to_string()
        }
        other => panic!("unexpected {other:?}"),
    };
    assert!(incident.starts_with("inc_"));
    assert_eq!(s.quarantines().len(), 1);
    match s.health() {
        SequencerHealth::Red { incident_id } => assert_eq!(incident_id, incident),
        other => panic!("unexpected {other:?}"),
    }
    let d = s.observe(primary(101)).expect("held");
    match &d[0] {
        SequencerDecision::AwaitOperatorResolution { incident_id } => assert_eq!(incident_id, &incident),
        other => panic!("unexpected {other:?}"),
    }
    assert_eq!(s.committed_watermark(), Some(100));
    assert_eq!(s.pending_block_count(), 0);
}

#[test]
fn same_source_with_another_block_hash_is_quarantined() {
    let mut s = sequencer();
    s.observe(primary(101)).expect("pending");
    let again = BlockCandidate::try_new(
        "primary".to_string(),
        committed_primary(),
        block_with("mainnet", 101, "primary", 0x55, 0x67, 1, 9, ConfirmationClass::CommittedPrimary),
    )
    .expect("candidate");
    let d = s.observe(again).expect("quarantine");
    match &d[0] {
        SequencerDecision::Quarantine(record) => {
            assert_eq!(record.reason().reason_code(), "sequencer.conflicting_source_block_hash");
            assert_eq!(record.existing_source_ids(), &vec!["primary".to_string()]);
        }
        other => panic!("unexpected {other:?}"),
    }
}

#[test]
fn contradicting_event_evidence_is_quarantined() {
    let mut s = sequencer();
    s.observe(primary(101)).expect("pending");
    let again = BlockCandidate::try_new(
        "primary".to_string(),
        committed_primary(),
        block_with("mainnet", 101, "primary", 0x55, 0x66, 2, 9, ConfirmationClass::CommittedPrimary),
    )
    .expect("candidate");
    let d = s.observe(again).expect("quarantine");
    match &d[0] {
        SequencerDecision::Quarantine(record) => match record.reason() {
            QuarantineReason::ConflictingEventSourceEvidence { event_id, source_id, existing_hash, conflicting_hash } => {
                assert_eq!(event_id, "event-101");
                assert_eq!(source_id, "primary");
                assert_eq!(*existing_hash, [1; 32]);
                assert_eq!(*conflicting_hash, [2; 32]);
            }
            other => panic!("unexpected {other:?}"),
        },
        other => panic!("unexpected {other:?}"),
    }
}

#[test]
fn different_event_content_under_one_hash_is_refused() {
    let mut s = sequencer();
    s.observe(primary(101)).expect("pending");
    let again = BlockCandidate::try_new(
        "primary".to_string(),
        committed_primary(),
        block_with("mainnet", 101, "primary", 0x55, 0x66, 1, 8, ConfirmationClass::CommittedPrimary),
    )
    .expect("candidate");
    let error = s.observe(again).expect_err("content mismatch");
    assert_eq!(
        error,
        SequencerError::InvalidMergedEvidence {
            event_id: Some("event-101".to_string()),
            problem: EvidenceProblem::ContentMismatch
        }
    );
    assert_eq!(error.reason_code(), "sequencer.invalid_merged_evidence");
    assert_eq!(s.pending_block_count(), 1);
}

#[test]
fn full_pending_window_refuses_all_but_the_next_height() {
    let mut s = sequencer_with(1, 8);
    s.observe(primary(105)).expect("pending");
    let error = s.observe(primary(107)).expect_err("full");
    assert_eq!(error, SequencerError::PendingCapacityExceeded { limit: 1 });
    assert_eq!(error.reason_code(), "sequencer.pending_capacity_exceeded");
    let d = s.observe(primary(100)).expect("next height still accepted");
    assert_eq!(commit_heights(&d), vec![100]);
    assert!(s.pending_block_count() <= 1);
}

#[test]
fn old_blocks_outside_the_window_need_historical_verification() {
    let mut s = sequencer_with(8, 1);
    s.observe(primary(100)).expect("100");
    s.observe(primary(101)).expect("101");
    let d = s.observe(primary(100)).expect("old");
    match &d[0] {
        SequencerDecision::VerifyHistoricalBlock { block_height, source_id, canonical_block_hash } => {
            assert_eq!(*block_height, 100);
            assert_eq!(source_id, "primary");
            assert_eq!(*canonical_block_hash, [0x55; 32]);
        }
        other => panic!("unexpected {other:?}"),
    }
    let below = s.observe(primary(50)).expect("below first");
    assert!(matches!(below[0], SequencerDecision::VerifyHistoricalBlock { block_height: 50, .. }));
}

#[test]
fn provisional_blocks_publish_once_and_then_deduplicate() {
    let mut s = sequencer();
    let candidate = || {
        BlockCandidate::try_new("feed".to_string(), provisional(), block(120, "feed", ConfirmationClass::ProvisionalSource))
            .expect("candidate")
    };
    let d = s.observe(candidate()).expect("publish");
    assert!(matches!(&d[0], SequencerDecision::PublishProvisional(b) if b.block_height == 120));
    assert_eq!(s.provisional_watermark(), Some(120));
    let d = s.observe(candidate()).expect("duplicate");
    assert!(matches!(d[0], SequencerDecision::RecordDuplicate { block_height: 120, .. }));
    assert_eq!(s.committed_watermark(), None);
}

#[test]
fn candidate_of_another_chain_is_refused() {
    let mut s = sequencer();
    let other = BlockCandidate::try_new(
        "primary".to_string(),
        committed_primary(),
        block_with("testnet", 100, "primary", 0x55, 0x66, 1, 9, ConfirmationClass::CommittedPrimary),
    )
    .expect("candidate");
    let error = s.observe(other).expect_err("chain");
    assert_eq!(
        error,
        SequencerError::ChainMismatch { expected: "mainnet".to_string(), actual: "testnet".to_string() }
    );
    assert_eq!(error.reason_code(), "sequencer.chain_mismatch");
}

#[test]
fn candidates_must_carry_their_own_source() {
    let missing = BlockCandidate::try_new("other".to_string(), committed_primary(), block(100, "primary", ConfirmationClass::CommittedPrimary));
    assert_eq!(missing.expect_err("missing").reason_code(), "sequencer.missing_source_block_hash");

    let mut foreign = block(100, "primary", ConfirmationClass::CommittedPrimary);
    foreign.events[0].source_evidence.insert("stranger".to_string(), [3; 32]);
    let error = BlockCandidate::try_new("primary".to_string(), committed_primary(), foreign).expect_err("foreign");
    assert_eq!(error, CandidateError::UnexpectedEventSourceEvidence);

    let wrong = BlockCandidate::try_new("primary".to_string(), committed_primary(), block(100, "primary", ConfirmationClass::CommittedIndependent));
    assert_eq!(wrong.expect_err("class"), CandidateError::ConfirmationMismatch);
    assert_eq!(CandidateError::ConfirmationMismatch.reason_code(), "sequencer.confirmation_mismatch");
}

#[test]
fn zero_capacities_are_refused() {
    assert_eq!(
        SequencerConfig::try_new("mainnet".to_string(), 1, 0, 1).expect_err("pending").reason_code(),
        "sequencer.invalid_capacity"
    );
    assert!(SequencerConfig::try_new("mainnet".to_string(), 1, 1, 0).is_err());
}
