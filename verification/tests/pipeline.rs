use hl_capture::canonical_sequencer::{decision_kind, BlockCandidate, CanonicalBlock, CanonicalEvent, CanonicalSequencer};
use hl_capture::config::{ObservationClass, SourceTrust};
use hl_capture::publication::ConfirmationClass;
use hl_capture::sequencing::{
    validate_confirmation, CandidateError, CapacityField, CommittedNodePipelineConfig, DecisionFold, DecisionKind,
    FoldStep, PipelineError, PipelineOutcome, PublicationLane, SequencerError, SourceAdmission,
};
use hl_capture::strmap::StrMap;

fn admission(trust: SourceTrust) -> SourceAdmission {
    SourceAdmission {
        observation_class: ObservationClass::CommittedBlock,
        trust,
        publication_lane: PublicationLane::CommittedCandidate,
    }
}

fn config() -> CommittedNodePipelineConfig {
    CommittedNodePipelineConfig::try_new(
        "mainnet".to_string(),
        "primary".to_string(),
        "hyperliquid-node-v1".to_string(),
        admission(SourceTrust::LocallyVerifiedCommitted),
        100,
        8,
        8,
    )
    .expect("config")
}

fn fold(decisions: Vec<DecisionKind>) -> Result<PipelineOutcome, PipelineError> {
    let mut fold = DecisionFold::new();
    for d in decisions {
        match fold.observe(d)? {
            FoldStep::CommitBlock { block_height } => fold.committed(block_height),
            FoldStep::Continue => {}
        }
    }
    Ok(fold.outcome())
}

#[test]
fn pipeline_settings_need_a_committed_source() {
    let c = config();
    assert_eq!(c.confirmation_class(), Ok(ConfirmationClass::CommittedPrimary));
    assert_eq!(c.sequencer().first_height(), 100);
    assert_eq!(c.accepts("primary", "hyperliquid-node-v1", ObservationClass::CommittedBlock), Ok(()));
    assert_eq!(
        c.accepts("primary", "other", ObservationClass::CommittedBlock),
        Err(PipelineError::ObservationMismatch)
    );
    let refused = CommittedNodePipelineConfig::try_new(
        "mainnet".to_string(),
        "feed".to_string(),
        "v1".to_string(),
        admission(SourceTrust::ThirdPartyProvisional),
        1,
        1,
        1,
    );
    assert_eq!(refused.err().map(|e| e.reason_code()), Some("capture_pipeline.invalid_config".to_string()));
    let zero = CommittedNodePipelineConfig::try_new(
        "mainnet".to_string(),
        "primary".to_string(),
        "v1".to_string(),
        admission(SourceTrust::IndependentCommitted),
        1,
        0,
        1,
    );
    assert!(matches!(
        zero,
        Err(PipelineError::Sequencer(SequencerError::InvalidCapacity { field: CapacityField::MaxPendingBlocks }))
    ));
}

#[test]
fn the_last_commit_outranks_gaps_and_duplicates() {
    let gap = DecisionKind::RequestGap { incident_id: "inc_x".to_string(), start: 5, end_inclusive: 6 };
    assert_eq!(
        fold(vec![DecisionKind::Commit { block_height: 3 }, gap.clone(), DecisionKind::Commit { block_height: 4 }]),
        Ok(PipelineOutcome::Committed { block_height: 4 })
    );
    assert_eq!(
        fold(vec![DecisionKind::RecordDuplicate { block_height: 2 }, gap.clone()]),
        Ok(PipelineOutcome::Gap { incident_id: "inc_x".to_string(), start: 5, end_inclusive: 6 })
    );
    assert_eq!(fold(vec![DecisionKind::RecordDuplicate { block_height: 2 }]), Ok(PipelineOutcome::Duplicate { block_height: 2 }));
    assert_eq!(fold(vec![DecisionKind::AwaitMoreEvidence]), Ok(PipelineOutcome::AwaitingEvidence));
    assert_eq!(
        fold(vec![DecisionKind::Commit { block_height: 3 }, DecisionKind::PublishProvisional]),
        Err(PipelineError::UnexpectedProvisional)
    );
    assert_eq!(
        fold(vec![DecisionKind::Quarantine { reason_code: "sequencer.conflicting_canonical_block".to_string() }])
            .map_err(|e| e.reason_code()),
        Err("sequencer.conflicting_canonical_block".to_string())
    );
}

#[test]
fn sequencer_decisions_fold_into_the_pipeline_outcome() {
    let mut sequencer = CanonicalSequencer::new(config().sequencer().clone());
    let mut sources = StrMap::new();
    sources.insert("primary".to_string(), [6; 32]);
    let mut evidence = StrMap::new();
    evidence.insert("primary".to_string(), [7; 32]);
    let block = CanonicalBlock {
        chain_id: "mainnet".to_string(),
        block_height: 100,
        canonical_block_hash: [5; 32],
        confirmation_class: ConfirmationClass::CommittedPrimary,
        source_block_hashes: sources,
        events: vec![CanonicalEvent { event_id: "e".to_string(), content_sha256: [1; 32], source_evidence: evidence }],
    };
    let candidate = BlockCandidate::try_new("primary".to_string(), admission(SourceTrust::LocallyVerifiedCommitted), block)
        .expect("candidate");
    let decisions = sequencer.observe(candidate).expect("observe");
    let kinds: Vec<DecisionKind> = decisions.iter().map(decision_kind).collect();
    assert_eq!(kinds, vec![DecisionKind::Commit { block_height: 100 }]);
    assert_eq!(fold(kinds), Ok(PipelineOutcome::Committed { block_height: 100 }));
}

#[test]
fn confirmation_follows_the_admission() {
    assert_eq!(validate_confirmation(admission(SourceTrust::IndependentCommitted), ConfirmationClass::CommittedIndependent), Ok(()));
    assert_eq!(
        validate_confirmation(admission(SourceTrust::IndependentCommitted), ConfirmationClass::CommittedPrimary),
        Err(CandidateError::ConfirmationMismatch)
    );
    assert_eq!(
        validate_confirmation(admission(SourceTrust::RecoveryOnly), ConfirmationClass::CommittedPrimary),
        Err(CandidateError::UnsupportedPublicationLane)
    );
}
