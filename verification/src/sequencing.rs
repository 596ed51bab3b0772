//! Continuity decisions for committed block candidates: candidate admission, sequencer
//! capacities, the next height and the gap before the first pending block, and how the
//! committed node pipeline folds sequencer decisions into one outcome.

use vstd::prelude::*;

use crate::config::{ObservationClass, SourceTrust};
use crate::digest::{append_bytes, append_u64_be, be_bytes_u64, hex_encode, hex_lower};
use crate::publication::ConfirmationClass;
use crate::text::{owned, push_str};

verus! {

/// Which lane a source's observations are published on.
#[derive(Debug, Clone, Copy, PartialEq, Eq, Structural)]
pub enum PublicationLane {
    CommittedCandidate,
    Provisional,
    Reconciliation,
    Recovery,
    Mempool,
}

/// What a source is admitted as: the observations it produces, how far it is trusted,
/// and the lane it publishes on.
#[derive(Debug, Clone, Copy, PartialEq, Eq, Structural)]
pub struct SourceAdmission {
    pub observation_class: ObservationClass,
    pub trust: SourceTrust,
    pub publication_lane: PublicationLane,
}

/// Why a block candidate is refused.
#[derive(Debug, Clone, Copy, PartialEq, Eq, Structural)]
pub enum CandidateError {
    MissingSourceBlockHash,
    ConfirmationMismatch,
    UnexpectedEventSourceEvidence,
    UnsupportedPublicationLane,
}

pub open spec fn candidate_reason(e: CandidateError) -> Seq<char> {
    match e {
        CandidateError::MissingSourceBlockHash => "sequencer.missing_source_block_hash"@,
        CandidateError::ConfirmationMismatch => "sequencer.confirmation_mismatch"@,
        CandidateError::UnexpectedEventSourceEvidence => "sequencer.unexpected_event_source_evidence"@,
        CandidateError::UnsupportedPublicationLane => "sequencer.unsupported_publication_lane"@,
    }
}

impl CandidateError {
    pub fn reason_code(self) -> (r: &'static str)
        ensures
            r@ == candidate_reason(self),
    {
        match self {
            CandidateError::MissingSourceBlockHash => "sequencer.missing_source_block_hash",
            CandidateError::ConfirmationMismatch => "sequencer.confirmation_mismatch",
            CandidateError::UnexpectedEventSourceEvidence => "sequencer.unexpected_event_source_evidence",
            CandidateError::UnsupportedPublicationLane => "sequencer.unsupported_publication_lane",
        }
    }
}

/// The confirmation class a block from a source so admitted must carry, if its lane is
/// one the sequencer accepts.
pub open spec fn expected_confirmation(admission: SourceAdmission) -> Option<ConfirmationClass> {
    match admission.publication_lane {
        PublicationLane::CommittedCandidate => match admission.trust {
            SourceTrust::LocallyVerifiedCommitted => Some(ConfirmationClass::CommittedPrimary),
            SourceTrust::IndependentCommitted => Some(ConfirmationClass::CommittedIndependent),
            _ => None,
        },
        PublicationLane::Provisional => match admission.trust {
            SourceTrust::ThirdPartyProvisional => Some(ConfirmationClass::ProvisionalSource),
            _ => None,
        },
        _ => None,
    }
}

/// Whether a block's confirmation class agrees with its source's admission.
pub fn validate_confirmation(admission: SourceAdmission, confirmation: ConfirmationClass) -> (r: Result<(), CandidateError>)
    ensures
        match expected_confirmation(admission) {
            None => r == Err::<(), CandidateError>(CandidateError::UnsupportedPublicationLane),
            Some(c) => if c == confirmation {
                r is Ok
            } else {
                r == Err::<(), CandidateError>(CandidateError::ConfirmationMismatch)
            },
        },
{
    let expected = match admission.publication_lane {
        PublicationLane::CommittedCandidate => match admission.trust {
            SourceTrust::LocallyVerifiedCommitted => ConfirmationClass::CommittedPrimary,
            SourceTrust::IndependentCommitted => ConfirmationClass::CommittedIndependent,
            _ => {
                return Err(CandidateError::UnsupportedPublicationLane);
            },
        },
        PublicationLane::Provisional => match admission.trust {
            SourceTrust::ThirdPartyProvisional => ConfirmationClass::ProvisionalSource,
            _ => {
                return Err(CandidateError::UnsupportedPublicationLane);
            },
        },
        _ => {
            return Err(CandidateError::UnsupportedPublicationLane);
        },
    };
    if expected == confirmation {
        Ok(())
    } else {
        Err(CandidateError::ConfirmationMismatch)
    }
}

/// Which sequencer capacity was configured as zero.
#[derive(Debug, Clone, Copy, PartialEq, Eq, Structural)]
pub enum CapacityField {
    MaxPendingBlocks,
    RetainedCommittedBlocks,
}

/// Why the sequencer refused a configuration or a candidate.
#[derive(Debug, Clone, PartialEq, Eq)]
pub enum SequencerError {
    InvalidCapacity { field: CapacityField },
    ChainMismatch { expected: String, actual: String },
    PendingCapacityExceeded { limit: usize },
    InvalidMergedBlock,
    InvalidMergedEvidence { event_id: Option<String>, problem: EvidenceProblem },
    Candidate(CandidateError),
}

/// Why two blocks with the same canonical hash could not be merged.
#[derive(Debug, Clone, Copy, PartialEq, Eq, Structural)]
pub enum EvidenceProblem {
    EventCountMismatch,
    ContentMismatch,
}

impl EvidenceProblem {
    /// The explanation of the problem.
    pub fn reason(self) -> (r: &'static str)
        ensures
            r@ == match self {
                EvidenceProblem::EventCountMismatch => "matching canonical block hashes contain different event counts"@,
                EvidenceProblem::ContentMismatch => "matching canonical block hash contains different event content"@,
            },
    {
        match self {
            EvidenceProblem::EventCountMismatch => "matching canonical block hashes contain different event counts",
            EvidenceProblem::ContentMismatch => "matching canonical block hash contains different event content",
        }
    }
}

pub open spec fn sequencer_reason(e: SequencerError) -> Seq<char> {
    match e {
        SequencerError::InvalidCapacity { .. } => "sequencer.invalid_capacity"@,
        SequencerError::ChainMismatch { .. } => "sequencer.chain_mismatch"@,
        SequencerError::PendingCapacityExceeded { .. } => "sequencer.pending_capacity_exceeded"@,
        SequencerError::InvalidMergedBlock => "sequencer.invalid_merged_block"@,
        SequencerError::InvalidMergedEvidence { .. } => "sequencer.invalid_merged_evidence"@,
        SequencerError::Candidate(c) => candidate_reason(c),
    }
}

impl SequencerError {
    pub fn reason_code(&self) -> (r: &'static str)
        ensures
            r@ == sequencer_reason(*self),
    {
        match self {
            SequencerError::InvalidCapacity { .. } => "sequencer.invalid_capacity",
            SequencerError::ChainMismatch { .. } => "sequencer.chain_mismatch",
            SequencerError::PendingCapacityExceeded { .. } => "sequencer.pending_capacity_exceeded",
            SequencerError::InvalidMergedBlock => "sequencer.invalid_merged_block",
            SequencerError::InvalidMergedEvidence { .. } => "sequencer.invalid_merged_evidence",
            SequencerError::Candidate(c) => c.reason_code(),
        }
    }
}

/// Sequencer settings: the chain, the first height to commit, and how many blocks may
/// wait and how many committed ones are kept for comparison.
#[derive(Debug, Clone, PartialEq, Eq)]
pub struct SequencerConfig {
    chain_id: String,
    first_height: u64,
    max_pending_blocks: usize,
    retained_committed_blocks: usize,
}

impl SequencerConfig {
    pub closed spec fn spec_chain_id(&self) -> Seq<char> {
        self.chain_id@
    }

    pub closed spec fn spec_first_height(&self) -> u64 {
        self.first_height
    }

    pub closed spec fn spec_max_pending(&self) -> usize {
        self.max_pending_blocks
    }

    pub closed spec fn spec_retained(&self) -> usize {
        self.retained_committed_blocks
    }

    /// Both capacities must be at least one.
    pub fn try_new(
        chain_id: String,
        first_height: u64,
        max_pending_blocks: usize,
        retained_committed_blocks: usize,
    ) -> (r: Result<Self, SequencerError>)
        ensures
            max_pending_blocks == 0 ==> r == Err::<Self, SequencerError>(
                SequencerError::InvalidCapacity { field: CapacityField::MaxPendingBlocks },
            ),
            max_pending_blocks > 0 && retained_committed_blocks == 0 ==> r == Err::<Self, SequencerError>(
                SequencerError::InvalidCapacity { field: CapacityField::RetainedCommittedBlocks },
            ),
            max_pending_blocks > 0 && retained_committed_blocks > 0 ==> (r matches Ok(c) && c.spec_chain_id()
                == chain_id@ && c.spec_first_height() == first_height && c.spec_max_pending()
                == max_pending_blocks && c.spec_retained() == retained_committed_blocks),
    {
        if max_pending_blocks == 0 {
            return Err(SequencerError::InvalidCapacity { field: CapacityField::MaxPendingBlocks });
        }
        if retained_committed_blocks == 0 {
            return Err(SequencerError::InvalidCapacity { field: CapacityField::RetainedCommittedBlocks });
        }
        Ok(SequencerConfig { chain_id, first_height, max_pending_blocks, retained_committed_blocks })
    }

    pub fn chain_id(&self) -> (r: &str)
        ensures
            r@ == self.spec_chain_id(),
    {
        self.chain_id.as_str()
    }

    pub fn first_height(&self) -> (r: u64)
        ensures
            r == self.spec_first_height(),
    {
        self.first_height
    }

    pub fn max_pending_blocks(&self) -> (r: usize)
        ensures
            r == self.spec_max_pending(),
    {
        self.max_pending_blocks
    }

    pub fn retained_committed_blocks(&self) -> (r: usize)
        ensures
            r == self.spec_retained(),
    {
        self.retained_committed_blocks
    }
}

/// A run of missing heights, both ends included.
#[derive(Debug, Clone, Copy, PartialEq, Eq, Structural)]
pub struct GapRange {
    pub start: u64,
    pub end_inclusive: u64,
}

/// The height to commit next: one past the committed watermark, or the first height
/// when nothing is committed; none past the largest height.
pub fn next_committed_height(watermark: Option<u64>, first_height: u64) -> (r: Option<u64>)
    ensures
        r == match watermark {
            Some(h) => if h < u64::MAX {
                Some((h + 1) as u64)
            } else {
                None::<u64>
            },
            None => Some(first_height),
        },
{
    match watermark {
        Some(h) => h.checked_add(1),
        None => Some(first_height),
    }
}

/// The gap the sequencer reports: from the next height to commit up to just below the
/// lowest pending height, when that lies past it.
pub fn outstanding_gap(next: Option<u64>, lowest_pending: Option<u64>) -> (r: Option<GapRange>)
    ensures
        r == match (next, lowest_pending) {
            (Some(n), Some(p)) => if p > n {
                Some(GapRange { start: n, end_inclusive: (p - 1) as u64 })
            } else {
                None::<GapRange>
            },
            _ => None::<GapRange>,
        },
{
    match (next, lowest_pending) {
        (Some(n), Some(p)) => if p > n {
            Some(GapRange { start: n, end_inclusive: p - 1 })
        } else {
            None
        },
        _ => None,
    }
}

/// The key-derivation context of gap incident identifiers.
pub const GAP_INCIDENT_CONTEXT: &'static str = "hyperliquid-alpha-desk/committed-gap/v1";

/// BLAKE3 in key-derivation mode, of a context and key material.
pub uninterp spec fn blake3_derived(context: Seq<char>, material: Seq<u8>) -> Seq<u8>;

/// Calls `blake3::Hasher::new_derive_key` on `context`, feeds it `material` and
/// finalizes; the contract names the result and claims nothing more of it.
#[verifier::external_body]
pub(crate) fn blake3_derive_key(context: &str, material: &[u8]) -> (r: [u8; 32])
    ensures
        r@ == blake3_derived(context@, material@),
{
    let mut hasher = blake3::Hasher::new_derive_key(context);
    hasher.update(material);
    *hasher.finalize().as_bytes()
}

/// The key material of a gap incident: the chain identifier framed by its length, then
/// both ends of the gap, all big-endian.
pub open spec fn gap_material(chain_id: Seq<char>, gap: GapRange) -> Seq<u8> {
    be_bytes_u64(vstd::utf8::encode_utf8(chain_id).len() as u64) + vstd::utf8::encode_utf8(chain_id)
        + be_bytes_u64(gap.start) + be_bytes_u64(gap.end_inclusive)
}

/// The incident identifier of a gap: `inc_` and the hex of the derived key.
pub fn gap_incident_id(chain_id: &str, gap: GapRange) -> (r: String)
    ensures
        r@ == "inc_"@ + hex_lower(blake3_derived(GAP_INCIDENT_CONTEXT@, gap_material(chain_id@, gap))),
{
    let bytes = chain_id.as_bytes();
    let mut material: Vec<u8> = Vec::new();
    append_u64_be(&mut material, bytes.len() as u64);
    append_bytes(&mut material, bytes);
    append_u64_be(&mut material, gap.start);
    append_u64_be(&mut material, gap.end_inclusive);
    assert(material@ =~= gap_material(chain_id@, gap));
    let key = blake3_derive_key(GAP_INCIDENT_CONTEXT, material.as_slice());
    let mut out = owned("inc_");
    let hex = hex_encode(&key);
    push_str(&mut out, hex.as_str());
    out
}

/// What the sequencer decided, as the committed pipeline reads it.
#[derive(Debug, Clone, PartialEq, Eq)]
pub enum DecisionKind {
    Commit { block_height: u64 },
    RecordDuplicate { block_height: u64 },
    RequestGap { incident_id: String, start: u64, end_inclusive: u64 },
    Quarantine { reason_code: String },
    PublishProvisional,
    VerifyHistoricalBlock,
    AwaitOperatorResolution,
    AwaitMoreEvidence,
}

/// What the committed pipeline made of one observation.
#[derive(Debug, Clone, PartialEq, Eq)]
pub enum PipelineOutcome {
    Committed { block_height: u64 },
    Duplicate { block_height: u64 },
    Gap { incident_id: String, start: u64, end_inclusive: u64 },
    AwaitingEvidence,
}

/// Why the committed pipeline failed.
#[derive(Debug, Clone, PartialEq, Eq)]
pub enum PipelineError {
    InvalidConfig,
    ObservationMismatch,
    SourceParse,
    /// Mapping the record to a block failed, with the mapping's reason code.
    Mapping { reason_code: String },
    Candidate(CandidateError),
    Sequencer(SequencerError),
    /// Committing the block failed, with the committer's reason code.
    Commit { reason_code: String },
    Quarantined { reason_code: String },
    HistoricalVerificationUnavailable,
    OperatorResolutionRequired,
    UnexpectedProvisional,
}

pub open spec fn pipeline_reason(e: PipelineError) -> Seq<char> {
    match e {
        PipelineError::InvalidConfig => "capture_pipeline.invalid_config"@,
        PipelineError::ObservationMismatch => "capture_pipeline.observation_mismatch"@,
        PipelineError::SourceParse => "capture_pipeline.source_parse"@,
        PipelineError::Mapping { reason_code } => reason_code@,
        PipelineError::Candidate(c) => candidate_reason(c),
        PipelineError::Sequencer(s) => sequencer_reason(s),
        PipelineError::Commit { reason_code } => reason_code@,
        PipelineError::Quarantined { reason_code } => reason_code@,
        PipelineError::HistoricalVerificationUnavailable => "capture_pipeline.historical_verification_unavailable"@,
        PipelineError::OperatorResolutionRequired => "capture_pipeline.operator_resolution_required"@,
        PipelineError::UnexpectedProvisional => "capture_pipeline.unexpected_provisional"@,
    }
}

impl PipelineError {
    pub fn reason_code(&self) -> (r: String)
        ensures
            r@ == pipeline_reason(*self),
    {
        match self {
            PipelineError::InvalidConfig => owned("capture_pipeline.invalid_config"),
            PipelineError::ObservationMismatch => owned("capture_pipeline.observation_mismatch"),
            PipelineError::SourceParse => owned("capture_pipeline.source_parse"),
            PipelineError::Mapping { reason_code } => owned(reason_code.as_str()),
            PipelineError::Candidate(c) => owned(c.reason_code()),
            PipelineError::Sequencer(s) => owned(s.reason_code()),
            PipelineError::Commit { reason_code } => owned(reason_code.as_str()),
            PipelineError::Quarantined { reason_code } => owned(reason_code.as_str()),
            PipelineError::HistoricalVerificationUnavailable => owned(
                "capture_pipeline.historical_verification_unavailable",
            ),
            PipelineError::OperatorResolutionRequired => owned("capture_pipeline.operator_resolution_required"),
            PipelineError::UnexpectedProvisional => owned("capture_pipeline.unexpected_provisional"),
        }
    }
}

/// Whether a source may feed the committed pipeline: a non-empty, unpadded,
/// control-free version, committed-block observations and committed trust.
pub open spec fn pipeline_source_ok(source_version: Seq<char>, admission: SourceAdmission) -> bool {
    &&& source_version.len() > 0
    &&& crate::text::trimmed(source_version)
    &&& !crate::text::has_control(source_version)
    &&& admission.observation_class == ObservationClass::CommittedBlock
    &&& (admission.trust == SourceTrust::LocallyVerifiedCommitted || admission.trust
        == SourceTrust::IndependentCommitted)
}

/// The committed pipeline's settings.
#[derive(Debug, Clone)]
pub struct CommittedNodePipelineConfig {
    chain_id: String,
    source_id: String,
    source_version: String,
    admission: SourceAdmission,
    sequencer: SequencerConfig,
}

impl CommittedNodePipelineConfig {
    pub closed spec fn spec_source_version(&self) -> Seq<char> {
        self.source_version@
    }

    pub closed spec fn spec_source_id(&self) -> Seq<char> {
        self.source_id@
    }

    pub closed spec fn spec_admission(&self) -> SourceAdmission {
        self.admission
    }

    pub closed spec fn spec_sequencer(&self) -> SequencerConfig {
        self.sequencer
    }

    /// Refused when the source may not feed the committed pipeline, or the sequencer
    /// capacities are zero.
    pub fn try_new(
        chain_id: String,
        source_id: String,
        source_version: String,
        admission: SourceAdmission,
        first_height: u64,
        max_pending_blocks: usize,
        retained_committed_blocks: usize,
    ) -> (r: Result<Self, PipelineError>)
        ensures
            !pipeline_source_ok(source_version@, admission) ==> r == Err::<Self, PipelineError>(
                PipelineError::InvalidConfig,
            ),
            pipeline_source_ok(source_version@, admission) && max_pending_blocks == 0 ==> r == Err::<
                Self,
                PipelineError,
            >(PipelineError::Sequencer(SequencerError::InvalidCapacity { field: CapacityField::MaxPendingBlocks })),
            pipeline_source_ok(source_version@, admission) && max_pending_blocks > 0
                && retained_committed_blocks == 0 ==> r == Err::<Self, PipelineError>(
                PipelineError::Sequencer(
                    SequencerError::InvalidCapacity { field: CapacityField::RetainedCommittedBlocks },
                ),
            ),
            pipeline_source_ok(source_version@, admission) && max_pending_blocks > 0
                && retained_committed_blocks > 0 ==> (r matches Ok(c) && c.spec_source_version()
                == source_version@ && c.spec_admission() == admission
                && c.spec_sequencer().spec_first_height() == first_height
                && c.spec_sequencer().spec_max_pending() == max_pending_blocks
                && c.spec_sequencer().spec_retained() == retained_committed_blocks
                && c.spec_sequencer().spec_chain_id() == chain_id@),
    {
        let c = crate::text::chars_of(source_version.as_str());
        let committed_trust = match admission.trust {
            SourceTrust::LocallyVerifiedCommitted => true,
            SourceTrust::IndependentCommitted => true,
            _ => false,
        };
        let block_class = match admission.observation_class {
            ObservationClass::CommittedBlock => true,
            _ => false,
        };
        if c.len() == 0 || !crate::text::is_trimmed(source_version.as_str()) || crate::text::seq_has_control(&c)
            || !block_class || !committed_trust {
            return Err(PipelineError::InvalidConfig);
        }
        let sequencer = match SequencerConfig::try_new(
            owned(chain_id.as_str()),
            first_height,
            max_pending_blocks,
            retained_committed_blocks,
        ) {
            Ok(s) => s,
            Err(e) => {
                return Err(PipelineError::Sequencer(e));
            },
        };
        Ok(CommittedNodePipelineConfig { chain_id, source_id, source_version, admission, sequencer })
    }

    /// The confirmation class of blocks this pipeline's source produces.
    pub fn confirmation_class(&self) -> (r: Result<ConfirmationClass, PipelineError>)
        ensures
            self.spec_admission().trust == SourceTrust::LocallyVerifiedCommitted ==> r == Ok::<
                ConfirmationClass,
                PipelineError,
            >(ConfirmationClass::CommittedPrimary),
            self.spec_admission().trust == SourceTrust::IndependentCommitted ==> r == Ok::<
                ConfirmationClass,
                PipelineError,
            >(ConfirmationClass::CommittedIndependent),
            self.spec_admission().trust != SourceTrust::LocallyVerifiedCommitted
                && self.spec_admission().trust != SourceTrust::IndependentCommitted ==> r == Err::<
                ConfirmationClass,
                PipelineError,
            >(PipelineError::InvalidConfig),
    {
        match self.admission.trust {
            SourceTrust::LocallyVerifiedCommitted => Ok(ConfirmationClass::CommittedPrimary),
            SourceTrust::IndependentCommitted => Ok(ConfirmationClass::CommittedIndependent),
            _ => Err(PipelineError::InvalidConfig),
        }
    }

    /// Whether a spooled observation belongs to this pipeline: its source, its version,
    /// and committed-block class.
    pub fn accepts(&self, source_id: &str, source_version: &str, class: ObservationClass) -> (r: Result<(), PipelineError>)
        ensures
            r is Ok <==> (source_id@ == self.spec_source_id() && source_version@ == self.spec_source_version()
                && class == ObservationClass::CommittedBlock),
            r is Err ==> r == Err::<(), PipelineError>(PipelineError::ObservationMismatch),
    {
        let block_class = match class {
            ObservationClass::CommittedBlock => true,
            _ => false,
        };
        if !crate::text::same_text(source_id, self.source_id.as_str()) || !crate::text::same_text(
            source_version,
            self.source_version.as_str(),
        ) || !block_class {
            return Err(PipelineError::ObservationMismatch);
        }
        Ok(())
    }

    pub fn sequencer(&self) -> (r: &SequencerConfig)
        ensures
            *r == self.spec_sequencer(),
    {
        &self.sequencer
    }
}

/// The outcome of a run of decisions in which every commit succeeded: the last commit,
/// else the last gap, else the last duplicate, else awaiting evidence; refused at the first
/// decision the committed lane cannot take.
pub open spec fn fold_outcome(d: Seq<DecisionKind>) -> Result<PipelineOutcome, PipelineError> {
    fold_from(d, None, None, None)
}

pub open spec fn fold_from(
    d: Seq<DecisionKind>,
    committed: Option<u64>,
    gap: Option<(String, u64, u64)>,
    duplicate: Option<u64>,
) -> Result<PipelineOutcome, PipelineError>
    decreases d.len(),
{
    if d.len() == 0 {
        match committed {
            Some(h) => Ok(PipelineOutcome::Committed { block_height: h }),
            None => match gap {
                Some((i, s, e)) => Ok(PipelineOutcome::Gap { incident_id: i, start: s, end_inclusive: e }),
                None => match duplicate {
                    Some(h) => Ok(PipelineOutcome::Duplicate { block_height: h }),
                    None => Ok(PipelineOutcome::AwaitingEvidence),
                },
            },
        }
    } else {
        match d[0] {
            DecisionKind::Commit { block_height } => fold_from(d.drop_first(), Some(block_height), gap, duplicate),
            DecisionKind::RecordDuplicate { block_height } => fold_from(d.drop_first(), committed, gap, Some(block_height)),
            DecisionKind::RequestGap { incident_id, start, end_inclusive } => fold_from(
                d.drop_first(),
                committed,
                Some((incident_id, start, end_inclusive)),
                duplicate,
            ),
            DecisionKind::AwaitMoreEvidence => fold_from(d.drop_first(), committed, gap, duplicate),
            DecisionKind::Quarantine { reason_code } => Err(PipelineError::Quarantined { reason_code }),
            DecisionKind::VerifyHistoricalBlock => Err(PipelineError::HistoricalVerificationUnavailable),
            DecisionKind::AwaitOperatorResolution => Err(PipelineError::OperatorResolutionRequired),
            DecisionKind::PublishProvisional => Err(PipelineError::UnexpectedProvisional),
        }
    }
}

/// What the pipeline does with one decision.
#[derive(Debug, Clone, Copy, PartialEq, Eq)]
pub enum FoldStep {
    /// Commit the decision's block, then report the commit.
    CommitBlock { block_height: u64 },
    /// Nothing to do for this decision.
    Continue,
}

/// Folds the sequencer's decisions for one observation into the pipeline's outcome.
#[derive(Debug)]
pub struct DecisionFold {
    committed: Option<u64>,
    gap: Option<(String, u64, u64)>,
    duplicate: Option<u64>,
}

impl DecisionFold {
    pub closed spec fn state(&self) -> (Option<u64>, Option<(String, u64, u64)>, Option<u64>) {
        (self.committed, self.gap, self.duplicate)
    }

    pub fn new() -> (r: Self)
        ensures
            r.state() == (None::<u64>, None::<(String, u64, u64)>, None::<u64>),
    {
        DecisionFold { committed: None, gap: None, duplicate: None }
    }

    /// Takes the next decision: a commit to make, nothing, or the refusal that ends the
    /// fold.
    pub fn observe(&mut self, d: DecisionKind) -> (r: Result<FoldStep, PipelineError>)
        ensures
            match d {
                DecisionKind::Commit { block_height } => r == Ok::<FoldStep, PipelineError>(
                    FoldStep::CommitBlock { block_height },
                ) && final(self).state() == old(self).state(),
                DecisionKind::RecordDuplicate { block_height } => r == Ok::<FoldStep, PipelineError>(
                    FoldStep::Continue,
                ) && final(self).state() == (old(self).state().0, old(self).state().1, Some(block_height)),
                DecisionKind::RequestGap { incident_id, start, end_inclusive } => r == Ok::<
                    FoldStep,
                    PipelineError,
                >(FoldStep::Continue) && final(self).state() == (
                    old(self).state().0,
                    Some((incident_id, start, end_inclusive)),
                    old(self).state().2,
                ),
                DecisionKind::AwaitMoreEvidence => r == Ok::<FoldStep, PipelineError>(FoldStep::Continue)
                    && final(self).state() == old(self).state(),
                DecisionKind::Quarantine { reason_code } => r == Err::<FoldStep, PipelineError>(
                    PipelineError::Quarantined { reason_code },
                ),
                DecisionKind::VerifyHistoricalBlock => r == Err::<FoldStep, PipelineError>(
                    PipelineError::HistoricalVerificationUnavailable,
                ),
                DecisionKind::AwaitOperatorResolution => r == Err::<FoldStep, PipelineError>(
                    PipelineError::OperatorResolutionRequired,
                ),
                DecisionKind::PublishProvisional => r == Err::<FoldStep, PipelineError>(
                    PipelineError::UnexpectedProvisional,
                ),
            },
    {
        match d {
            DecisionKind::Commit { block_height } => Ok(FoldStep::CommitBlock { block_height }),
            DecisionKind::RecordDuplicate { block_height } => {
                self.duplicate = Some(block_height);
                Ok(FoldStep::Continue)
            },
            DecisionKind::RequestGap { incident_id, start, end_inclusive } => {
                self.gap = Some((incident_id, start, end_inclusive));
                Ok(FoldStep::Continue)
            },
            DecisionKind::AwaitMoreEvidence => Ok(FoldStep::Continue),
            DecisionKind::Quarantine { reason_code } => Err(PipelineError::Quarantined { reason_code }),
            DecisionKind::VerifyHistoricalBlock => Err(PipelineError::HistoricalVerificationUnavailable),
            DecisionKind::AwaitOperatorResolution => Err(PipelineError::OperatorResolutionRequired),
            DecisionKind::PublishProvisional => Err(PipelineError::UnexpectedProvisional),
        }
    }

    /// The block at `block_height` was committed.
    pub fn committed(&mut self, block_height: u64)
        ensures
            final(self).state() == (Some(block_height), old(self).state().1, old(self).state().2),
    {
        self.committed = Some(block_height);
    }

    /// The outcome once every decision was taken.
    pub fn outcome(self) -> (r: PipelineOutcome)
        ensures
            Ok::<PipelineOutcome, PipelineError>(r) == fold_from(
                Seq::<DecisionKind>::empty(),
                self.state().0,
                self.state().1,
                self.state().2,
            ),
    {
        match self.committed {
            Some(h) => PipelineOutcome::Committed { block_height: h },
            None => match self.gap {
                Some((i, s, e)) => PipelineOutcome::Gap { incident_id: i, start: s, end_inclusive: e },
                None => match self.duplicate {
                    Some(h) => PipelineOutcome::Duplicate { block_height: h },
                    None => PipelineOutcome::AwaitingEvidence,
                },
            },
        }
    }
}

/// The height of the last commit decision of a run, if any.
pub open spec fn last_commit(d: Seq<DecisionKind>) -> Option<u64>
    decreases d.len(),
{
    if d.len() == 0 {
        None
    } else {
        match d.last() {
            DecisionKind::Commit { block_height } => Some(block_height),
            _ => last_commit(d.drop_last()),
        }
    }
}

/// None of the decisions is one the committed lane refuses.
pub open spec fn lane_accepts_all(d: Seq<DecisionKind>) -> bool {
    forall|i: int| 0 <= i < d.len() ==> match #[trigger] d[i] {
        DecisionKind::Commit { .. } | DecisionKind::RecordDuplicate { .. } | DecisionKind::RequestGap { .. }
        | DecisionKind::AwaitMoreEvidence => true,
        _ => false,
    }
}

proof fn lemma_last_commit_front(d: Seq<DecisionKind>)
    requires
        d.len() > 0,
    ensures
        last_commit(d) == match last_commit(d.drop_first()) {
            Some(h) => Some(h),
            None => match d[0] {
                DecisionKind::Commit { block_height } => Some(block_height),
                _ => None,
            },
        },
    decreases d.len(),
{
    if d.len() > 1 {
        lemma_last_commit_front(d.drop_last());
        assert(d.drop_last().drop_first() =~= d.drop_first().drop_last());
        assert(d.drop_first().last() == d.last());
        assert(d.drop_last()[0] == d[0]);
        match d.last() {
            DecisionKind::Commit { block_height } => {
                assert(last_commit(d.drop_first()) == Some(block_height));
            },
            _ => {
                assert(last_commit(d.drop_first()) == last_commit(d.drop_first().drop_last()));
                assert(last_commit(d) == last_commit(d.drop_last()));
            },
        }
    } else {
        assert(d.drop_first().len() == 0);
        assert(d.drop_last().len() == 0);
        assert(last_commit(d.drop_first()) == None::<u64>);
        assert(last_commit(d.drop_last()) == None::<u64>);
        assert(d.last() == d[0]);
    }
}

proof fn lemma_fold_commit(
    d: Seq<DecisionKind>,
    committed: Option<u64>,
    gap: Option<(String, u64, u64)>,
    duplicate: Option<u64>,
)
    requires
        lane_accepts_all(d),
    ensures
        fold_from(d, committed, gap, duplicate) is Ok,
        match last_commit(d) {
            Some(h) => fold_from(d, committed, gap, duplicate) == Ok::<PipelineOutcome, PipelineError>(
                PipelineOutcome::Committed { block_height: h },
            ),
            None => committed matches Some(h) ==> fold_from(d, committed, gap, duplicate) == Ok::<
                PipelineOutcome,
                PipelineError,
            >(PipelineOutcome::Committed { block_height: h }),
        },
    decreases d.len(),
{
    if d.len() > 0 {
        let rest = d.drop_first();
        assert(lane_accepts_all(rest)) by {
            assert forall|i: int| 0 <= i < rest.len() implies match #[trigger] rest[i] {
                DecisionKind::Commit { .. } | DecisionKind::RecordDuplicate { .. }
                | DecisionKind::RequestGap { .. } | DecisionKind::AwaitMoreEvidence => true,
                _ => false,
            } by {
                assert(rest[i] == d[i + 1]);
            }
        }
        lemma_last_commit_front(d);
        assert(match d[0] {
            DecisionKind::Commit { .. } | DecisionKind::RecordDuplicate { .. } | DecisionKind::RequestGap { .. }
            | DecisionKind::AwaitMoreEvidence => true,
            _ => false,
        });
        match d[0] {
            DecisionKind::Commit { block_height } => lemma_fold_commit(rest, Some(block_height), gap, duplicate),
            DecisionKind::RecordDuplicate { block_height } => lemma_fold_commit(rest, committed, gap, Some(block_height)),
            DecisionKind::RequestGap { incident_id, start, end_inclusive } => lemma_fold_commit(
                rest,
                committed,
                Some((incident_id, start, end_inclusive)),
                duplicate,
            ),
            _ => lemma_fold_commit(rest, committed, gap, duplicate),
        }
    }
}

/// When the committed lane accepts every decision of a run, the run succeeds, and a run
/// with a commit reports the last committed height, whatever gaps or duplicates it also
/// holds.
pub proof fn law_commit_outranks_gap_and_duplicate(d: Seq<DecisionKind>)
    requires
        lane_accepts_all(d),
    ensures
        fold_outcome(d) is Ok,
        last_commit(d) matches Some(h) ==> fold_outcome(d) == Ok::<PipelineOutcome, PipelineError>(
            PipelineOutcome::Committed { block_height: h },
        ),
{
    lemma_fold_commit(d, None, None, None);
}

} // verus!
