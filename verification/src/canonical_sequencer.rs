//! The canonical sequencer: deterministic, in-memory continuity decisions for block
//! candidates. Committed candidates wait until every lower height is present and are then
//! committed in height order; a missing run below the lowest waiting block is reported as
//! a gap; a second copy of a block is merged with the first or, where they disagree,
//! quarantined, which latches the sequencer red until an operator resolves it.

use vstd::prelude::*;

use crate::publication::ConfirmationClass;
use crate::quarantine::{
    quarantine_reason_code, canonical_block_divergence, canonical_divergence, event_evidence_divergence,
    event_source_evidence_divergence, source_block_hash_divergence, source_hash_divergence,
    QuarantineModel, QuarantineRecord,
};
use crate::digest::hex_lower;
use crate::sequencing::{
    blake3_derived, DecisionKind, expected_confirmation, gap_incident_id, gap_material, validate_confirmation, CandidateError,
    EvidenceProblem, GapRange, PublicationLane, SequencerConfig, SequencerError, SourceAdmission,
    GAP_INCIDENT_CONTEXT,
};
use crate::strmap::{has_key, keys_of, keys_sorted, lookup, overlay, StrMap};
use crate::text::{owned, same_text};

verus! {

/// One canonical event of a block, as the sequencer compares it: its identity, the
/// digest of its canonical content, and each source's evidence hash.
#[derive(Debug)]
pub struct CanonicalEvent {
    pub event_id: String,
    pub content_sha256: [u8; 32],
    pub source_evidence: StrMap<[u8; 32]>,
}

pub struct EventModel {
    pub event_id: Seq<char>,
    pub content_sha256: [u8; 32],
    pub evidence: Seq<(Seq<char>, [u8; 32])>,
}

impl View for CanonicalEvent {
    type V = EventModel;

    open spec fn view(&self) -> EventModel {
        EventModel {
            event_id: self.event_id@,
            content_sha256: self.content_sha256,
            evidence: self.source_evidence@,
        }
    }
}

/// A canonical block, by the values the sequencer reads: its place, its canonical hash,
/// its confirmation class, each source's hash of it, and its events in order.
#[derive(Debug)]
pub struct CanonicalBlock {
    pub chain_id: String,
    pub block_height: u64,
    pub canonical_block_hash: [u8; 32],
    pub confirmation_class: ConfirmationClass,
    pub source_block_hashes: StrMap<[u8; 32]>,
    pub events: Vec<CanonicalEvent>,
}

pub struct BlockModel {
    pub chain_id: Seq<char>,
    pub block_height: u64,
    pub canonical_block_hash: [u8; 32],
    pub confirmation_class: ConfirmationClass,
    pub sources: Seq<(Seq<char>, [u8; 32])>,
    pub events: Seq<EventModel>,
}

impl View for CanonicalBlock {
    type V = BlockModel;

    open spec fn view(&self) -> BlockModel {
        BlockModel {
            chain_id: self.chain_id@,
            block_height: self.block_height,
            canonical_block_hash: self.canonical_block_hash,
            confirmation_class: self.confirmation_class,
            sources: self.source_block_hashes@,
            events: self.events@.map_values(|e: CanonicalEvent| e@),
        }
    }
}

/// A copy of an event.
pub fn copy_event(e: &CanonicalEvent) -> (r: CanonicalEvent)
    ensures
        r@ == e@,
{
    CanonicalEvent {
        event_id: owned(e.event_id.as_str()),
        content_sha256: e.content_sha256,
        source_evidence: e.source_evidence.copied(),
    }
}

/// A copy of a block.
pub fn copy_block(b: &CanonicalBlock) -> (r: CanonicalBlock)
    ensures
        r@ == b@,
{
    let mut events: Vec<CanonicalEvent> = Vec::new();
    let mut i: usize = 0;
    while i < b.events.len()
        invariant
            i <= b.events@.len(),
            events@.len() == i,
            forall|k: int| 0 <= k < i ==> (#[trigger] events@[k])@ == b.events@[k]@,
        decreases b.events@.len() - i,
    {
        events.push(copy_event(&b.events[i]));
        i = i + 1;
    }
    let r = CanonicalBlock {
        chain_id: owned(b.chain_id.as_str()),
        block_height: b.block_height,
        canonical_block_hash: b.canonical_block_hash,
        confirmation_class: b.confirmation_class,
        source_block_hashes: b.source_block_hashes.copied(),
        events,
    };
    assert(r@.events =~= b@.events);
    r
}

/// Every event's evidence comes from `source` alone.
pub open spec fn evidence_only_from(b: BlockModel, source: Seq<char>) -> bool {
    forall|i: int, j: int| 0 <= i < b.events.len() && 0 <= j < b.events[i].evidence.len() ==> (
    #[trigger] b.events[i].evidence[j]).0 == source
}

/// What makes a candidate acceptable: the block carries exactly its source's hash, every
/// event's evidence comes from that source, and its confirmation class agrees with the
/// source's admission.
pub open spec fn candidate_error(source: Seq<char>, admission: SourceAdmission, b: BlockModel) -> Option<
    CandidateError,
> {
    if b.sources.len() != 1 || !has_key(b.sources, source) {
        Some(CandidateError::MissingSourceBlockHash)
    } else if !evidence_only_from(b, source) {
        Some(CandidateError::UnexpectedEventSourceEvidence)
    } else {
        match expected_confirmation(admission) {
            None => Some(CandidateError::UnsupportedPublicationLane),
            Some(c) => if c == b.confirmation_class {
                None
            } else {
                Some(CandidateError::ConfirmationMismatch)
            },
        }
    }
}

/// A block offered by one source under its admission.
#[derive(Debug)]
pub struct BlockCandidate {
    source_id: String,
    admission: SourceAdmission,
    block: CanonicalBlock,
}

impl BlockCandidate {
    #[verifier::type_invariant]
    closed spec fn carries_source_hash(self) -> bool {
        has_key(self.block.source_block_hashes@, self.source_id@)
    }

    pub closed spec fn spec_source_id(&self) -> Seq<char> {
        self.source_id@
    }

    pub closed spec fn spec_admission(&self) -> SourceAdmission {
        self.admission
    }

    pub closed spec fn spec_block(&self) -> BlockModel {
        self.block@
    }

    /// Accepts a candidate only if [`candidate_error`] finds nothing wrong with it.
    pub fn try_new(source_id: String, admission: SourceAdmission, block: CanonicalBlock) -> (r: Result<
        Self,
        CandidateError,
    >)
        ensures
            match candidate_error(source_id@, admission, block@) {
                Some(e) => r == Err::<Self, CandidateError>(e),
                None => r matches Ok(c) && c.spec_source_id() == source_id@ && c.spec_admission() == admission
                    && c.spec_block() == block@,
            },
    {
        if block.source_block_hashes.len() != 1 {
            return Err(CandidateError::MissingSourceBlockHash);
        }
        match block.source_block_hashes.find(source_id.as_str()) {
            Some(_) => {},
            None => {
                return Err(CandidateError::MissingSourceBlockHash);
            },
        }
        let mut i: usize = 0;
        while i < block.events.len()
            invariant
                i <= block.events@.len(),
                block@.sources.len() == 1 && has_key(block@.sources, source_id@),
                forall|a: int, j: int| 0 <= a < i && 0 <= j < block@.events[a].evidence.len() ==> (
                #[trigger] block@.events[a].evidence[j]).0 == source_id@,
            decreases block.events@.len() - i,
        {
            let entries = block.events[i].source_evidence.to_vec();
            let mut j: usize = 0;
            while j < entries.len()
                invariant
                    i < block.events@.len(),
                    block@.sources.len() == 1 && has_key(block@.sources, source_id@),
                    j <= entries@.len(),
                    entries@.map_values(|e: (String, [u8; 32])| (e.0@, e.1)) == block@.events[i as int].evidence,
                    forall|k: int| 0 <= k < j ==> (#[trigger] block@.events[i as int].evidence[k]).0 == source_id@,
                decreases entries@.len() - j,
            {
                assert(block@.events[i as int].evidence[j as int].0 == entries@[j as int].0@);
                if !same_text(entries[j].0.as_str(), source_id.as_str()) {
                    assert(!evidence_only_from(block@, source_id@)) by {
                        assert(block@.events[i as int].evidence[j as int].0 != source_id@);
                    }
                    return Err(CandidateError::UnexpectedEventSourceEvidence);
                }
                j = j + 1;
            }
            i = i + 1;
        }
        match validate_confirmation(admission, block.confirmation_class) {
            Ok(()) => {},
            Err(e) => {
                return Err(e);
            },
        }
        Ok(BlockCandidate { source_id, admission, block })
    }

    pub fn source_id(&self) -> (r: &str)
        ensures
            r@ == self.spec_source_id(),
    {
        self.source_id.as_str()
    }

    pub fn admission(&self) -> (r: SourceAdmission)
        ensures
            r == self.spec_admission(),
    {
        self.admission
    }

    pub fn block(&self) -> (r: &CanonicalBlock)
        ensures
            r@ == self.spec_block(),
    {
        &self.block
    }

    pub fn into_parts(self) -> (r: (String, SourceAdmission, CanonicalBlock))
        ensures
            r.0@ == self.spec_source_id(),
            r.1 == self.spec_admission(),
            r.2@ == self.spec_block(),
    {
        (self.source_id, self.admission, self.block)
    }
}

/// How the evidence of two copies of an event combines.
pub enum EventMerge {
    Merged(EventModel),
    Conflict { source: Seq<char>, existing_hash: [u8; 32], conflicting_hash: [u8; 32] },
    ContentMismatch,
}

/// The first source, in key order of `cand`, whose evidence hash differs from the one
/// `existing` holds for it.
pub open spec fn first_conflict(existing: Seq<(Seq<char>, [u8; 32])>, cand: Seq<(Seq<char>, [u8; 32])>) -> Option<
    (Seq<char>, [u8; 32], [u8; 32]),
>
    decreases cand.len(),
{
    if cand.len() == 0 {
        None
    } else {
        match lookup(existing, cand[0].0) {
            Some(h) => if h != cand[0].1 {
                Some((cand[0].0, h, cand[0].1))
            } else {
                first_conflict(existing, cand.drop_first())
            },
            None => first_conflict(existing, cand.drop_first()),
        }
    }
}

/// Two copies of an event merge when they are the same event with the same content and
/// no source gives them different evidence; the merged event holds both evidence sets.
pub open spec fn event_merge(e: EventModel, c: EventModel) -> EventMerge {
    if e.event_id != c.event_id || e.content_sha256 != c.content_sha256 {
        EventMerge::ContentMismatch
    } else {
        match first_conflict(e.evidence, c.evidence) {
            Some(x) => EventMerge::Conflict { source: x.0, existing_hash: x.1, conflicting_hash: x.2 },
            None => EventMerge::Merged(
                EventModel {
                    event_id: e.event_id,
                    content_sha256: e.content_sha256,
                    evidence: overlay(e.evidence, c.evidence),
                },
            ),
        }
    }
}

/// The first `n` events merged pairwise, or the first position that does not merge.
pub open spec fn events_merged(e: Seq<EventModel>, c: Seq<EventModel>, n: nat) -> Result<Seq<EventModel>, (int, EventMerge)>
    decreases n,
{
    if n == 0 {
        Ok(Seq::empty())
    } else {
        match events_merged(e, c, (n - 1) as nat) {
            Err(x) => Err(x),
            Ok(prefix) => match event_merge(e[n - 1], c[n - 1]) {
                EventMerge::Merged(m) => Ok(prefix.push(m)),
                other => Err(((n - 1) as int, other)),
            },
        }
    }
}

proof fn lemma_merged_err_persists(e: Seq<EventModel>, c: Seq<EventModel>, n: nat, m: nat)
    requires
        n <= m,
        events_merged(e, c, n) is Err,
    ensures
        events_merged(e, c, m) == events_merged(e, c, n),
    decreases m - n,
{
    if n < m {
        lemma_merged_err_persists(e, c, n, (m - 1) as nat);
    }
}

/// What comparing a second copy of a block with the first gives.
pub enum MergeOutcome {
    Merged(BlockModel),
    Divergence(QuarantineModel),
    Invalid { event_id: Option<Seq<char>>, problem: EvidenceProblem },
}

/// A second copy of a block from `source` against the copy held: a different canonical
/// hash, or the same source with a different hash of the block, or an event whose
/// evidence a source contradicts, is a divergence; a different number of events or an
/// event with other content cannot be merged; otherwise the copies merge, the held copy
/// gaining the new source's hash and evidence.
pub open spec fn merge_outcome(ex: BlockModel, source: Seq<char>, c: BlockModel) -> MergeOutcome {
    if ex.canonical_block_hash != c.canonical_block_hash {
        MergeOutcome::Divergence(
            canonical_divergence(
                ex.chain_id,
                ex.block_height,
                keys_of(ex.sources),
                source,
                ex.canonical_block_hash,
                c.canonical_block_hash,
            ),
        )
    } else if lookup(ex.sources, source) is Some && lookup(c.sources, source) is Some && lookup(ex.sources, source)
        != lookup(c.sources, source) {
        MergeOutcome::Divergence(
            source_hash_divergence(
                ex.chain_id,
                ex.block_height,
                source,
                lookup(ex.sources, source)->0,
                lookup(c.sources, source)->0,
            ),
        )
    } else if ex.events.len() != c.events.len() {
        MergeOutcome::Invalid { event_id: None, problem: EvidenceProblem::EventCountMismatch }
    } else {
        match events_merged(ex.events, c.events, ex.events.len()) {
            Ok(evs) => MergeOutcome::Merged(
                BlockModel {
                    chain_id: ex.chain_id,
                    block_height: ex.block_height,
                    canonical_block_hash: ex.canonical_block_hash,
                    confirmation_class: ex.confirmation_class,
                    sources: overlay(ex.sources, c.sources),
                    events: evs,
                },
            ),
            Err((i, EventMerge::Conflict { source: s, existing_hash, conflicting_hash })) => MergeOutcome::Divergence(
                event_evidence_divergence(
                    ex.chain_id,
                    ex.block_height,
                    ex.events[i].event_id,
                    s,
                    existing_hash,
                    conflicting_hash,
                ),
            ),
            Err((i, _)) => MergeOutcome::Invalid {
                event_id: Some(ex.events[i].event_id),
                problem: EvidenceProblem::ContentMismatch,
            },
        }
    }
}

/// Why two copies of an event did not merge.
pub enum EventMergeError {
    Conflict { source: String, existing_hash: [u8; 32], conflicting_hash: [u8; 32] },
    ContentMismatch,
}

/// Merges two copies of an event (see [`event_merge`]).
pub fn merge_event(e: &CanonicalEvent, c: &CanonicalEvent) -> (r: Result<CanonicalEvent, EventMergeError>)
    ensures
        match event_merge(e@, c@) {
            EventMerge::Merged(m) => r matches Ok(x) && x@ == m,
            EventMerge::Conflict { source, existing_hash, conflicting_hash } => r matches Err(
                EventMergeError::Conflict { source: s, existing_hash: eh, conflicting_hash: ch },
            ) && s@ == source && eh == existing_hash && ch == conflicting_hash,
            EventMerge::ContentMismatch => r matches Err(EventMergeError::ContentMismatch),
        },
{
    let same_hash = crate::digest::same_hash(&e.content_sha256, &c.content_sha256);
    if !same_text(e.event_id.as_str(), c.event_id.as_str()) || !same_hash {
        return Err(EventMergeError::ContentMismatch);
    }
    let entries = c.source_evidence.to_vec();
    let ghost ev = e@.evidence;
    let ghost cv = c@.evidence;
    let mut i: usize = 0;
    assert(cv.skip(0) =~= cv);
    while i < entries.len()
        invariant
            i <= entries@.len(),
            ev == e@.evidence,
            cv == c@.evidence,
            e@.event_id == c@.event_id && e@.content_sha256 == c@.content_sha256,
            entries@.map_values(|x: (String, [u8; 32])| (x.0@, x.1)) == cv,
            first_conflict(ev, cv) == first_conflict(ev, cv.skip(i as int)),
        decreases entries@.len() - i,
    {
        assert(cv[i as int] == (entries@[i as int].0@, entries@[i as int].1));
        assert(cv.skip(i as int)[0] == cv[i as int]);
        assert(cv.skip(i as int).drop_first() =~= cv.skip(i + 1));
        match e.source_evidence.get(entries[i].0.as_str()) {
            Some(h) => {
                let eq = crate::digest::same_hash(h, &entries[i].1);
                proof {
                    if *h == entries@[i as int].1 {
                    } else {
                        assert(!eq);
                    }
                }
                if !eq {
                    return Err(
                        EventMergeError::Conflict {
                            source: owned(entries[i].0.as_str()),
                            existing_hash: *h,
                            conflicting_hash: entries[i].1,
                        },
                    );
                }
            },
            None => {},
        }
        i = i + 1;
    }
    assert(cv.skip(i as int).len() == 0);
    Ok(
        CanonicalEvent {
            event_id: owned(e.event_id.as_str()),
            content_sha256: e.content_sha256,
            source_evidence: e.source_evidence.overlaid_with(&c.source_evidence),
        },
    )
}

/// Why a second copy of a block was not merged.
pub enum MergeError {
    Divergence(QuarantineRecord),
    InvalidEvidence { event_id: Option<String>, problem: EvidenceProblem },
}

/// The exec result of a merge agrees with [`merge_outcome`].
pub open spec fn merge_result_is(r: Result<CanonicalBlock, MergeError>, o: MergeOutcome) -> bool {
    match o {
        MergeOutcome::Merged(m) => r matches Ok(b) && b@ == m,
        MergeOutcome::Divergence(q) => r matches Err(MergeError::Divergence(x)) && x@ == q,
        MergeOutcome::Invalid { event_id, problem } => r matches Err(MergeError::InvalidEvidence { event_id: e, problem: p })
            && p == problem && match event_id {
            Some(id) => e matches Some(s) && s@ == id,
            None => e is None,
        },
    }
}

/// The keys of a map, in order.
fn keys_vec(m: &StrMap<[u8; 32]>) -> (r: Vec<String>)
    ensures
        r@.map_values(|s: String| s@) == keys_of(m@),
{
    let entries = m.to_vec();
    let mut r: Vec<String> = Vec::new();
    let mut i: usize = 0;
    while i < entries.len()
        invariant
            i <= entries@.len(),
            entries@.map_values(|e: (String, [u8; 32])| (e.0@, e.1)) == m@,
            r@.len() == i,
            forall|k: int| 0 <= k < i ==> (#[trigger] r@[k])@ == m@[k].0,
        decreases entries@.len() - i,
    {
        assert(m@[i as int].0 == entries@[i as int].0@);
        r.push(owned(entries[i].0.as_str()));
        i = i + 1;
    }
    assert(r@.map_values(|s: String| s@) =~= keys_of(m@));
    r
}

/// Compares a second copy of a block from `candidate` with the copy held (see
/// [`merge_outcome`]).
pub fn compare_and_merge(existing: &CanonicalBlock, candidate: &BlockCandidate) -> (r: Result<CanonicalBlock, MergeError>)
    ensures
        merge_result_is(r, merge_outcome(existing@, candidate.spec_source_id(), candidate.spec_block())),
{
    proof {
        use_type_invariant(candidate);
    }
    let c = &candidate.block;
    let source = candidate.source_id.as_str();
    if !crate::digest::same_hash(&existing.canonical_block_hash, &c.canonical_block_hash) {
        let sources = keys_vec(&existing.source_block_hashes);
        return Err(
            MergeError::Divergence(
                canonical_block_divergence(
                    existing.chain_id.as_str(),
                    existing.block_height,
                    sources,
                    source,
                    existing.canonical_block_hash,
                    c.canonical_block_hash,
                ),
            ),
        );
    }
    let ch = match c.source_block_hashes.get(source) {
        Some(h) => *h,
        None => {
            assert(false);
            [0u8; 32]
        },
    };
    match existing.source_block_hashes.get(source) {
        Some(eh) => {
            if !crate::digest::same_hash(eh, &ch) {
                return Err(
                    MergeError::Divergence(
                        source_block_hash_divergence(
                            existing.chain_id.as_str(),
                            existing.block_height,
                            source,
                            *eh,
                            ch,
                        ),
                    ),
                );
            }
        },
        None => {},
    }
    if existing.events.len() != c.events.len() {
        return Err(MergeError::InvalidEvidence { event_id: None, problem: EvidenceProblem::EventCountMismatch });
    }
    let ghost ee = existing@.events;
    let ghost ce = c@.events;
    let mut merged: Vec<CanonicalEvent> = Vec::new();
    let mut i: usize = 0;
    assert(merged@.map_values(|e: CanonicalEvent| e@) =~= Seq::<EventModel>::empty());
    while i < existing.events.len()
        invariant
            i <= existing.events@.len(),
            existing.events@.len() == c.events@.len(),
            ee == existing@.events,
            ce == c@.events,
            candidate.spec_block() == c@,
            candidate.spec_source_id() == source@,
            existing@.canonical_block_hash == c@.canonical_block_hash,
            !(lookup(existing@.sources, source@) is Some && lookup(c@.sources, source@) is Some && lookup(
                existing@.sources,
                source@,
            ) != lookup(c@.sources, source@)),
            events_merged(ee, ce, i as nat) == Ok::<Seq<EventModel>, (int, EventMerge)>(
                merged@.map_values(|e: CanonicalEvent| e@),
            ),
        decreases existing.events@.len() - i,
    {
        let ghost before = merged@.map_values(|e: CanonicalEvent| e@);
        match merge_event(&existing.events[i], &c.events[i]) {
            Ok(m) => {
                merged.push(m);
                assert(merged@.map_values(|e: CanonicalEvent| e@) =~= before.push(m@));
            },
            Err(EventMergeError::Conflict { source: s, existing_hash, conflicting_hash }) => {
                assert(events_merged(ee, ce, (i + 1) as nat) matches Err((j, _)) && j == i);
                proof {
                    lemma_merged_err_persists(ee, ce, (i + 1) as nat, ee.len());
                }
                return Err(
                    MergeError::Divergence(
                        event_source_evidence_divergence(
                            existing.chain_id.as_str(),
                            existing.block_height,
                            existing.events[i].event_id.as_str(),
                            s.as_str(),
                            existing_hash,
                            conflicting_hash,
                        ),
                    ),
                );
            },
            Err(EventMergeError::ContentMismatch) => {
                assert(events_merged(ee, ce, (i + 1) as nat) matches Err((j, _)) && j == i);
                proof {
                    lemma_merged_err_persists(ee, ce, (i + 1) as nat, ee.len());
                }
                return Err(
                    MergeError::InvalidEvidence {
                        event_id: Some(owned(existing.events[i].event_id.as_str())),
                        problem: EvidenceProblem::ContentMismatch,
                    },
                );
            },
        }
        i = i + 1;
    }
    Ok(
        CanonicalBlock {
            chain_id: owned(existing.chain_id.as_str()),
            block_height: existing.block_height,
            canonical_block_hash: existing.canonical_block_hash,
            confirmation_class: existing.confirmation_class,
            source_block_hashes: existing.source_block_hashes.overlaid_with(&c.source_block_hashes),
            events: merged,
        },
    )
}

/// What the sequencer decided about a candidate.
#[derive(Debug)]
pub enum SequencerDecision {
    /// The block is the next contiguous commit; it must be archived before a durable
    /// cursor moves past it.
    Commit(CanonicalBlock),
    RecordDuplicate { block_height: u64, source_id: String },
    RequestGap { incident_id: String, start: u64, end_inclusive: u64 },
    Quarantine(QuarantineRecord),
    PublishProvisional(CanonicalBlock),
    /// The retained window cannot tell whether this old block matches; it is to be
    /// checked against the archive.
    VerifyHistoricalBlock { block_height: u64, source_id: String, canonical_block_hash: [u8; 32] },
    AwaitOperatorResolution { incident_id: String },
    AwaitMoreEvidence,
}

pub enum DecisionModel {
    Commit(BlockModel),
    RecordDuplicate { block_height: u64, source_id: Seq<char> },
    RequestGap { incident_id: Seq<char>, start: u64, end_inclusive: u64 },
    Quarantine(QuarantineModel),
    PublishProvisional(BlockModel),
    VerifyHistoricalBlock { block_height: u64, source_id: Seq<char>, canonical_block_hash: [u8; 32] },
    AwaitOperatorResolution { incident_id: Seq<char> },
    AwaitMoreEvidence,
}

impl View for SequencerDecision {
    type V = DecisionModel;

    open spec fn view(&self) -> DecisionModel {
        match self {
            SequencerDecision::Commit(b) => DecisionModel::Commit(b@),
            SequencerDecision::RecordDuplicate { block_height, source_id } => DecisionModel::RecordDuplicate {
                block_height: *block_height,
                source_id: source_id@,
            },
            SequencerDecision::RequestGap { incident_id, start, end_inclusive } => DecisionModel::RequestGap {
                incident_id: incident_id@,
                start: *start,
                end_inclusive: *end_inclusive,
            },
            SequencerDecision::Quarantine(q) => DecisionModel::Quarantine(q@),
            SequencerDecision::PublishProvisional(b) => DecisionModel::PublishProvisional(b@),
            SequencerDecision::VerifyHistoricalBlock { block_height, source_id, canonical_block_hash } => {
                DecisionModel::VerifyHistoricalBlock {
                    block_height: *block_height,
                    source_id: source_id@,
                    canonical_block_hash: *canonical_block_hash,
                }
            },
            SequencerDecision::AwaitOperatorResolution { incident_id } => DecisionModel::AwaitOperatorResolution {
                incident_id: incident_id@,
            },
            SequencerDecision::AwaitMoreEvidence => DecisionModel::AwaitMoreEvidence,
        }
    }
}

/// The decisions, by their values.
pub open spec fn decisions_of(v: Seq<SequencerDecision>) -> Seq<DecisionModel> {
    v.map_values(|d: SequencerDecision| d@)
}

/// The sequencer's state, by its values.
pub struct SequencerModel {
    pub chain_id: Seq<char>,
    pub first_height: u64,
    pub max_pending: usize,
    pub retained_limit: usize,
    pub committed: Option<u64>,
    pub committed_retained: Seq<BlockModel>,
    pub provisional: Option<u64>,
    pub provisional_retained: Seq<BlockModel>,
    pub pending: Seq<BlockModel>,
    pub gap: Option<GapRange>,
    pub red: Option<Seq<char>>,
    pub quarantines: Seq<QuarantineModel>,
}

/// The height to commit next: one past the committed watermark, or the first height.
pub open spec fn next_of(m: SequencerModel) -> Option<u64> {
    match m.committed {
        Some(h) => if h < u64::MAX {
            Some((h + 1) as u64)
        } else {
            None
        },
        None => Some(m.first_height),
    }
}

/// The retained window after `b` joins it: the latest `limit` blocks.
pub open spec fn retain(ret: Seq<BlockModel>, b: BlockModel, limit: usize) -> Seq<BlockModel> {
    let t = ret.push(b);
    if t.len() > limit {
        t.skip(t.len() - limit)
    } else {
        t
    }
}

/// Whether a block of height `h` is among `s`.
pub open spec fn has_height(s: Seq<BlockModel>, h: u64) -> bool {
    exists|i: int| 0 <= i < s.len() && (#[trigger] s[i]).block_height == h
}

/// Where a block of height `h` is among `s`.
pub open spec fn pos_of(s: Seq<BlockModel>, h: u64) -> int {
    choose|i: int| 0 <= i < s.len() && (#[trigger] s[i]).block_height == h
}

/// Heights strictly increasing.
pub open spec fn heights_sorted(s: Seq<BlockModel>) -> bool {
    forall|i: int, j: int| 0 <= i < j < s.len() ==> (#[trigger] s[i]).block_height < (#[trigger] s[j]).block_height
}

/// `b` placed among `s` by height.
pub open spec fn insert_by_height(s: Seq<BlockModel>, b: BlockModel) -> Seq<BlockModel>
    decreases s.len(),
{
    if s.len() == 0 {
        seq![b]
    } else if b.block_height < s[0].block_height {
        seq![b] + s
    } else {
        seq![s[0]] + insert_by_height(s.drop_first(), b)
    }
}

/// The first quarantine latches the sequencer red; later ones are reported only.
pub open spec fn latch(m: SequencerModel, q: QuarantineModel) -> SequencerModel {
    if m.red is None {
        SequencerModel { red: Some(q.incident_id), quarantines: m.quarantines.push(q), ..m }
    } else {
        m
    }
}

/// Commits every pending block from the next height on while the heights run on.
pub open spec fn drain(m: SequencerModel) -> (SequencerModel, Seq<DecisionModel>)
    decreases m.pending.len(),
{
    match next_of(m) {
        Some(n) => if m.pending.len() > 0 && m.pending[0].block_height == n {
            let b = m.pending[0];
            let m1 = SequencerModel {
                committed: Some(n),
                committed_retained: retain(m.committed_retained, b, m.retained_limit),
                pending: m.pending.drop_first(),
                ..m
            };
            let (m2, ds) = drain(m1);
            (m2, seq![DecisionModel::Commit(b)] + ds)
        } else {
            (m, Seq::empty())
        },
        None => (m, Seq::empty()),
    }
}

/// The gap below the lowest pending block, from the next height on.
pub open spec fn gap_of(next: Option<u64>, pending: Seq<BlockModel>) -> Option<GapRange> {
    match next {
        Some(n) => if pending.len() > 0 && pending[0].block_height > n {
            Some(GapRange { start: n, end_inclusive: (pending[0].block_height - 1) as u64 })
        } else {
            None
        },
        None => None,
    }
}

/// The incident identifier of a gap of chain `chain_id`.
pub open spec fn gap_incident(chain_id: Seq<char>, g: GapRange) -> Seq<char> {
    "inc_"@ + hex_lower(blake3_derived(GAP_INCIDENT_CONTEXT@, gap_material(chain_id, g)))
}

/// Brings the reported gap up to date, asking for a gap that changed.
pub open spec fn refresh(m: SequencerModel) -> (SequencerModel, Seq<DecisionModel>) {
    match next_of(m) {
        None => (SequencerModel { gap: None, ..m }, Seq::empty()),
        Some(n) => {
            let g = gap_of(Some(n), m.pending);
            if g == m.gap {
                (m, Seq::empty())
            } else {
                (
                    SequencerModel { gap: g, ..m },
                    match g {
                        Some(x) => seq![
                            DecisionModel::RequestGap {
                                incident_id: gap_incident(m.chain_id, x),
                                start: x.start,
                                end_inclusive: x.end_inclusive,
                            },
                        ],
                        None => Seq::empty(),
                    },
                )
            }
        },
    }
}

/// Why an observation was refused.
pub enum StepError {
    UnsupportedLane,
    PendingCapacityExceeded { limit: usize },
    InvalidMergedEvidence { event_id: Option<Seq<char>>, problem: EvidenceProblem },
}

pub type StepResult = Result<(SequencerModel, Seq<DecisionModel>), StepError>;

/// A block at or below a watermark: merged with the retained copy, quarantined against
/// it, or, when the window no longer holds it, to be checked against the archive.
pub open spec fn retained_step(m: SequencerModel, committed: bool, source: Seq<char>, b: BlockModel) -> StepResult {
    let ret = if committed {
        m.committed_retained
    } else {
        m.provisional_retained
    };
    if !has_height(ret, b.block_height) {
        Ok(
            (
                m,
                seq![
                    DecisionModel::VerifyHistoricalBlock {
                        block_height: b.block_height,
                        source_id: source,
                        canonical_block_hash: b.canonical_block_hash,
                    },
                ],
            ),
        )
    } else {
        let i = pos_of(ret, b.block_height);
        match merge_outcome(ret[i], source, b) {
            MergeOutcome::Merged(x) => Ok(
                (
                    if committed {
                        SequencerModel { committed_retained: ret.update(i, x), ..m }
                    } else {
                        SequencerModel { provisional_retained: ret.update(i, x), ..m }
                    },
                    seq![DecisionModel::RecordDuplicate { block_height: b.block_height, source_id: source }],
                ),
            ),
            MergeOutcome::Divergence(q) => Ok((latch(m, q), seq![DecisionModel::Quarantine(q)])),
            MergeOutcome::Invalid { event_id, problem } => Err(StepError::InvalidMergedEvidence { event_id, problem }),
        }
    }
}

/// A committed candidate: nothing moves while the sequencer is latched red; an old block
/// is compared with the retained window; a second copy of a pending block is merged or
/// quarantined; a new block waits, unless the pending window is full and it is not the
/// next height; then every block that continues the committed heights is committed, and
/// the gap below the lowest pending block is brought up to date.
pub open spec fn committed_step(m: SequencerModel, source: Seq<char>, b: BlockModel) -> StepResult {
    match m.red {
        Some(id) => Ok((m, seq![DecisionModel::AwaitOperatorResolution { incident_id: id }])),
        None => if b.block_height < m.first_height || (m.committed matches Some(w) && b.block_height <= w) {
            retained_step(m, true, source, b)
        } else if has_height(m.pending, b.block_height) {
            let i = pos_of(m.pending, b.block_height);
            match merge_outcome(m.pending[i], source, b) {
                MergeOutcome::Merged(x) => Ok(
                    (
                        SequencerModel { pending: m.pending.update(i, x), ..m },
                        seq![DecisionModel::RecordDuplicate { block_height: b.block_height, source_id: source }],
                    ),
                ),
                MergeOutcome::Divergence(q) => Ok((latch(m, q), seq![DecisionModel::Quarantine(q)])),
                MergeOutcome::Invalid { event_id, problem } => Err(
                    StepError::InvalidMergedEvidence { event_id, problem },
                ),
            }
        } else if m.pending.len() >= m.max_pending && Some(b.block_height) != next_of(m) {
            Err(StepError::PendingCapacityExceeded { limit: m.max_pending })
        } else {
            let m1 = SequencerModel { pending: insert_by_height(m.pending, b), ..m };
            let (m2, commits) = drain(m1);
            let (m3, gaps) = refresh(m2);
            let ds = commits + gaps;
            Ok((m3, if ds.len() == 0 {
                seq![DecisionModel::AwaitMoreEvidence]
            } else {
                ds
            }))
        },
    }
}

/// A provisional candidate: one at or below the provisional watermark is compared with
/// the retained window; a higher one moves the watermark and is published.
pub open spec fn provisional_step(m: SequencerModel, source: Seq<char>, b: BlockModel) -> StepResult {
    if m.provisional matches Some(w) && b.block_height <= w {
        retained_step(m, false, source, b)
    } else {
        Ok(
            (
                SequencerModel {
                    provisional: Some(b.block_height),
                    provisional_retained: retain(m.provisional_retained, b, m.retained_limit),
                    ..m
                },
                seq![DecisionModel::PublishProvisional(b)],
            ),
        )
    }
}

/// One observation of a candidate of the sequencer's chain, by its lane.
pub open spec fn observe_step(m: SequencerModel, source: Seq<char>, admission: SourceAdmission, b: BlockModel) -> StepResult {
    match admission.publication_lane {
        PublicationLane::CommittedCandidate => committed_step(m, source, b),
        PublicationLane::Provisional => provisional_step(m, source, b),
        _ => Err(StepError::UnsupportedLane),
    }
}

/// Blocks by their values.
pub open spec fn blocks_of(v: Seq<CanonicalBlock>) -> Seq<BlockModel> {
    v.map_values(|b: CanonicalBlock| b@)
}

proof fn lemma_insert_by_height_skip(s: Seq<BlockModel>, b: BlockModel, p: int)
    requires
        0 <= p <= s.len(),
        forall|j: int| 0 <= j < p ==> !(b.block_height < (#[trigger] s[j]).block_height),
    ensures
        insert_by_height(s, b) == s.take(p) + insert_by_height(s.skip(p), b),
    decreases p,
{
    if p == 0 {
        assert(s.skip(0) =~= s);
        assert(s.take(0) + insert_by_height(s, b) =~= insert_by_height(s, b));
    } else {
        let d = s.drop_first();
        assert forall|j: int| 0 <= j < p - 1 implies !(b.block_height < (#[trigger] d[j]).block_height) by {
            assert(d[j] == s[j + 1]);
        }
        lemma_insert_by_height_skip(d, b, p - 1);
        assert(d.skip(p - 1) =~= s.skip(p));
        assert(s.take(p) =~= seq![s[0]] + d.take(p - 1));
        assert(seq![s[0]] + (d.take(p - 1) + insert_by_height(d.skip(p - 1), b)) =~= (seq![s[0]] + d.take(p - 1))
            + insert_by_height(s.skip(p), b));
    }
}

/// Position of the block of height `h` among blocks kept in height order.
fn find_height(v: &Vec<CanonicalBlock>, h: u64) -> (r: Option<usize>)
    requires
        heights_sorted(blocks_of(v@)),
    ensures
        match r {
            Some(i) => has_height(blocks_of(v@), h) && pos_of(blocks_of(v@), h) == i && i < v@.len(),
            None => !has_height(blocks_of(v@), h),
        },
{
    let ghost bs = blocks_of(v@);
    let mut i: usize = 0;
    while i < v.len()
        invariant
            i <= v@.len(),
            bs == blocks_of(v@),
            heights_sorted(bs),
            forall|k: int| 0 <= k < i ==> (#[trigger] bs[k]).block_height != h,
        decreases v@.len() - i,
    {
        assert(bs[i as int] == v@[i as int]@);
        if v[i].block_height == h {
            proof {
                assert(has_height(bs, h));
                let p = pos_of(bs, h);
                if p != i as int {
                    if p < i as int {
                        assert(bs[p].block_height < bs[i as int].block_height);
                    } else {
                        assert(bs[i as int].block_height < bs[p].block_height);
                    }
                }
            }
            return Some(i);
        }
        i = i + 1;
    }
    None
}

/// Places `b` among blocks kept in height order.
fn insert_block(v: &mut Vec<CanonicalBlock>, b: CanonicalBlock)
    ensures
        blocks_of(final(v)@) == insert_by_height(blocks_of(old(v)@), b@),
{
    let ghost bs = blocks_of(v@);
    let ghost bv = b@;
    let mut p: usize = 0;
    while p < v.len() && !(b.block_height < v[p].block_height)
        invariant
            p <= v@.len(),
            bs == blocks_of(v@),
            bv == b@,
            v@ == old(v)@,
            forall|j: int| 0 <= j < p ==> !(bv.block_height < (#[trigger] bs[j]).block_height),
        decreases v@.len() - p,
    {
        assert(bs[p as int] == v@[p as int]@);
        p = p + 1;
    }
    proof {
        lemma_insert_by_height_skip(bs, bv, p as int);
        if (p as int) < bs.len() {
            assert(bs[p as int] == v@[p as int]@);
            assert(bs.skip(p as int)[0] == bs[p as int]);
        } else {
            assert(bs.skip(p as int) =~= Seq::<BlockModel>::empty());
        }
    }
    v.insert(p, b);
    proof {
        let nv = blocks_of(v@);
        assert(nv =~= bs.take(p as int) + (seq![bv] + bs.skip(p as int)));
    }
}

/// A watermark: the highest height reached and the latest blocks kept for comparison.
#[derive(Debug)]
struct Watermark {
    current: Option<u64>,
    retained: Vec<CanonicalBlock>,
    retained_limit: usize,
}

impl Watermark {
    fn new(retained_limit: usize) -> (r: Self)
        ensures
            r.current is None,
            r.retained@.len() == 0,
            r.retained_limit == retained_limit,
    {
        Watermark { current: None, retained: Vec::new(), retained_limit }
    }

    /// Moves to `block`'s height and keeps `block` among the latest retained ones.
    fn advance(&mut self, block: CanonicalBlock)
        ensures
            final(self).current == Some(block.block_height),
            final(self).retained_limit == old(self).retained_limit,
            blocks_of(final(self).retained@) == retain(blocks_of(old(self).retained@), block@, old(self).retained_limit),
    {
        let ghost t = blocks_of(self.retained@).push(block@);
        self.current = Some(block.block_height);
        self.retained.push(block);
        assert(blocks_of(self.retained@) =~= t);
        let ghost mut dropped: int = 0;
        while self.retained.len() > self.retained_limit
            invariant
                0 <= dropped <= t.len(),
                self.retained@.len() == t.len() - dropped,
                dropped > 0 ==> t.len() - dropped >= self.retained_limit,
                blocks_of(self.retained@) == t.skip(dropped),
                self.retained_limit == old(self).retained_limit,
                self.current == Some(block.block_height),
            decreases self.retained@.len(),
        {
            let ghost before = blocks_of(self.retained@);
            self.retained.remove(0);
            proof {
                dropped = dropped + 1;
                assert(blocks_of(self.retained@) =~= before.drop_first());
                assert(t.skip(dropped) =~= t.skip(dropped - 1).drop_first());
            }
        }
        proof {
            if t.len() > self.retained_limit {
                assert(dropped == t.len() - self.retained_limit);
            } else {
                assert(dropped == 0);
                assert(t.skip(0) =~= t);
            }
        }
    }
}

/// How the sequencer stands.
#[derive(Debug)]
pub enum SequencerHealth {
    Green,
    RedGap { incident_id: String, start: u64, end_inclusive: u64 },
    Red { incident_id: String },
}

/// What the sequencer keeps true between observations: pending blocks in height order,
/// all above the next height and within the pending capacity; the reported gap the one
/// below the lowest pending block; each retained window in height order, within its limit
/// and at or below its watermark; one quarantine recorded exactly while latched red.
pub open spec fn model_ok(m: SequencerModel) -> bool {
    &&& heights_sorted(m.pending)
    &&& forall|i: int| 0 <= i < m.pending.len() ==> (next_of(m) matches Some(n) && (#[trigger] m.pending[i]).block_height > n)
    &&& m.pending.len() <= m.max_pending
    &&& m.gap == gap_of(next_of(m), m.pending)
    &&& window_ok(m.committed, m.committed_retained, m.retained_limit)
    &&& window_ok(m.provisional, m.provisional_retained, m.retained_limit)
    &&& match m.red {
        Some(id) => m.quarantines.len() == 1 && m.quarantines[0].incident_id == id,
        None => m.quarantines.len() == 0,
    }
}

/// A retained window in height order, within its limit, at or below its watermark.
pub open spec fn window_ok(current: Option<u64>, ret: Seq<BlockModel>, limit: usize) -> bool {
    &&& heights_sorted(ret)
    &&& ret.len() <= limit
    &&& match current {
        Some(w) => forall|i: int| 0 <= i < ret.len() ==> (#[trigger] ret[i]).block_height <= w,
        None => ret.len() == 0,
    }
}

/// Deterministic continuity decisions for the candidates of one chain.
#[derive(Debug)]
pub struct CanonicalSequencer {
    config: SequencerConfig,
    committed: Watermark,
    provisional: Watermark,
    pending: Vec<CanonicalBlock>,
    outstanding_gap: Option<GapRange>,
    red_incident_id: Option<String>,
    quarantines: Vec<QuarantineRecord>,
}

impl View for CanonicalSequencer {
    type V = SequencerModel;

    closed spec fn view(&self) -> SequencerModel {
        SequencerModel {
            chain_id: self.config.spec_chain_id(),
            first_height: self.config.spec_first_height(),
            max_pending: self.config.spec_max_pending(),
            retained_limit: self.config.spec_retained(),
            committed: self.committed.current,
            committed_retained: blocks_of(self.committed.retained@),
            provisional: self.provisional.current,
            provisional_retained: blocks_of(self.provisional.retained@),
            pending: blocks_of(self.pending@),
            gap: self.outstanding_gap,
            red: match self.red_incident_id {
                Some(id) => Some(id@),
                None => None,
            },
            quarantines: self.quarantines@.map_values(|q: QuarantineRecord| q@),
        }
    }
}

impl CanonicalSequencer {
    /// The sequencer is well formed: its watermarks keep the configured number of blocks
    /// and its state is as [`model_ok`] says.
    pub closed spec fn wf(&self) -> bool {
        &&& self.committed.retained_limit == self.config.spec_retained()
        &&& self.provisional.retained_limit == self.config.spec_retained()
        &&& model_ok(self@)
    }

    /// A sequencer with nothing committed, pending or latched.
    pub fn new(config: SequencerConfig) -> (r: Self)
        ensures
            r.wf(),
            r@.chain_id == config.spec_chain_id(),
            r@.first_height == config.spec_first_height(),
            r@.max_pending == config.spec_max_pending(),
            r@.retained_limit == config.spec_retained(),
            r@.committed is None && r@.provisional is None,
            r@.committed_retained.len() == 0 && r@.provisional_retained.len() == 0,
            r@.pending.len() == 0 && r@.gap is None && r@.red is None && r@.quarantines.len() == 0,
    {
        let limit = config.retained_committed_blocks();
        let r = CanonicalSequencer {
            committed: Watermark::new(limit),
            provisional: Watermark::new(limit),
            config,
            pending: Vec::new(),
            outstanding_gap: None,
            red_incident_id: None,
            quarantines: Vec::new(),
        };
        assert(r@.pending =~= Seq::<BlockModel>::empty());
        assert(r@.committed_retained =~= Seq::<BlockModel>::empty());
        assert(r@.provisional_retained =~= Seq::<BlockModel>::empty());
        assert(r@.quarantines =~= Seq::<QuarantineModel>::empty());
        r
    }

    /// The contiguous committed watermark (not a persisted cursor).
    pub fn committed_watermark(&self) -> (r: Option<u64>)
        ensures
            r == self@.committed,
    {
        self.committed.current
    }

    pub fn provisional_watermark(&self) -> (r: Option<u64>)
        ensures
            r == self@.provisional,
    {
        self.provisional.current
    }

    pub fn outstanding_gap(&self) -> (r: Option<GapRange>)
        ensures
            r == self@.gap,
    {
        self.outstanding_gap
    }

    pub fn pending_block_count(&self) -> (r: usize)
        ensures
            r == self@.pending.len(),
    {
        self.pending.len()
    }

    pub fn quarantines(&self) -> (r: &Vec<QuarantineRecord>)
        ensures
            r@.map_values(|q: QuarantineRecord| q@) == self@.quarantines,
    {
        &self.quarantines
    }

    /// Red while latched on a divergence; red with the gap while one is outstanding;
    /// green otherwise.
    pub fn health(&self) -> (r: SequencerHealth)
        ensures
            match self@.red {
                Some(id) => r matches SequencerHealth::Red { incident_id } && incident_id@ == id,
                None => match self@.gap {
                    Some(g) => r matches SequencerHealth::RedGap { incident_id, start, end_inclusive }
                        && incident_id@ == gap_incident(self@.chain_id, g) && start == g.start && end_inclusive
                        == g.end_inclusive,
                    None => r matches SequencerHealth::Green,
                },
            },
    {
        match &self.red_incident_id {
            Some(id) => SequencerHealth::Red { incident_id: owned(id.as_str()) },
            None => match self.outstanding_gap {
                Some(g) => SequencerHealth::RedGap {
                    incident_id: gap_incident_id(self.config.chain_id(), g),
                    start: g.start,
                    end_inclusive: g.end_inclusive,
                },
                None => SequencerHealth::Green,
            },
        }
    }

    /// Reports a divergence, latching the sequencer red on the first one.
    fn latch_divergence(&mut self, record: QuarantineRecord) -> (r: SequencerDecision)
        ensures
            final(self)@ == latch(old(self)@, record@),
            final(self).config == old(self).config,
            final(self).committed == old(self).committed,
            final(self).provisional == old(self).provisional,
            r@ == DecisionModel::Quarantine(record@),
    {
        if self.red_incident_id.is_none() {
            self.red_incident_id = Some(owned(record.incident_id()));
            let ghost before = self.quarantines@.map_values(|q: QuarantineRecord| q@);
            self.quarantines.push(record.copied());
            assert(self.quarantines@.map_values(|q: QuarantineRecord| q@) =~= before.push(record@));
        }
        SequencerDecision::Quarantine(record)
    }

    /// Whether the lowest pending block is the next height to commit.
    fn next_ready(&self) -> (r: bool)
        ensures
            r == (next_of(self@) matches Some(n) && self@.pending.len() > 0 && self@.pending[0].block_height == n),
    {
        match crate::sequencing::next_committed_height(self.committed.current, self.config.first_height()) {
            Some(n) => {
                if self.pending.len() > 0 {
                    assert(self@.pending[0] == self.pending@[0]@);
                    self.pending[0].block_height == n
                } else {
                    false
                }
            },
            None => false,
        }
    }

    /// Commits the pending blocks that continue the committed heights (see [`drain`]).
    fn drain_contiguous(&mut self) -> (r: Vec<SequencerDecision>)
        requires
            old(self).committed.retained_limit == old(self).config.spec_retained(),
        ensures
            (final(self)@, decisions_of(r@)) == drain(old(self)@),
            final(self).config == old(self).config,
            final(self).committed.retained_limit == old(self).committed.retained_limit,
            final(self).provisional == old(self).provisional,
    {
        let mut decisions: Vec<SequencerDecision> = Vec::new();
        assert(decisions_of(decisions@) + drain(self@).1 =~= drain(self@).1);
        while self.next_ready()
            invariant
                drain(old(self)@) == (drain(self@).0, decisions_of(decisions@) + drain(self@).1),
                self.config == old(self).config,
                self.committed.retained_limit == old(self).committed.retained_limit,
                self.committed.retained_limit == self.config.spec_retained(),
                self.provisional == old(self).provisional,
            decreases self.pending@.len(),
        {
            let ghost m = self@;
            let b = self.pending.remove(0);
            assert(b@ == m.pending[0]);
            let c = copy_block(&b);
            self.committed.advance(b);
            let ghost before = decisions_of(decisions@);
            decisions.push(SequencerDecision::Commit(c));
            proof {
                assert(self@.pending =~= m.pending.drop_first());
                let n = next_of(m)->0;
                let m1 = SequencerModel {
                    committed: Some(n),
                    committed_retained: retain(m.committed_retained, m.pending[0], m.retained_limit),
                    pending: m.pending.drop_first(),
                    ..m
                };
                assert(self@ == m1);
                assert(decisions_of(decisions@) =~= before.push(DecisionModel::Commit(m.pending[0])));
                assert(before + drain(m).1 =~= decisions_of(decisions@) + drain(self@).1);
            }
        }
        assert(decisions_of(decisions@) + drain(self@).1 =~= decisions_of(decisions@));
        decisions
    }

    /// Brings the reported gap up to date (see [`refresh`]), appending a gap request.
    fn refresh_gap(&mut self, decisions: &mut Vec<SequencerDecision>)
        ensures
            final(self)@ == refresh(old(self)@).0,
            decisions_of(final(decisions)@) == decisions_of(old(decisions)@) + refresh(old(self)@).1,
            final(self).config == old(self).config,
            final(self).committed == old(self).committed,
            final(self).provisional == old(self).provisional,
    {
        let next = crate::sequencing::next_committed_height(self.committed.current, self.config.first_height());
        match next {
            None => {
                self.outstanding_gap = None;
                assert(decisions_of(decisions@) + Seq::<DecisionModel>::empty() =~= decisions_of(decisions@));
            },
            Some(n) => {
                let lowest = if self.pending.len() > 0 {
                    assert(self@.pending[0] == self.pending@[0]@);
                    Some(self.pending[0].block_height)
                } else {
                    None
                };
                let gap = crate::sequencing::outstanding_gap(Some(n), lowest);
                assert(gap == gap_of(Some(n), self@.pending));
                if gap == self.outstanding_gap {
                    assert(decisions_of(decisions@) + Seq::<DecisionModel>::empty() =~= decisions_of(decisions@));
                } else {
                    self.outstanding_gap = gap;
                    let ghost before = decisions_of(decisions@);
                    match gap {
                        Some(g) => {
                            decisions.push(
                                SequencerDecision::RequestGap {
                                    incident_id: gap_incident_id(self.config.chain_id(), g),
                                    start: g.start,
                                    end_inclusive: g.end_inclusive,
                                },
                            );
                            assert(decisions_of(decisions@) =~= before + refresh(old(self)@).1);
                        },
                        None => {
                            assert(decisions_of(decisions@) =~= before + Seq::<DecisionModel>::empty());
                        },
                    }
                }
            },
        }
    }

    /// Compares a candidate at or below a watermark with the retained window (see
    /// [`retained_step`]).
    fn observe_retained(&mut self, candidate: BlockCandidate, committed: bool) -> (r: Result<
        Vec<SequencerDecision>,
        SequencerError,
    >)
        requires
            old(self).wf(),
        ensures
            step_is(
                r,
                old(self)@,
                final(self)@,
                retained_step(old(self)@, committed, candidate.spec_source_id(), candidate.spec_block()),
            ),
            final(self).config == old(self).config,
            final(self).committed.retained_limit == old(self).committed.retained_limit,
            final(self).provisional.retained_limit == old(self).provisional.retained_limit,
    {
        let h = candidate.block.block_height;
        let ghost m = self@;
        let ghost ret = if committed {
            m.committed_retained
        } else {
            m.provisional_retained
        };
        let found = if committed {
            find_height(&self.committed.retained, h)
        } else {
            find_height(&self.provisional.retained, h)
        };
        let i = match found {
            None => {
                let mut out: Vec<SequencerDecision> = Vec::new();
                out.push(
                    SequencerDecision::VerifyHistoricalBlock {
                        block_height: h,
                        source_id: owned(candidate.source_id.as_str()),
                        canonical_block_hash: candidate.block.canonical_block_hash,
                    },
                );
                assert(decisions_of(out@) =~= retained_step(m, committed, candidate.spec_source_id(), candidate.spec_block())->Ok_0.1);
                return Ok(out);
            },
            Some(i) => i,
        };
        let res = if committed {
            compare_and_merge(&self.committed.retained[i], &candidate)
        } else {
            compare_and_merge(&self.provisional.retained[i], &candidate)
        };
        assert(ret[i as int] == if committed {
            self.committed.retained@[i as int]@
        } else {
            self.provisional.retained@[i as int]@
        });
        match res {
            Ok(merged) => {
                let ghost mv = merged@;
                if committed {
                    self.committed.retained.set(i, merged);
                } else {
                    self.provisional.retained.set(i, merged);
                }
                let mut out: Vec<SequencerDecision> = Vec::new();
                out.push(
                    SequencerDecision::RecordDuplicate { block_height: h, source_id: owned(candidate.source_id.as_str()) },
                );
                proof {
                    if committed {
                        assert(self@.committed_retained =~= ret.update(i as int, mv));
                    } else {
                        assert(self@.provisional_retained =~= ret.update(i as int, mv));
                    }
                    assert(decisions_of(out@) =~= seq![
                        DecisionModel::RecordDuplicate { block_height: h, source_id: candidate.spec_source_id() },
                    ]);
                }
                Ok(out)
            },
            Err(MergeError::Divergence(q)) => {
                let d = self.latch_divergence(q);
                let mut out: Vec<SequencerDecision> = Vec::new();
                out.push(d);
                assert(decisions_of(out@) =~= seq![d@]);
                Ok(out)
            },
            Err(MergeError::InvalidEvidence { event_id, problem }) => {
                Err(SequencerError::InvalidMergedEvidence { event_id, problem })
            },
        }
    }
    /// A committed candidate (see [`committed_step`]).
    fn observe_committed(&mut self, candidate: BlockCandidate) -> (r: Result<Vec<SequencerDecision>, SequencerError>)
        requires
            old(self).wf(),
        ensures
            step_is(r, old(self)@, final(self)@, committed_step(old(self)@, candidate.spec_source_id(), candidate.spec_block())),
            final(self).config == old(self).config,
            final(self).committed.retained_limit == old(self).committed.retained_limit,
            final(self).provisional.retained_limit == old(self).provisional.retained_limit,
    {
        let ghost m = self@;
        match &self.red_incident_id {
            Some(id) => {
                let mut out: Vec<SequencerDecision> = Vec::new();
                out.push(SequencerDecision::AwaitOperatorResolution { incident_id: owned(id.as_str()) });
                assert(decisions_of(out@) =~= seq![DecisionModel::AwaitOperatorResolution { incident_id: id@ }]);
                return Ok(out);
            },
            None => {},
        }
        let h = candidate.block.block_height;
        let below = h < self.config.first_height() || match self.committed.current {
            Some(w) => h <= w,
            None => false,
        };
        if below {
            return self.observe_retained(candidate, true);
        }
        match find_height(&self.pending, h) {
            Some(i) => {
                let res = compare_and_merge(&self.pending[i], &candidate);
                assert(m.pending[i as int] == self.pending@[i as int]@);
                match res {
                    Ok(merged) => {
                        let ghost mv = merged@;
                        self.pending.set(i, merged);
                        let mut out: Vec<SequencerDecision> = Vec::new();
                        out.push(
                            SequencerDecision::RecordDuplicate {
                                block_height: h,
                                source_id: owned(candidate.source_id.as_str()),
                            },
                        );
                        proof {
                            assert(self@.pending =~= m.pending.update(i as int, mv));
                            assert(decisions_of(out@) =~= seq![
                                DecisionModel::RecordDuplicate { block_height: h, source_id: candidate.spec_source_id() },
                            ]);
                        }
                        return Ok(out);
                    },
                    Err(MergeError::Divergence(q)) => {
                        let d = self.latch_divergence(q);
                        let mut out: Vec<SequencerDecision> = Vec::new();
                        out.push(d);
                        assert(decisions_of(out@) =~= seq![d@]);
                        return Ok(out);
                    },
                    Err(MergeError::InvalidEvidence { event_id, problem }) => {
                        return Err(SequencerError::InvalidMergedEvidence { event_id, problem });
                    },
                }
            },
            None => {},
        }
        let next = crate::sequencing::next_committed_height(self.committed.current, self.config.first_height());
        let is_next = match next {
            Some(n) => n == h,
            None => false,
        };
        if self.pending.len() >= self.config.max_pending_blocks() && !is_next {
            return Err(SequencerError::PendingCapacityExceeded { limit: self.config.max_pending_blocks() });
        }
        let ghost bv = candidate.spec_block();
        let (_, _, block) = candidate.into_parts();
        insert_block(&mut self.pending, block);
        let ghost m1 = self@;
        assert(m1 == SequencerModel { pending: insert_by_height(m.pending, bv), ..m });
        let mut decisions = self.drain_contiguous();
        let ghost m2 = self@;
        let ghost commits = decisions_of(decisions@);
        self.refresh_gap(&mut decisions);
        if decisions.len() == 0 {
            decisions.push(SequencerDecision::AwaitMoreEvidence);
            assert(decisions_of(decisions@) =~= seq![DecisionModel::AwaitMoreEvidence]);
        }
        Ok(decisions)
    }

    /// A provisional candidate (see [`provisional_step`]).
    fn observe_provisional(&mut self, candidate: BlockCandidate) -> (r: Result<Vec<SequencerDecision>, SequencerError>)
        requires
            old(self).wf(),
        ensures
            step_is(r, old(self)@, final(self)@, provisional_step(old(self)@, candidate.spec_source_id(), candidate.spec_block())),
            final(self).config == old(self).config,
            final(self).committed.retained_limit == old(self).committed.retained_limit,
            final(self).provisional.retained_limit == old(self).provisional.retained_limit,
    {
        let h = candidate.block.block_height;
        let at_or_below = match self.provisional.current {
            Some(w) => h <= w,
            None => false,
        };
        if at_or_below {
            return self.observe_retained(candidate, false);
        }
        let ghost m = self@;
        let ghost bv = candidate.spec_block();
        let (_, _, block) = candidate.into_parts();
        let kept = copy_block(&block);
        self.provisional.advance(kept);
        let mut out: Vec<SequencerDecision> = Vec::new();
        out.push(SequencerDecision::PublishProvisional(block));
        assert(decisions_of(out@) =~= seq![DecisionModel::PublishProvisional(bv)]);
        Ok(out)
    }
}

/// The exec outcome of an observation agrees with the step the model takes.
pub open spec fn step_is(
    r: Result<Vec<SequencerDecision>, SequencerError>,
    before: SequencerModel,
    after: SequencerModel,
    s: StepResult,
) -> bool {
    match s {
        Ok((m, ds)) => after == m && (r matches Ok(v) && decisions_of(v@) == ds),
        Err(e) => after == before && (r matches Err(x) && error_is(x, e)),
    }
}

/// The sequencer error that stands for a refused step.
pub open spec fn error_is(x: SequencerError, e: StepError) -> bool {
    match e {
        StepError::UnsupportedLane => x == SequencerError::Candidate(CandidateError::UnsupportedPublicationLane),
        StepError::PendingCapacityExceeded { limit } => x == SequencerError::PendingCapacityExceeded { limit },
        StepError::InvalidMergedEvidence { event_id, problem } => x matches SequencerError::InvalidMergedEvidence {
            event_id: e2,
            problem: p2,
        } && p2 == problem && match event_id {
            Some(id) => e2 matches Some(s) && s@ == id,
            None => e2 is None,
        },
    }
}

proof fn lemma_merged_height(ex: BlockModel, source: Seq<char>, c: BlockModel)
    ensures
        merge_outcome(ex, source, c) matches MergeOutcome::Merged(x) ==> x.block_height == ex.block_height,
{
}

proof fn lemma_latch_ok(m: SequencerModel, q: QuarantineModel)
    requires
        model_ok(m),
    ensures
        model_ok(latch(m, q)),
{
}

proof fn lemma_retain_ok(cur: Option<u64>, ret: Seq<BlockModel>, b: BlockModel, limit: usize)
    requires
        window_ok(cur, ret, limit),
        cur matches Some(w) ==> b.block_height > w,
    ensures
        window_ok(Some(b.block_height), retain(ret, b, limit), limit),
{
    let t = ret.push(b);
    assert(heights_sorted(t)) by {
        assert forall|i: int, j: int| 0 <= i < j < t.len() implies (#[trigger] t[i]).block_height
            < (#[trigger] t[j]).block_height by {
            if j == t.len() - 1 {
                assert(t[i] == ret[i]);
            } else {
                assert(t[i] == ret[i] && t[j] == ret[j]);
            }
        }
    }
    if t.len() > limit {
        let k = t.len() - limit;
        let r = t.skip(k);
        assert forall|i: int, j: int| 0 <= i < j < r.len() implies (#[trigger] r[i]).block_height
            < (#[trigger] r[j]).block_height by {
            assert(r[i] == t[i + k] && r[j] == t[j + k]);
        }
        assert forall|i: int| 0 <= i < r.len() implies (#[trigger] r[i]).block_height <= b.block_height by {
            assert(r[i] == t[i + k]);
            if i + k < t.len() - 1 {
                assert(t[i + k] == ret[i + k]);
            }
        }
    } else {
        assert forall|i: int| 0 <= i < t.len() implies (#[trigger] t[i]).block_height <= b.block_height by {
            if i < t.len() - 1 {
                assert(t[i] == ret[i]);
            }
        }
    }
}

proof fn lemma_retained_step_ok(m: SequencerModel, committed: bool, source: Seq<char>, b: BlockModel)
    requires
        model_ok(m),
    ensures
        retained_step(m, committed, source, b) matches Ok((m2, _)) ==> model_ok(m2),
{
    let ret = if committed {
        m.committed_retained
    } else {
        m.provisional_retained
    };
    if has_height(ret, b.block_height) {
        let i = pos_of(ret, b.block_height);
        lemma_merged_height(ret[i], source, b);
        match merge_outcome(ret[i], source, b) {
            MergeOutcome::Merged(x) => {
                let u = ret.update(i, x);
                assert forall|a: int, c: int| 0 <= a < c < u.len() implies (#[trigger] u[a]).block_height
                    < (#[trigger] u[c]).block_height by {
                    assert(ret[a].block_height < ret[c].block_height);
                }
                assert forall|a: int| 0 <= a < u.len() implies (#[trigger] u[a]).block_height == ret[a].block_height by {}
            },
            MergeOutcome::Divergence(q) => {
                lemma_latch_ok(m, q);
            },
            _ => {},
        }
    }
}

proof fn lemma_insert_props(s: Seq<BlockModel>, b: BlockModel)
    requires
        heights_sorted(s),
        !has_height(s, b.block_height),
    ensures
        insert_by_height(s, b).len() == s.len() + 1,
        heights_sorted(insert_by_height(s, b)),
        forall|i: int| 0 <= i < insert_by_height(s, b).len() ==> (#[trigger] insert_by_height(s, b)[i]).block_height
            == b.block_height || has_height(s, insert_by_height(s, b)[i].block_height),
        (forall|j: int| 0 <= j < s.len() ==> (#[trigger] s[j]).block_height > b.block_height) ==> insert_by_height(s, b)[0]
            == b,
    decreases s.len(),
{
    let r = insert_by_height(s, b);
    if s.len() == 0 {
    } else if b.block_height < s[0].block_height {
        assert forall|i: int, j: int| 0 <= i < j < r.len() implies (#[trigger] r[i]).block_height
            < (#[trigger] r[j]).block_height by {
            if i == 0 {
                assert(r[j] == s[j - 1]);
                if j - 1 > 0 {
                    assert(s[0].block_height < s[j - 1].block_height);
                }
            } else {
                assert(r[i] == s[i - 1] && r[j] == s[j - 1]);
            }
        }
        assert forall|i: int| 0 <= i < r.len() implies (#[trigger] r[i]).block_height == b.block_height || has_height(
            s,
            r[i].block_height,
        ) by {
            if i > 0 {
                assert(r[i] == s[i - 1]);
            }
        }
    } else {
        let d = s.drop_first();
        assert(heights_sorted(d)) by {
            assert forall|i: int, j: int| 0 <= i < j < d.len() implies (#[trigger] d[i]).block_height
                < (#[trigger] d[j]).block_height by {
                assert(d[i] == s[i + 1] && d[j] == s[j + 1]);
            }
        }
        assert(!has_height(d, b.block_height)) by {
            if has_height(d, b.block_height) {
                let k = pos_of(d, b.block_height);
                assert(s[k + 1] == d[k]);
            }
        }
        lemma_insert_props(d, b);
        let rd = insert_by_height(d, b);
        assert(r == seq![s[0]] + rd);
        assert(s[0].block_height < b.block_height) by {
            if s[0].block_height == b.block_height {
                assert(has_height(s, b.block_height));
            }
        }
        assert forall|i: int| 0 <= i < r.len() implies (#[trigger] r[i]).block_height == b.block_height || has_height(
            s,
            r[i].block_height,
        ) by {
            if i > 0 {
                assert(r[i] == rd[i - 1]);
                if rd[i - 1].block_height != b.block_height {
                    let k = pos_of(d, rd[i - 1].block_height);
                    assert(s[k + 1] == d[k]);
                }
            }
        }
        assert forall|i: int, j: int| 0 <= i < j < r.len() implies (#[trigger] r[i]).block_height
            < (#[trigger] r[j]).block_height by {
            if i == 0 {
                assert(r[j] == rd[j - 1]);
                if rd[j - 1].block_height != b.block_height {
                    let k = pos_of(d, rd[j - 1].block_height);
                    assert(s[k + 1] == d[k]);
                    assert(s[0].block_height < s[k + 1].block_height);
                }
            } else {
                assert(r[i] == rd[i - 1] && r[j] == rd[j - 1]);
            }
        }
    }
}

/// What draining keeps: see [`drain`].
proof fn lemma_drain_props(m: SequencerModel)
    requires
        heights_sorted(m.pending),
        forall|i: int| 0 <= i < m.pending.len() ==> (next_of(m) matches Some(n) && (#[trigger] m.pending[i]).block_height >= n),
        window_ok(m.committed, m.committed_retained, m.retained_limit),
    ensures
        ({
            let m2 = drain(m).0;
            &&& heights_sorted(m2.pending)
            &&& forall|i: int| 0 <= i < m2.pending.len() ==> (next_of(m2) matches Some(n) && (#[trigger] m2.pending[i]).block_height > n)
            &&& window_ok(m2.committed, m2.committed_retained, m2.retained_limit)
            &&& m2.pending.len() <= m.pending.len()
            &&& (m.pending.len() > 0 && next_of(m) == Some(m.pending[0].block_height)) ==> m2.pending.len()
                < m.pending.len()
            &&& m2.chain_id == m.chain_id && m2.first_height == m.first_height && m2.max_pending == m.max_pending
            &&& m2.retained_limit == m.retained_limit && m2.provisional == m.provisional
            &&& m2.provisional_retained == m.provisional_retained && m2.gap == m.gap && m2.red == m.red
            &&& m2.quarantines == m.quarantines
        }),
    decreases m.pending.len(),
{
    match next_of(m) {
        Some(n) => if m.pending.len() > 0 && m.pending[0].block_height == n {
            let b = m.pending[0];
            let m1 = SequencerModel {
                committed: Some(n),
                committed_retained: retain(m.committed_retained, b, m.retained_limit),
                pending: m.pending.drop_first(),
                ..m
            };
            lemma_retain_ok(m.committed, m.committed_retained, b, m.retained_limit);
            let d = m1.pending;
            assert(heights_sorted(d)) by {
                assert forall|i: int, j: int| 0 <= i < j < d.len() implies (#[trigger] d[i]).block_height
                    < (#[trigger] d[j]).block_height by {
                    assert(d[i] == m.pending[i + 1] && d[j] == m.pending[j + 1]);
                }
            }
            assert forall|i: int| 0 <= i < d.len() implies (next_of(m1) matches Some(k) && (#[trigger] d[i]).block_height
                >= k) by {
                assert(d[i] == m.pending[i + 1]);
                assert(m.pending[0].block_height < m.pending[i + 1].block_height);
            }
            lemma_drain_props(m1);
        } else {
            let p = m.pending;
            assert forall|i: int| 0 <= i < p.len() implies (next_of(m) matches Some(k) && (#[trigger] p[i]).block_height
                > k) by {
                if i > 0 {
                    assert(p[0].block_height < p[i].block_height);
                }
            }
        },
        None => {
            if m.pending.len() > 0 {
                assert(next_of(m) matches Some(k) && m.pending[0].block_height >= k);
            }
        },
    }
}

/// Every accepted observation keeps the sequencer's invariant ([`model_ok`]).
pub proof fn law_observation_keeps_invariant(
    m: SequencerModel,
    source: Seq<char>,
    admission: SourceAdmission,
    b: BlockModel,
)
    requires
        model_ok(m),
    ensures
        observe_step(m, source, admission, b) matches Ok((m2, _)) ==> model_ok(m2),
{
    match admission.publication_lane {
        PublicationLane::CommittedCandidate => {
            if m.red is None {
                if b.block_height < m.first_height || (m.committed matches Some(w) && b.block_height <= w) {
                    lemma_retained_step_ok(m, true, source, b);
                } else if has_height(m.pending, b.block_height) {
                    let i = pos_of(m.pending, b.block_height);
                    lemma_merged_height(m.pending[i], source, b);
                    match merge_outcome(m.pending[i], source, b) {
                        MergeOutcome::Merged(x) => {
                            let u = m.pending.update(i, x);
                            assert forall|a: int| 0 <= a < u.len() implies (#[trigger] u[a]).block_height
                                == m.pending[a].block_height by {}
                            assert forall|a: int, c: int| 0 <= a < c < u.len() implies (#[trigger] u[a]).block_height
                                < (#[trigger] u[c]).block_height by {
                                assert(m.pending[a].block_height < m.pending[c].block_height);
                            }
                            if u.len() > 0 {
                                assert(u[0].block_height == m.pending[0].block_height);
                            }
                        },
                        MergeOutcome::Divergence(q) => {
                            lemma_latch_ok(m, q);
                        },
                        _ => {},
                    }
                } else if !(m.pending.len() >= m.max_pending && Some(b.block_height) != next_of(m)) {
                    lemma_insert_props(m.pending, b);
                    let m1 = SequencerModel { pending: insert_by_height(m.pending, b), ..m };
                    let ip = m1.pending;
                    assert(next_of(m1) == next_of(m));
                    assert(next_of(m) is Some) by {
                        if next_of(m) is None {
                            assert(m.committed matches Some(w) && w == u64::MAX);
                        }
                    }
                    let n = next_of(m)->0;
                    assert(b.block_height >= n);
                    assert forall|i: int| 0 <= i < ip.len() implies (next_of(m1) matches Some(k) && (#[trigger] ip[i]).block_height
                        >= k) by {
                        if ip[i].block_height != b.block_height {
                            let j = pos_of(m.pending, ip[i].block_height);
                            assert(m.pending[j].block_height > n);
                        }
                    }
                    if m.pending.len() >= m.max_pending {
                        assert(b.block_height == n);
                        assert forall|j: int| 0 <= j < m.pending.len() implies (#[trigger] m.pending[j]).block_height
                            > b.block_height by {}
                        assert(ip[0] == b);
                    }
                    lemma_drain_props(m1);
                    let m2 = drain(m1).0;
                }
            }
        },
        PublicationLane::Provisional => {
            if m.provisional matches Some(w) && b.block_height <= w {
                lemma_retained_step_ok(m, false, source, b);
            } else {
                lemma_retain_ok(m.provisional, m.provisional_retained, b, m.retained_limit);
            }
        },
        _ => {},
    }
}

/// The number of leading commits among decisions.
pub open spec fn leading_commits(ds: Seq<DecisionModel>) -> nat
    decreases ds.len(),
{
    if ds.len() > 0 && ds[0] is Commit {
        1 + leading_commits(ds.drop_first())
    } else {
        0
    }
}

proof fn lemma_drain_contiguous(m: SequencerModel)
    ensures
        ({
            let (m2, ds) = drain(m);
            &&& leading_commits(ds) == ds.len()
            &&& ds.len() > 0 ==> (next_of(m) matches Some(n) && m2.committed == Some((n + ds.len() - 1) as u64)
                && forall|k: int| 0 <= k < ds.len() ==> ((#[trigger] ds[k]) matches DecisionModel::Commit(b)
                && b.block_height == n + k))
            &&& ds.len() == 0 ==> m2 == m
        }),
    decreases m.pending.len(),
{
    match next_of(m) {
        Some(n) => if m.pending.len() > 0 && m.pending[0].block_height == n {
            let b = m.pending[0];
            let m1 = SequencerModel {
                committed: Some(n),
                committed_retained: retain(m.committed_retained, b, m.retained_limit),
                pending: m.pending.drop_first(),
                ..m
            };
            lemma_drain_contiguous(m1);
            let (m2, ds1) = drain(m1);
            let ds = seq![DecisionModel::Commit(b)] + ds1;
            assert(ds.drop_first() =~= ds1);
            assert forall|k: int| 0 <= k < ds.len() implies (#[trigger] ds[k]) matches DecisionModel::Commit(c)
                && c.block_height == n + k by {
                if k > 0 {
                    assert(ds[k] == ds1[k - 1]);
                }
            }
        } else {
        },
        None => {},
    }
}

proof fn lemma_leading_commits_concat(a: Seq<DecisionModel>, b: Seq<DecisionModel>)
    requires
        leading_commits(a) == a.len(),
        b.len() == 0 || !(b[0] is Commit),
    ensures
        leading_commits(a + b) == a.len(),
    decreases a.len(),
{
    if a.len() > 0 {
        assert((a + b).drop_first() =~= a.drop_first() + b);
        lemma_leading_commits_concat(a.drop_first(), b);
    } else {
        assert(a + b =~= b);
    }
}

/// Commits come first among the decisions of a committed observation, at the next height
/// and each one after it, and the committed watermark ends at the last of them.
pub proof fn law_commits_are_contiguous(m: SequencerModel, source: Seq<char>, b: BlockModel)
    requires
        model_ok(m),
    ensures
        committed_step(m, source, b) matches Ok((m2, ds)) ==> {
            let c = leading_commits(ds);
            &&& forall|k: int| c <= k < ds.len() ==> !((#[trigger] ds[k]) is Commit)
            &&& c > 0 ==> (next_of(m) matches Some(n) && m2.committed == Some((n + c - 1) as u64)
                && forall|k: int| 0 <= k < c ==> ((#[trigger] ds[k]) matches DecisionModel::Commit(x)
                && x.block_height == n + k))
            &&& c == 0 ==> m2.committed == m.committed
        },
{
    if m.red is None && !(b.block_height < m.first_height || (m.committed matches Some(w) && b.block_height <= w))
        && !has_height(m.pending, b.block_height) && !(m.pending.len() >= m.max_pending && Some(b.block_height)
        != next_of(m)) {
        let m1 = SequencerModel { pending: insert_by_height(m.pending, b), ..m };
        lemma_drain_contiguous(m1);
        let (m2, commits) = drain(m1);
        let (m3, gaps) = refresh(m2);
        assert(gaps.len() == 0 || gaps[0] is RequestGap);
        lemma_leading_commits_concat(commits, gaps);
        let ds = commits + gaps;
        assert forall|k: int| commits.len() <= k < ds.len() implies !((#[trigger] ds[k]) is Commit) by {
            assert(ds[k] == gaps[k - commits.len()]);
        }
        assert forall|k: int| 0 <= k < commits.len() implies ds[k] == commits[k] by {}
        if ds.len() == 0 {
            assert(leading_commits(seq![DecisionModel::AwaitMoreEvidence]) == 0);
        }
    } else {
        assert forall|x: DecisionModel| !(x is Commit) implies leading_commits(seq![x]) == 0 by {}
    }
}

/// While latched red the sequencer commits nothing: a committed candidate changes nothing
/// and is answered with the incident awaiting an operator.
pub proof fn law_red_sequencer_holds_commits(m: SequencerModel, source: Seq<char>, b: BlockModel, id: Seq<char>)
    requires
        m.red == Some(id),
    ensures
        committed_step(m, source, b) == Ok::<(SequencerModel, Seq<DecisionModel>), StepError>(
            (m, seq![DecisionModel::AwaitOperatorResolution { incident_id: id }]),
        ),
{
}

impl CanonicalSequencer {
    /// Observes a candidate: one of another chain is refused; otherwise the model takes
    /// the step [`observe_step`] describes, and the decisions are its decisions.
    pub fn observe(&mut self, candidate: BlockCandidate) -> (r: Result<Vec<SequencerDecision>, SequencerError>)
        requires
            old(self).wf(),
        ensures
            final(self).wf(),
            candidate.spec_block().chain_id != old(self)@.chain_id ==> (r matches Err(
                SequencerError::ChainMismatch { expected, actual },
            ) && expected@ == old(self)@.chain_id && actual@ == candidate.spec_block().chain_id) && final(self)@
                == old(self)@,
            candidate.spec_block().chain_id == old(self)@.chain_id ==> step_is(
                r,
                old(self)@,
                final(self)@,
                observe_step(
                    old(self)@,
                    candidate.spec_source_id(),
                    candidate.spec_admission(),
                    candidate.spec_block(),
                ),
            ),
    {
        proof {
            law_observation_keeps_invariant(
                self@,
                candidate.spec_source_id(),
                candidate.spec_admission(),
                candidate.spec_block(),
            );
        }
        if !same_text(candidate.block.chain_id.as_str(), self.config.chain_id()) {
            return Err(
                SequencerError::ChainMismatch {
                    expected: owned(self.config.chain_id()),
                    actual: owned(candidate.block.chain_id.as_str()),
                },
            );
        }
        match candidate.admission.publication_lane {
            PublicationLane::CommittedCandidate => self.observe_committed(candidate),
            PublicationLane::Provisional => self.observe_provisional(candidate),
            _ => Err(SequencerError::Candidate(CandidateError::UnsupportedPublicationLane)),
        }
    }
}

/// What the committed pipeline reads of a decision: the heights, the gap, and the reason
/// code of a quarantine.
pub fn decision_kind(d: &SequencerDecision) -> (r: DecisionKind)
    ensures
        match d@ {
            DecisionModel::Commit(b) => r == DecisionKind::Commit { block_height: b.block_height },
            DecisionModel::RecordDuplicate { block_height, .. } => r == DecisionKind::RecordDuplicate { block_height },
            DecisionModel::RequestGap { incident_id, start, end_inclusive } => r matches DecisionKind::RequestGap {
                incident_id: id,
                start: s,
                end_inclusive: e,
            } && id@ == incident_id && s == start && e == end_inclusive,
            DecisionModel::Quarantine(q) => r matches DecisionKind::Quarantine { reason_code } && reason_code@
                == quarantine_reason_code(q.reason),
            DecisionModel::PublishProvisional(_) => r == DecisionKind::PublishProvisional,
            DecisionModel::VerifyHistoricalBlock { .. } => r == DecisionKind::VerifyHistoricalBlock,
            DecisionModel::AwaitOperatorResolution { .. } => r == DecisionKind::AwaitOperatorResolution,
            DecisionModel::AwaitMoreEvidence => r == DecisionKind::AwaitMoreEvidence,
        },
{
    match d {
        SequencerDecision::Commit(b) => DecisionKind::Commit { block_height: b.block_height },
        SequencerDecision::RecordDuplicate { block_height, .. } => DecisionKind::RecordDuplicate {
            block_height: *block_height,
        },
        SequencerDecision::RequestGap { incident_id, start, end_inclusive } => DecisionKind::RequestGap {
            incident_id: owned(incident_id.as_str()),
            start: *start,
            end_inclusive: *end_inclusive,
        },
        SequencerDecision::Quarantine(q) => DecisionKind::Quarantine { reason_code: owned(q.reason().reason_code()) },
        SequencerDecision::PublishProvisional(_) => DecisionKind::PublishProvisional,
        SequencerDecision::VerifyHistoricalBlock { .. } => DecisionKind::VerifyHistoricalBlock,
        SequencerDecision::AwaitOperatorResolution { .. } => DecisionKind::AwaitOperatorResolution,
        SequencerDecision::AwaitMoreEvidence => DecisionKind::AwaitMoreEvidence,
    }
}

} // verus!
