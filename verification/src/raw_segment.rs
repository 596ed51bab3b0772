//! Archiving a closed spool segment into the raw archive and checking the archive against
//! the segment: the batches its records go into, how the records are numbered, and the
//! verification that the archived manifests account for every record of the segment.
use vstd::prelude::*;

use crate::backlog::CursorPolicy;
use crate::config::ObservationClass;
use crate::digest::same_hash;
use crate::node_files::SourceCursor;
use crate::service_errors::{RawSegmentArchiveConfig, RawSegmentArchiveError, raw_archive_config_ok};
use crate::text::{owned, same_text};

verus! {

/// Microseconds in one hour.
pub const MICROS_PER_HOUR: i64 = 3_600_000_000;

/// The hour a record was received in: its receive time in microseconds divided by an hour,
/// rounded toward zero.
pub open spec fn hour_of(wall_micros: i64) -> int {
    if wall_micros >= 0 {
        (wall_micros as int) / 3_600_000_000int
    } else {
        -((-(wall_micros as int)) / 3_600_000_000int)
    }
}

/// What every record of one archive batch shares: its source, the source's version, the
/// observation class, the cursor epoch, the parser schema and the hour it was received in.
#[derive(Debug)]
pub struct RawBatchIdentity {
    pub source_id: String,
    pub source_version: String,
    pub observation_class: ObservationClass,
    pub cursor_epoch: String,
    pub parser_schema_version: String,
    pub received_hour: i64,
}

pub struct IdentityModel {
    pub source_id: Seq<char>,
    pub source_version: Seq<char>,
    pub observation_class: ObservationClass,
    pub cursor_epoch: Seq<char>,
    pub parser_schema_version: Seq<char>,
    pub received_hour: i64,
}

impl View for RawBatchIdentity {
    type V = IdentityModel;

    open spec fn view(&self) -> IdentityModel {
        IdentityModel {
            source_id: self.source_id@,
            source_version: self.source_version@,
            observation_class: self.observation_class,
            cursor_epoch: self.cursor_epoch@,
            parser_schema_version: self.parser_schema_version@,
            received_hour: self.received_hour,
        }
    }
}

impl RawBatchIdentity {
    /// The identity of a record with these fields, received at `wall_micros`.
    pub fn from_parts(
        source_id: &str,
        source_version: &str,
        observation_class: ObservationClass,
        cursor_epoch: &str,
        parser_schema_version: &str,
        wall_micros: i64,
    ) -> (r: Self)
        ensures
            r.source_id@ == source_id@,
            r.source_version@ == source_version@,
            r.observation_class == observation_class,
            r.cursor_epoch@ == cursor_epoch@,
            r.parser_schema_version@ == parser_schema_version@,
            r.received_hour == hour_of(wall_micros),
    {
        let received_hour: i64 = if wall_micros >= 0 {
            wall_micros / MICROS_PER_HOUR
        } else {
            let magnitude: u64 = if wall_micros == i64::MIN {
                9_223_372_036_854_775_808u64
            } else {
                (-wall_micros) as u64
            };
            let hours: u64 = magnitude / 3_600_000_000u64;
            proof {
                assert(hours <= 2_562_047_789u64) by (nonlinear_arith)
                    requires
                        hours == magnitude / 3_600_000_000u64,
                        magnitude <= 9_223_372_036_854_775_808u64,
                ;
            }
            -(hours as i64)
        };
        RawBatchIdentity {
            source_id: owned(source_id),
            source_version: owned(source_version),
            observation_class,
            cursor_epoch: owned(cursor_epoch),
            parser_schema_version: owned(parser_schema_version),
            received_hour,
        }
    }

    /// Whether two records may share a batch.
    pub fn same_as(&self, other: &RawBatchIdentity) -> (r: bool)
        ensures
            r == (self@ == other@),
    {
        same_text(self.source_id.as_str(), other.source_id.as_str()) && same_text(
            self.source_version.as_str(),
            other.source_version.as_str(),
        ) && self.observation_class == other.observation_class && same_text(
            self.cursor_epoch.as_str(),
            other.cursor_epoch.as_str(),
        ) && same_text(self.parser_schema_version.as_str(), other.parser_schema_version.as_str())
            && self.received_hour == other.received_hour
    }

    pub fn copy(&self) -> (r: RawBatchIdentity)
        ensures
            r@ == self@,
    {
        RawBatchIdentity {
            source_id: owned(self.source_id.as_str()),
            source_version: owned(self.source_version.as_str()),
            observation_class: self.observation_class,
            cursor_epoch: owned(self.cursor_epoch.as_str()),
            parser_schema_version: owned(self.parser_schema_version.as_str()),
            received_hour: self.received_hour,
        }
    }
}

/// The first and last local sequence numbers of a run of archived records.
#[derive(Debug, Clone, Copy, PartialEq, Eq, Structural)]
pub struct SequenceRange {
    pub start: u64,
    pub end: u64,
}

/// A record count that runs from `first` to `last`: at least one record, and the last
/// record numbered `count - 1` after the first.
pub open spec fn evidence_ok(first: u64, record_count: u64, last: u64) -> bool {
    record_count != 0 && first + (record_count - 1) == last
}

/// What the spool says of a closed segment: the digests of its manifest and of its bytes,
/// the local sequence numbers of its first and last records, the cursor after its last
/// record, and how many records it holds.
#[derive(Debug)]
pub struct RawSpoolArchiveEvidence {
    manifest_blake3: [u8; 32],
    segment_blake3: [u8; 32],
    first_local_sequence: u64,
    last_cursor: SourceCursor,
    last_local_sequence: u64,
    record_count: u64,
}

pub struct EvidenceModel {
    pub manifest_blake3: [u8; 32],
    pub segment_blake3: [u8; 32],
    pub first: u64,
    pub last_cursor: (Seq<char>, u64),
    pub last: u64,
    pub record_count: u64,
}

impl View for RawSpoolArchiveEvidence {
    type V = EvidenceModel;

    closed spec fn view(&self) -> EvidenceModel {
        EvidenceModel {
            manifest_blake3: self.manifest_blake3,
            segment_blake3: self.segment_blake3,
            first: self.first_local_sequence,
            last_cursor: self.last_cursor@,
            last: self.last_local_sequence,
            record_count: self.record_count,
        }
    }
}

impl RawSpoolArchiveEvidence {
    /// Evidence of a segment, refused unless its record count runs from the first local
    /// sequence to the last.
    pub fn try_new(
        manifest_blake3: [u8; 32],
        segment_blake3: [u8; 32],
        first_local_sequence: u64,
        last_cursor: SourceCursor,
        last_local_sequence: u64,
        record_count: u64,
    ) -> (r: Result<Self, RawSegmentArchiveError>)
        ensures
            evidence_ok(first_local_sequence, record_count, last_local_sequence) ==> (r matches Ok(e)
                && e@ == (EvidenceModel {
                manifest_blake3,
                segment_blake3,
                first: first_local_sequence,
                last_cursor: last_cursor@,
                last: last_local_sequence,
                record_count,
            })),
            !evidence_ok(first_local_sequence, record_count, last_local_sequence) ==> r == Err::<
                Self,
                RawSegmentArchiveError,
            >(RawSegmentArchiveError::VerificationMismatch),
    {
        if record_count == 0 {
            return Err(RawSegmentArchiveError::VerificationMismatch);
        }
        match first_local_sequence.checked_add(record_count - 1) {
            Some(last) if last == last_local_sequence => Ok(RawSpoolArchiveEvidence {
                manifest_blake3,
                segment_blake3,
                first_local_sequence,
                last_cursor,
                last_local_sequence,
                record_count,
            }),
            _ => Err(RawSegmentArchiveError::VerificationMismatch),
        }
    }
}

/// One entry of a raw archive checkpoint: a manifest, its digest and the local sequence
/// range of its records.
#[derive(Debug)]
pub struct CheckpointEntry {
    pub manifest_id: String,
    pub manifest_sha256: [u8; 32],
    pub range: SequenceRange,
}

impl View for CheckpointEntry {
    type V = (Seq<char>, [u8; 32], SequenceRange);

    open spec fn view(&self) -> (Seq<char>, [u8; 32], SequenceRange) {
        (self.manifest_id@, self.manifest_sha256, self.range)
    }
}

impl CheckpointEntry {
    pub fn copy(&self) -> (r: CheckpointEntry)
        ensures
            r@ == self@,
    {
        CheckpointEntry {
            manifest_id: owned(self.manifest_id.as_str()),
            manifest_sha256: self.manifest_sha256,
            range: self.range,
        }
    }
}

pub open spec fn entries_view(v: Seq<CheckpointEntry>) -> Seq<(Seq<char>, [u8; 32], SequenceRange)> {
    v.map_values(|e: CheckpointEntry| e@)
}

pub open spec fn ids_view(v: Seq<String>) -> Seq<Seq<char>> {
    v.map_values(|s: String| s@)
}

/// What verifying an archived segment checks against: the chain and source, the spool's
/// evidence of the segment, the manifests the segment was archived into and, where the
/// archive keeps a checkpoint, its entries.
#[derive(Debug)]
pub struct RawSegmentArchiveVerification {
    chain_id: String,
    source_id: String,
    spool: RawSpoolArchiveEvidence,
    manifest_ids: Vec<String>,
    checkpoint_entries: Option<Vec<CheckpointEntry>>,
}

pub struct VerificationModel {
    pub chain_id: Seq<char>,
    pub source_id: Seq<char>,
    pub spool: EvidenceModel,
    pub manifest_ids: Seq<Seq<char>>,
    pub entries: Option<Seq<(Seq<char>, [u8; 32], SequenceRange)>>,
}

impl View for RawSegmentArchiveVerification {
    type V = VerificationModel;

    closed spec fn view(&self) -> VerificationModel {
        VerificationModel {
            chain_id: self.chain_id@,
            source_id: self.source_id@,
            spool: self.spool@,
            manifest_ids: ids_view(self.manifest_ids@),
            entries: match self.checkpoint_entries {
                Some(es) => Some(entries_view(es@)),
                None => None,
            },
        }
    }
}

impl RawSegmentArchiveVerification {
    /// A verification without checkpoint entries.
    pub fn new(chain_id: String, source_id: String, spool: RawSpoolArchiveEvidence, manifest_ids: Vec<String>) -> (r:
        Self)
        ensures
            r@ == (VerificationModel {
                chain_id: chain_id@,
                source_id: source_id@,
                spool: spool@,
                manifest_ids: ids_view(manifest_ids@),
                entries: None,
            }),
    {
        RawSegmentArchiveVerification { chain_id, source_id, spool, manifest_ids, checkpoint_entries: None }
    }

    /// The same verification, checked against these checkpoint entries too.
    pub fn with_checkpoint_entries(self, entries: Vec<CheckpointEntry>) -> (r: Self)
        ensures
            r@ == (VerificationModel { entries: Some(entries_view(entries@)), ..self@ }),
    {
        RawSegmentArchiveVerification { checkpoint_entries: Some(entries), ..self }
    }

    /// The manifest to verify at `index`, and the sequence range to verify it at where
    /// there are checkpoint entries.
    pub fn manifest_request(&self, index: usize) -> (r: (&str, Option<SequenceRange>))
        requires
            index < self@.manifest_ids.len(),
            entries_consistent(self@),
        ensures
            r.0@ == self@.manifest_ids[index as int],
            r.1 == (match self@.entries {
                Some(es) => Some(es[index as int].2),
                None => None,
            }),
    {
        let id = self.manifest_ids[index].as_str();
        match &self.checkpoint_entries {
            Some(es) => {
                proof {
                    assert(es@.len() == self@.manifest_ids.len());
                }
                (id, Some(es[index].range))
            },
            None => (id, None),
        }
    }
}

/// What the archive reports of one manifest it verified.
#[derive(Debug)]
pub struct VerifiedManifest {
    pub manifest_sha256: [u8; 32],
    pub chain_id: String,
    pub source_id: String,
    pub spool_manifest_blake3: [u8; 32],
    pub spool_segment_blake3: [u8; 32],
    pub cursor_policy: CursorPolicy,
    pub local_sequence_range: Option<SequenceRange>,
    pub cursor: SourceCursor,
}

pub struct VerifiedModel {
    pub manifest_sha256: [u8; 32],
    pub chain_id: Seq<char>,
    pub source_id: Seq<char>,
    pub spool_manifest_blake3: [u8; 32],
    pub spool_segment_blake3: [u8; 32],
    pub cursor_policy: CursorPolicy,
    pub range: Option<SequenceRange>,
    pub cursor: (Seq<char>, u64),
}

impl View for VerifiedManifest {
    type V = VerifiedModel;

    open spec fn view(&self) -> VerifiedModel {
        VerifiedModel {
            manifest_sha256: self.manifest_sha256,
            chain_id: self.chain_id@,
            source_id: self.source_id@,
            spool_manifest_blake3: self.spool_manifest_blake3,
            spool_segment_blake3: self.spool_segment_blake3,
            cursor_policy: self.cursor_policy,
            range: self.local_sequence_range,
            cursor: self.cursor@,
        }
    }
}

/// Manifests to verify, and checkpoint entries, where there are any, that name the same
/// manifests in the same order.
pub open spec fn entries_consistent(v: VerificationModel) -> bool {
    &&& v.manifest_ids.len() > 0
    &&& match v.entries {
        Some(es) => es.len() == v.manifest_ids.len() && forall|i: int|
            0 <= i < es.len() ==> #[trigger] es[i].0 == v.manifest_ids[i],
        None => true,
    }
}

/// Where a verification has got to: how many manifests it checked, the last local sequence
/// and cursor they reached, and how many records they hold.
pub struct VerifierModel {
    pub checked: nat,
    pub last: Option<u64>,
    pub count: u64,
    pub cursor: Option<(Seq<char>, u64)>,
}

pub open spec fn start_state() -> VerifierModel {
    VerifierModel { checked: 0, last: None, count: 0, cursor: None }
}

/// How many records a range holds.
pub open spec fn span(r: SequenceRange) -> int {
    r.end - r.start + 1
}

/// Whether the manifest verified at `index` belongs to the segment: its digest is the
/// checkpoint's, it names the chain, the source and the spool's digests, its records are
/// numbered by byte offset, and it has a nonempty sequence range.
pub open spec fn manifest_belongs(v: VerificationModel, index: int, m: VerifiedModel) -> bool {
    &&& match v.entries {
        Some(es) => m.manifest_sha256 == es[index].1,
        None => true,
    }
    &&& m.chain_id == v.chain_id
    &&& m.source_id == v.source_id
    &&& m.spool_manifest_blake3 == v.spool.manifest_blake3
    &&& m.spool_segment_blake3 == v.spool.segment_blake3
    &&& m.cursor_policy == CursorPolicy::MonotonicByteOffset
    &&& m.range is Some
    &&& m.range->0.start <= m.range->0.end
}

/// One manifest's check: the state after it, or `None` where it does not match.
pub open spec fn manifest_step(v: VerificationModel, s: VerifierModel, m: VerifiedModel) -> Option<VerifierModel> {
    if !manifest_belongs(v, s.checked as int, m) {
        None
    } else {
        let r = m.range->0;
        if (s.last is None && r.start != v.spool.first) || (s.last is Some && s.last->0 + 1 != r.start)
            || s.count + span(r) > u64::MAX {
            None
        } else {
            Some(
                VerifierModel {
                    checked: s.checked + 1,
                    last: Some(r.end),
                    count: (s.count + span(r)) as u64,
                    cursor: Some(m.cursor),
                },
            )
        }
    }
}

/// The state after checking the manifests `ms` in order, or `None` where one did not match.
pub open spec fn run_checks(v: VerificationModel, ms: Seq<VerifiedModel>) -> Option<VerifierModel>
    decreases ms.len(),
{
    if ms.len() == 0 {
        Some(start_state())
    } else {
        match run_checks(v, ms.drop_last()) {
            Some(s) => manifest_step(v, s, ms.last()),
            None => None,
        }
    }
}

/// Whether the checked manifests end where the spool's segment ends and hold as many records.
pub open spec fn finish_ok(v: VerificationModel, s: VerifierModel) -> bool {
    &&& s.last == Some(v.spool.last)
    &&& s.cursor == Some(v.spool.last_cursor)
    &&& s.count == v.spool.record_count
}

/// Whether verifying the segment against these archive reports succeeds.
pub open spec fn verification_passes(v: VerificationModel, ms: Seq<VerifiedModel>) -> bool {
    &&& entries_consistent(v)
    &&& ms.len() == v.manifest_ids.len()
    &&& run_checks(v, ms) is Some
    &&& finish_ok(v, run_checks(v, ms)->0)
}

/// How many records the reported ranges hold together.
pub open spec fn total_records(ms: Seq<VerifiedModel>) -> int
    decreases ms.len(),
{
    if ms.len() == 0 {
        0
    } else {
        total_records(ms.drop_last()) + span(ms.last().range->0)
    }
}

/// Whether the range reported at `i` starts right after the one reported before it.
pub open spec fn chained(ms: Seq<VerifiedModel>, i: int) -> bool {
    ms[i - 1].range->0.end + 1 == ms[i].range->0.start
}

/// The archive's reports account for the spool segment: one report per manifest, each of
/// them belonging to the segment, their ranges following each other from the segment's
/// first local sequence to its last, holding exactly the segment's records, and the last
/// of them ending at the segment's last cursor.
pub open spec fn segment_accounted(v: VerificationModel, ms: Seq<VerifiedModel>) -> bool {
    &&& entries_consistent(v)
    &&& ms.len() == v.manifest_ids.len()
    &&& forall|i: int| 0 <= i < ms.len() ==> manifest_belongs(v, i, #[trigger] ms[i])
    &&& ms[0].range->0.start == v.spool.first
    &&& forall|i: int| 0 < i < ms.len() ==> #[trigger] chained(ms, i)
    &&& total_records(ms) == v.spool.record_count
    &&& ms.last().range->0.end == v.spool.last
    &&& ms.last().cursor == v.spool.last_cursor
}

spec fn prefix_ok(v: VerificationModel, ms: Seq<VerifiedModel>, k: int) -> bool {
    &&& forall|i: int| 0 <= i < k ==> manifest_belongs(v, i, #[trigger] ms[i])
    &&& k > 0 ==> ms[0].range->0.start == v.spool.first
    &&& forall|i: int| 0 < i < k ==> #[trigger] chained(ms, i)
    &&& total_records(ms.take(k)) <= u64::MAX
}

spec fn prefix_state(ms: Seq<VerifiedModel>, k: int) -> VerifierModel {
    VerifierModel {
        checked: k as nat,
        last: if k == 0 {
            None
        } else {
            Some(ms[k - 1].range->0.end)
        },
        count: total_records(ms.take(k)) as u64,
        cursor: if k == 0 {
            None
        } else {
            Some(ms[k - 1].cursor)
        },
    }
}

proof fn lemma_run_checks_prefix(v: VerificationModel, ms: Seq<VerifiedModel>, k: int)
    requires
        0 <= k <= ms.len(),
    ensures
        (run_checks(v, ms.take(k)) is Some) == prefix_ok(v, ms, k),
        prefix_ok(v, ms, k) ==> run_checks(v, ms.take(k)) == Some(prefix_state(ms, k)),
        prefix_ok(v, ms, k) ==> total_records(ms.take(k)) >= 0,
    decreases k,
{
    if k == 0 {
        assert(ms.take(0) =~= Seq::<VerifiedModel>::empty());
    } else {
        lemma_run_checks_prefix(v, ms, k - 1);
        let t = ms.take(k);
        assert(t.drop_last() =~= ms.take(k - 1));
        assert(t.last() == ms[k - 1]);
        assert(total_records(t) == total_records(ms.take(k - 1)) + span(ms[k - 1].range->0));
        if prefix_ok(v, ms, k) {
            assert(manifest_belongs(v, k - 1, ms[k - 1]));
            assert(span(ms[k - 1].range->0) >= 1);
            assert(prefix_ok(v, ms, k - 1));
            if k > 1 {
                assert(chained(ms, k - 1));
            }
        } else if prefix_ok(v, ms, k - 1) {
            let s = prefix_state(ms, k - 1);
            assert(s.checked == k - 1);
            if !manifest_belongs(v, k - 1, ms[k - 1]) {
            } else if k == 1 {
                assert(ms[0].range->0.start != v.spool.first || total_records(t) > u64::MAX);
            } else if !chained(ms, k - 1) {
            } else {
                assert forall|i: int| 0 <= i < k implies manifest_belongs(v, i, #[trigger] ms[i]) by {
                    if i < k - 1 {
                    }
                }
                assert forall|i: int| 0 < i < k implies #[trigger] chained(ms, i) by {
                    if i < k - 1 {
                    }
                }
                assert(total_records(t) > u64::MAX);
            }
        }
    }
}

/// Verifying a segment succeeds exactly when the archive's reports account for it: every
/// manifest belongs to the segment, their ranges run on from the segment's first record to
/// its last without a gap or overlap, they hold exactly the segment's records, and the
/// last of them ends at the segment's last cursor.
pub proof fn law_verification_is_exact(v: VerificationModel, ms: Seq<VerifiedModel>)
    ensures
        verification_passes(v, ms) == segment_accounted(v, ms),
{
    if ms.len() == v.manifest_ids.len() && entries_consistent(v) {
        lemma_run_checks_prefix(v, ms, ms.len() as int);
        assert(ms.take(ms.len() as int) =~= ms);
        if segment_accounted(v, ms) {
            assert(prefix_ok(v, ms, ms.len() as int));
        }
    }
}

/// A verification under way.
#[derive(Debug)]
pub struct SegmentVerifier {
    checked: usize,
    last_sequence: Option<u64>,
    record_count: u64,
    last_cursor: Option<SourceCursor>,
}

impl View for SegmentVerifier {
    type V = VerifierModel;

    closed spec fn view(&self) -> VerifierModel {
        VerifierModel {
            checked: self.checked as nat,
            last: self.last_sequence,
            count: self.record_count,
            cursor: match self.last_cursor {
                Some(c) => Some(c@),
                None => None,
            },
        }
    }
}

/// Begins verifying a segment: refused unless there is a manifest to verify and the
/// checkpoint entries, where there are any, name the same manifests in the same order.
pub fn start_verification(v: &RawSegmentArchiveVerification) -> (r: Result<SegmentVerifier, RawSegmentArchiveError>)
    ensures
        entries_consistent(v@) ==> (r matches Ok(s) && s@ == start_state()),
        !entries_consistent(v@) ==> r == Err::<SegmentVerifier, RawSegmentArchiveError>(
            RawSegmentArchiveError::VerificationMismatch,
        ),
{
    if v.manifest_ids.len() == 0 {
        return Err(RawSegmentArchiveError::VerificationMismatch);
    }
    if let Some(es) = &v.checkpoint_entries {
        if es.len() != v.manifest_ids.len() {
            return Err(RawSegmentArchiveError::VerificationMismatch);
        }
        let mut i: usize = 0;
        while i < es.len()
            invariant
                i <= es.len(),
                es.len() == v.manifest_ids.len(),
                v@.entries == Some(entries_view(es@)),
                v@.manifest_ids == ids_view(v.manifest_ids@),
                forall|j: int| 0 <= j < i ==> #[trigger] entries_view(es@)[j].0 == v@.manifest_ids[j],
            decreases es.len() - i,
        {
            if !same_text(es[i].manifest_id.as_str(), v.manifest_ids[i].as_str()) {
                proof {
                    assert(entries_view(es@)[i as int].0 != v@.manifest_ids[i as int]);
                }
                return Err(RawSegmentArchiveError::VerificationMismatch);
            }
            i = i + 1;
        }
    }
    Ok(SegmentVerifier { checked: 0, last_sequence: None, record_count: 0, last_cursor: None })
}

impl SegmentVerifier {
    /// Checks the next manifest's report: the state after it, or a mismatch.
    pub fn check(self, v: &RawSegmentArchiveVerification, m: &VerifiedManifest) -> (r: Result<
        SegmentVerifier,
        RawSegmentArchiveError,
    >)
        requires
            entries_consistent(v@),
            self@.checked < v@.manifest_ids.len(),
        ensures
            match manifest_step(v@, self@, m@) {
                Some(n) => r matches Ok(s) && s@ == n,
                None => r == Err::<SegmentVerifier, RawSegmentArchiveError>(
                    RawSegmentArchiveError::VerificationMismatch,
                ),
            },
    {
        let index = self.checked;
        proof {
            assert(ids_view(v.manifest_ids@).len() == v.manifest_ids@.len());
            assert(index < v.manifest_ids.len());
        }
        if let Some(es) = &v.checkpoint_entries {
            proof {
                assert(es@.len() == v@.manifest_ids.len());
                assert(entries_view(es@)[index as int] == es@[index as int]@);
            }
            if !same_hash(&m.manifest_sha256, &es[index].manifest_sha256) {
                return Err(RawSegmentArchiveError::VerificationMismatch);
            }
        }
        if !same_text(m.chain_id.as_str(), v.chain_id.as_str()) || !same_text(
            m.source_id.as_str(),
            v.source_id.as_str(),
        ) || !same_hash(&m.spool_manifest_blake3, &v.spool.manifest_blake3) || !same_hash(
            &m.spool_segment_blake3,
            &v.spool.segment_blake3,
        ) {
            return Err(RawSegmentArchiveError::VerificationMismatch);
        }
        match m.cursor_policy {
            CursorPolicy::MonotonicByteOffset => {},
            CursorPolicy::ContiguousNativeOffset => {
                return Err(RawSegmentArchiveError::VerificationMismatch);
            },
        }
        let range = match m.local_sequence_range {
            Some(range) => range,
            None => {
                return Err(RawSegmentArchiveError::VerificationMismatch);
            },
        };
        match self.last_sequence {
            None => {
                if range.start != v.spool.first_local_sequence {
                    return Err(RawSegmentArchiveError::VerificationMismatch);
                }
            },
            Some(previous) => {
                if previous == u64::MAX || previous + 1 != range.start {
                    return Err(RawSegmentArchiveError::VerificationMismatch);
                }
            },
        }
        if range.end < range.start {
            return Err(RawSegmentArchiveError::VerificationMismatch);
        }
        let delta = range.end - range.start;
        if delta == u64::MAX {
            return Err(RawSegmentArchiveError::VerificationMismatch);
        }
        let count = match self.record_count.checked_add(delta + 1) {
            Some(count) => count,
            None => {
                return Err(RawSegmentArchiveError::VerificationMismatch);
            },
        };
        Ok(
            SegmentVerifier {
                checked: index + 1,
                last_sequence: Some(range.end),
                record_count: count,
                last_cursor: Some(m.cursor.copy()),
            },
        )
    }

    /// Ends a verification: refused unless the checked manifests end at the segment's last
    /// local sequence and cursor and hold as many records as the segment.
    pub fn finish(&self, v: &RawSegmentArchiveVerification) -> (r: Result<(), RawSegmentArchiveError>)
        ensures
            finish_ok(v@, self@) ==> r is Ok,
            !finish_ok(v@, self@) ==> r == Err::<(), RawSegmentArchiveError>(
                RawSegmentArchiveError::VerificationMismatch,
            ),
    {
        let last_ok = match self.last_sequence {
            Some(last) => last == v.spool.last_local_sequence,
            None => false,
        };
        let cursor_ok = match &self.last_cursor {
            Some(c) => c.same_as(&v.spool.last_cursor),
            None => false,
        };
        if !last_ok || !cursor_ok || self.record_count != v.spool.record_count {
            return Err(RawSegmentArchiveError::VerificationMismatch);
        }
        Ok(())
    }
}

/// Whether two lists of checkpoint entries are the same.
pub fn same_entries(a: &Vec<CheckpointEntry>, b: &Vec<CheckpointEntry>) -> (r: bool)
    ensures
        r == (entries_view(a@) == entries_view(b@)),
{
    if a.len() != b.len() {
        proof {
            assert(entries_view(a@).len() != entries_view(b@).len());
        }
        return false;
    }
    let mut i: usize = 0;
    while i < a.len()
        invariant
            i <= a.len(),
            a.len() == b.len(),
            forall|j: int| 0 <= j < i ==> #[trigger] entries_view(a@)[j] == entries_view(b@)[j],
        decreases a.len() - i,
    {
        if !same_text(a[i].manifest_id.as_str(), b[i].manifest_id.as_str()) || !same_hash(
            &a[i].manifest_sha256,
            &b[i].manifest_sha256,
        ) || a[i].range != b[i].range {
            proof {
                assert(entries_view(a@)[i as int] != entries_view(b@)[i as int]);
            }
            return false;
        }
        i = i + 1;
    }
    proof {
        assert(entries_view(a@) =~= entries_view(b@));
    }
    true
}

/// The last check of a verification with checkpoint entries: the archive's current
/// checkpoint (`None` where it has none, or one of the older format) holds these entries.
pub fn checkpoint_matches(loaded: Option<&Vec<CheckpointEntry>>, entries: &Vec<CheckpointEntry>) -> (r: Result<
    (),
    RawSegmentArchiveError,
>)
    ensures
        match loaded {
            Some(l) => entries_view(l@) == entries_view(entries@),
            None => false,
        } ==> r is Ok,
        !match loaded {
            Some(l) => entries_view(l@) == entries_view(entries@),
            None => false,
        } ==> r == Err::<(), RawSegmentArchiveError>(RawSegmentArchiveError::VerificationMismatch),
{
    match loaded {
        Some(l) => {
            if same_entries(l, entries) {
                Ok(())
            } else {
                Err(RawSegmentArchiveError::VerificationMismatch)
            }
        },
        None => Err(RawSegmentArchiveError::VerificationMismatch),
    }
}

/// Where archiving a segment has got to: the open batch (its records, bytes, identity and
/// first local sequence), the last local sequence given out, how many records and batches
/// there were, and the manifests and checkpoint entries of the archived batches.
pub struct ArchiverModel {
    pub max_records: usize,
    pub max_bytes: u64,
    pub policy: CursorPolicy,
    pub first: Option<u64>,
    pub records: nat,
    pub bytes: u64,
    pub identity: Option<IdentityModel>,
    pub batch_first: Option<u64>,
    pub last: Option<u64>,
    pub count: u64,
    pub batches: u64,
    pub manifest_ids: Seq<Seq<char>>,
    pub entries: Seq<(Seq<char>, [u8; 32], SequenceRange)>,
}

/// Whether the open batch must be archived before a record of this identity and payload
/// size joins: it holds records, and the record has another identity, or the batch is full,
/// or the record's payload would take it over its byte limit.
pub open spec fn flush_needed(a: ArchiverModel, id: IdentityModel, payload_bytes: u64) -> bool {
    a.records > 0 && (a.identity != Some(id) || a.records >= a.max_records || a.bytes + payload_bytes
        > a.max_bytes)
}

/// The local sequence number of the next record: none where the segment's cursors are
/// native offsets; else the segment's first for its first record and the successor of the
/// last one after that.
pub open spec fn next_sequence(a: ArchiverModel) -> Option<u64> {
    match a.policy {
        CursorPolicy::ContiguousNativeOffset => None,
        CursorPolicy::MonotonicByteOffset => match a.last {
            Some(p) => Some((p + 1) as u64),
            None => a.first,
        },
    }
}

/// Archiving a closed spool segment: records go into batches of one identity, each within
/// the configured record and byte limits, and with byte-offset cursors each record gets the
/// next local sequence number.
#[derive(Debug)]
pub struct SegmentArchiver {
    max_records: usize,
    max_bytes: u64,
    policy: CursorPolicy,
    first_local_sequence: Option<u64>,
    batch_records: usize,
    batch_bytes: u64,
    batch_identity: Option<RawBatchIdentity>,
    batch_first_sequence: Option<u64>,
    last_local_sequence: Option<u64>,
    observation_count: u64,
    batch_count: u64,
    manifest_ids: Vec<String>,
    checkpoint_entries: Vec<CheckpointEntry>,
}

impl View for SegmentArchiver {
    type V = ArchiverModel;

    closed spec fn view(&self) -> ArchiverModel {
        ArchiverModel {
            max_records: self.max_records,
            max_bytes: self.max_bytes,
            policy: self.policy,
            first: self.first_local_sequence,
            records: self.batch_records as nat,
            bytes: self.batch_bytes,
            identity: match self.batch_identity {
                Some(i) => Some(i@),
                None => None,
            },
            batch_first: self.batch_first_sequence,
            last: self.last_local_sequence,
            count: self.observation_count,
            batches: self.batch_count,
            manifest_ids: ids_view(self.manifest_ids@),
            entries: entries_view(self.checkpoint_entries@),
        }
    }
}

impl SegmentArchiver {
    /// The archiver's invariant: the open batch is within the record limit, holds more than
    /// one record only within the byte limit, and has an identity once it holds a record;
    /// with byte-offset cursors the records so far are numbered on from the segment's first
    /// local sequence, and with native offsets none is numbered.
    pub closed spec fn wf(&self) -> bool {
        let a = self@;
        &&& 1 <= a.max_records
        &&& a.records <= a.max_records
        &&& a.records >= 2 ==> a.bytes <= a.max_bytes
        &&& a.records > 0 ==> a.identity is Some
        &&& a.records <= a.count
        &&& a.policy == CursorPolicy::MonotonicByteOffset ==> a.first is Some && (a.count == 0 ==> a.last is None)
            && (a.count > 0 ==> a.last is Some && a.last->0 == a.first->0 + a.count - 1)
        &&& a.policy == CursorPolicy::ContiguousNativeOffset ==> a.last is None
    }

    /// An archiver's open batch keeps within the record limit, holds more than one record
    /// only within the byte limit, and with byte-offset cursors the records so far are
    /// numbered on from the segment's first local sequence without a gap.
    pub proof fn law_batches_and_numbering(&self)
        requires
            self.wf(),
        ensures
            self@.records <= self@.max_records,
            self@.records >= 2 ==> self@.bytes <= self@.max_bytes,
            self@.policy == CursorPolicy::MonotonicByteOffset && self@.count > 0 ==> self@.last is Some
                && self@.last->0 == self@.first->0 + self@.count - 1,
            self@.policy == CursorPolicy::ContiguousNativeOffset ==> self@.last is None,
    {
    }

    /// Begins archiving a segment whose manifest names this cursor policy (native offsets
    /// where it names none) and first local sequence; refused where the records are
    /// numbered by byte offset and the manifest gives no first local sequence.
    pub fn open(
        config: RawSegmentArchiveConfig,
        manifest_policy: Option<CursorPolicy>,
        manifest_first_sequence: Option<u64>,
    ) -> (r: Result<Self, RawSegmentArchiveError>)
        requires
            raw_archive_config_ok(config.spec_max_payload(), config.spec_max_records(), config.spec_max_bytes()),
        ensures
            ({
                let policy = match manifest_policy {
                    Some(p) => p,
                    None => CursorPolicy::ContiguousNativeOffset,
                };
                if policy == CursorPolicy::MonotonicByteOffset && manifest_first_sequence is None {
                    r == Err::<Self, RawSegmentArchiveError>(RawSegmentArchiveError::VerificationMismatch)
                } else {
                    r matches Ok(a) && a.wf() && a@ == (ArchiverModel {
                        max_records: config.spec_max_records(),
                        max_bytes: config.spec_max_bytes(),
                        policy,
                        first: if policy == CursorPolicy::MonotonicByteOffset {
                            manifest_first_sequence
                        } else {
                            None
                        },
                        records: 0,
                        bytes: 0,
                        identity: None,
                        batch_first: None,
                        last: None,
                        count: 0,
                        batches: 0,
                        manifest_ids: Seq::empty(),
                        entries: Seq::empty(),
                    })
                }
            }),
    {
        let policy = match manifest_policy {
            Some(p) => p,
            None => CursorPolicy::ContiguousNativeOffset,
        };
        let first = match policy {
            CursorPolicy::ContiguousNativeOffset => None,
            CursorPolicy::MonotonicByteOffset => match manifest_first_sequence {
                Some(f) => Some(f),
                None => {
                    return Err(RawSegmentArchiveError::VerificationMismatch);
                },
            },
        };
        let max_records = config.max_batch_records();
        let max_bytes = config.max_batch_bytes();
        let a = SegmentArchiver {
            max_records,
            max_bytes,
            policy,
            first_local_sequence: first,
            batch_records: 0,
            batch_bytes: 0,
            batch_identity: None,
            batch_first_sequence: None,
            last_local_sequence: None,
            observation_count: 0,
            batch_count: 0,
            manifest_ids: Vec::new(),
            checkpoint_entries: Vec::new(),
        };
        proof {
            assert(ids_view(a.manifest_ids@) =~= Seq::<Seq<char>>::empty());
            assert(entries_view(a.checkpoint_entries@) =~= Seq::<(Seq<char>, [u8; 32], SequenceRange)>::empty());
        }
        Ok(a)
    }

    /// Whether the open batch must be archived before the next record joins; refused where
    /// the batch's byte count would overflow.
    pub fn must_flush(&self, identity: &RawBatchIdentity, payload_bytes: u64) -> (r: Result<bool, RawSegmentArchiveError>)
        ensures
            self@.bytes + payload_bytes > u64::MAX ==> r == Err::<bool, RawSegmentArchiveError>(
                RawSegmentArchiveError::SizeOverflow,
            ),
            self@.bytes + payload_bytes <= u64::MAX ==> r == Ok::<bool, RawSegmentArchiveError>(
                flush_needed(self@, identity@, payload_bytes),
            ),
    {
        let next = match self.batch_bytes.checked_add(payload_bytes) {
            Some(next) => next,
            None => {
                return Err(RawSegmentArchiveError::SizeOverflow);
            },
        };
        if self.batch_records == 0 {
            return Ok(false);
        }
        let same = match &self.batch_identity {
            Some(current) => current.same_as(identity),
            None => false,
        };
        Ok(!same || self.batch_records >= self.max_records || next > self.max_bytes)
    }

    /// How many records the open batch holds.
    pub fn batch_records(&self) -> (r: usize)
        ensures
            r == self@.records,
    {
        self.batch_records
    }

    /// The local sequence number of the open batch's first record.
    pub fn batch_first_sequence(&self) -> (r: Option<u64>)
        ensures
            r == self@.batch_first,
    {
        self.batch_first_sequence
    }

    /// The next record joins the open batch: it gets the next local sequence number, which
    /// is returned; refused where that number or the record count overflows.
    pub fn push(&mut self, identity: &RawBatchIdentity, payload_bytes: u64) -> (r: Result<
        Option<u64>,
        RawSegmentArchiveError,
    >)
        requires
            old(self).wf(),
            !flush_needed(old(self)@, identity@, payload_bytes),
            old(self)@.bytes + payload_bytes <= u64::MAX,
        ensures
            ({
                let a = old(self)@;
                if a.policy == CursorPolicy::MonotonicByteOffset && a.last is Some && a.last->0 == u64::MAX {
                    r matches Err(RawSegmentArchiveError::Archive { reason_code }) && reason_code@
                        == "capture_raw_archive.sequence_overflow"@
                } else if a.count == u64::MAX {
                    r == Err::<Option<u64>, RawSegmentArchiveError>(RawSegmentArchiveError::SizeOverflow)
                } else {
                    &&& r == Ok::<Option<u64>, RawSegmentArchiveError>(next_sequence(a))
                    &&& final(self).wf()
                    &&& final(self)@ == (ArchiverModel {
                        records: a.records + 1,
                        bytes: (a.bytes + payload_bytes) as u64,
                        identity: if a.records == 0 {
                            Some(identity@)
                        } else {
                            a.identity
                        },
                        batch_first: if a.records == 0 {
                            next_sequence(a)
                        } else {
                            a.batch_first
                        },
                        last: next_sequence(a),
                        count: (a.count + 1) as u64,
                        ..a
                    })
                }
            }),
    {
        let sequence = match self.policy {
            CursorPolicy::ContiguousNativeOffset => None,
            CursorPolicy::MonotonicByteOffset => match self.last_local_sequence {
                Some(previous) => {
                    if previous == u64::MAX {
                        return Err(RawSegmentArchiveError::Archive { reason_code: owned("capture_raw_archive.sequence_overflow") });
                    }
                    Some(previous + 1)
                },
                None => self.first_local_sequence,
            },
        };
        if self.observation_count == u64::MAX {
            return Err(RawSegmentArchiveError::SizeOverflow);
        }
        if self.batch_records == 0 {
            self.batch_identity = Some(identity.copy());
            self.batch_first_sequence = sequence;
        }
        self.batch_bytes = self.batch_bytes + payload_bytes;
        self.batch_records = self.batch_records + 1;
        self.last_local_sequence = sequence;
        self.observation_count = self.observation_count + 1;
        proof {
            let a = old(self)@;
            assert(sequence == next_sequence(a));
            assert(self@.identity == (if a.records == 0 { Some(identity@) } else { a.identity }));
            assert(self@.manifest_ids == a.manifest_ids);
            assert(self@.entries == a.entries);
            assert(self.wf());
        }
        Ok(sequence)
    }

    /// The open batch was archived as this manifest, with this digest and local sequence
    /// range: the manifest is recorded, with a checkpoint entry where it has a range, and a
    /// new batch opens. Refused where a manifest without a range follows checkpoint entries,
    /// or the batch count overflows.
    pub fn record_batch(&mut self, manifest_id: String, manifest_sha256: [u8; 32], range: Option<SequenceRange>) -> (r:
        Result<(), RawSegmentArchiveError>)
        requires
            old(self).wf(),
        ensures
            ({
                let a = old(self)@;
                if range is None && a.entries.len() > 0 {
                    r == Err::<(), RawSegmentArchiveError>(RawSegmentArchiveError::VerificationMismatch)
                } else if a.batches == u64::MAX {
                    r == Err::<(), RawSegmentArchiveError>(RawSegmentArchiveError::SizeOverflow)
                } else {
                    &&& r is Ok
                    &&& final(self).wf()
                    &&& final(self)@ == (ArchiverModel {
                        records: 0,
                        bytes: 0,
                        batches: (a.batches + 1) as u64,
                        manifest_ids: a.manifest_ids.push(manifest_id@),
                        entries: match range {
                            Some(rg) => a.entries.push((manifest_id@, manifest_sha256, rg)),
                            None => a.entries,
                        },
                        ..a
                    })
                }
            }),
    {
        let ghost a = self@;
        if range.is_none() && self.checkpoint_entries.len() > 0 {
            return Err(RawSegmentArchiveError::VerificationMismatch);
        }
        if self.batch_count == u64::MAX {
            return Err(RawSegmentArchiveError::SizeOverflow);
        }
        if let Some(rg) = range {
            self.checkpoint_entries.push(
                CheckpointEntry { manifest_id: owned(manifest_id.as_str()), manifest_sha256, range: rg },
            );
        }
        self.manifest_ids.push(manifest_id);
        self.batch_count = self.batch_count + 1;
        self.batch_records = 0;
        self.batch_bytes = 0;
        proof {
            assert(ids_view(self.manifest_ids@) =~= a.manifest_ids.push(manifest_id@));
            match range {
                Some(rg) => {
                    assert(entries_view(self.checkpoint_entries@) =~= a.entries.push((manifest_id@, manifest_sha256, rg)));
                },
                None => {
                    assert(entries_view(self.checkpoint_entries@) =~= a.entries);
                },
            }
        }
        Ok(())
    }

    /// Ends archiving once every batch is archived: refused unless the records numbered as
    /// many as the segment's manifest says and, with byte-offset cursors, the last of them
    /// got the manifest's last local sequence.
    pub fn finish(self, manifest_record_count: u64, manifest_last_sequence: Option<u64>) -> (r: Result<
        RawSegmentArchiveSummary,
        RawSegmentArchiveError,
    >)
        requires
            self.wf(),
        ensures
            ({
                let a = self@;
                if a.count != manifest_record_count || (a.policy == CursorPolicy::MonotonicByteOffset && a.last
                    != manifest_last_sequence) {
                    r == Err::<RawSegmentArchiveSummary, RawSegmentArchiveError>(
                        RawSegmentArchiveError::VerificationMismatch,
                    )
                } else {
                    r matches Ok(summary) && summary@ == (SummaryModel {
                        observation_count: a.count,
                        batch_count: a.batches,
                        manifest_ids: a.manifest_ids,
                        entries: a.entries,
                    })
                }
            }),
    {
        if self.observation_count != manifest_record_count {
            return Err(RawSegmentArchiveError::VerificationMismatch);
        }
        match self.policy {
            CursorPolicy::MonotonicByteOffset => {
                if self.last_local_sequence != manifest_last_sequence {
                    return Err(RawSegmentArchiveError::VerificationMismatch);
                }
            },
            CursorPolicy::ContiguousNativeOffset => {},
        }
        Ok(
            RawSegmentArchiveSummary {
                observation_count: self.observation_count,
                batch_count: self.batch_count,
                manifest_ids: self.manifest_ids,
                checkpoint_entries: self.checkpoint_entries,
            },
        )
    }
}

/// Whether the archive's report of a batch it just wrote matches the batch: the spool's
/// digests, the chain and source, and the batch's cursor policy and local sequence range.
pub fn check_batch_receipt(
    verified: &VerifiedManifest,
    chain_id: &str,
    source_id: &str,
    spool_manifest_blake3: &[u8; 32],
    spool_segment_blake3: &[u8; 32],
    policy: CursorPolicy,
    range: Option<SequenceRange>,
) -> (r: Result<(), RawSegmentArchiveError>)
    ensures
        ({
            let m = verified@;
            m.spool_manifest_blake3 == *spool_manifest_blake3 && m.spool_segment_blake3 == *spool_segment_blake3
                && m.chain_id == chain_id@ && m.source_id == source_id@ && m.cursor_policy == policy && m.range
                == range
        }) ==> r is Ok,
        !({
            let m = verified@;
            m.spool_manifest_blake3 == *spool_manifest_blake3 && m.spool_segment_blake3 == *spool_segment_blake3
                && m.chain_id == chain_id@ && m.source_id == source_id@ && m.cursor_policy == policy && m.range
                == range
        }) ==> r == Err::<(), RawSegmentArchiveError>(RawSegmentArchiveError::VerificationMismatch),
{
    if !same_hash(&verified.spool_manifest_blake3, spool_manifest_blake3) || !same_hash(
        &verified.spool_segment_blake3,
        spool_segment_blake3,
    ) || !same_text(verified.chain_id.as_str(), chain_id) || !same_text(verified.source_id.as_str(), source_id)
        || verified.cursor_policy != policy || verified.local_sequence_range != range {
        return Err(RawSegmentArchiveError::VerificationMismatch);
    }
    Ok(())
}

/// What archiving a segment produced: how many records and batches, the manifests of the
/// batches in order, and their checkpoint entries.
#[derive(Debug)]
pub struct RawSegmentArchiveSummary {
    observation_count: u64,
    batch_count: u64,
    manifest_ids: Vec<String>,
    checkpoint_entries: Vec<CheckpointEntry>,
}

pub struct SummaryModel {
    pub observation_count: u64,
    pub batch_count: u64,
    pub manifest_ids: Seq<Seq<char>>,
    pub entries: Seq<(Seq<char>, [u8; 32], SequenceRange)>,
}

impl View for RawSegmentArchiveSummary {
    type V = SummaryModel;

    closed spec fn view(&self) -> SummaryModel {
        SummaryModel {
            observation_count: self.observation_count,
            batch_count: self.batch_count,
            manifest_ids: ids_view(self.manifest_ids@),
            entries: entries_view(self.checkpoint_entries@),
        }
    }
}

impl RawSegmentArchiveSummary {
    pub fn observation_count(&self) -> (r: u64)
        ensures
            r == self@.observation_count,
    {
        self.observation_count
    }

    pub fn batch_count(&self) -> (r: u64)
        ensures
            r == self@.batch_count,
    {
        self.batch_count
    }

    pub fn manifest_ids(&self) -> (r: &[String])
        ensures
            ids_view(r@) == self@.manifest_ids,
    {
        self.manifest_ids.as_slice()
    }

    /// The checkpoint entries of the archived batches: none where no batch had a range, and
    /// refused where only some of them had one.
    pub fn checkpoint_entries(&self) -> (r: Result<Option<Vec<CheckpointEntry>>, RawSegmentArchiveError>)
        ensures
            self@.entries.len() == 0 ==> r matches Ok(None),
            self@.entries.len() > 0 && self@.entries.len() != self@.manifest_ids.len() ==> r == Err::<
                Option<Vec<CheckpointEntry>>,
                RawSegmentArchiveError,
            >(RawSegmentArchiveError::VerificationMismatch),
            self@.entries.len() > 0 && self@.entries.len() == self@.manifest_ids.len() ==> (r matches Ok(Some(es))
                && entries_view(es@) == self@.entries),
    {
        if self.checkpoint_entries.len() == 0 {
            return Ok(None);
        }
        if self.checkpoint_entries.len() != self.manifest_ids.len() {
            return Err(RawSegmentArchiveError::VerificationMismatch);
        }
        let mut out: Vec<CheckpointEntry> = Vec::new();
        let mut i: usize = 0;
        while i < self.checkpoint_entries.len()
            invariant
                i <= self.checkpoint_entries.len(),
                entries_view(out@) == entries_view(self.checkpoint_entries@).take(i as int),
            decreases self.checkpoint_entries.len() - i,
        {
            let e = self.checkpoint_entries[i].copy();
            let ghost prev = out@;
            out.push(e);
            proof {
                assert(entries_view(out@) =~= entries_view(prev).push(e@));
                assert(entries_view(out@) =~= entries_view(self.checkpoint_entries@).take(i + 1));
            }
            i = i + 1;
        }
        proof {
            assert(entries_view(self.checkpoint_entries@).take(i as int) =~= entries_view(self.checkpoint_entries@));
        }
        Ok(Some(out))
    }
}

} // verus!
