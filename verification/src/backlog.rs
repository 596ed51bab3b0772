//! Replaying a source's spool backlog in order: which segment to open next, what each
//! read record means against the expected position, and when the backlog has caught up.
//! The caller reads the spool; these machines decide.

use vstd::prelude::*;

use crate::text::{byte_len, has_control, owned, trimmed};

verus! {

/// The longest source version a backlog accepts, in bytes.
pub const MAX_BACKLOG_IDENTITY_BYTES: usize = 256;

/// Why a backlog step failed.
#[derive(Debug, Clone, PartialEq, Eq)]
pub enum BacklogError {
    InvalidConfig,
    /// The spool itself failed, with the spool's reason code.
    Spool { reason_code: String },
    /// A closed segment ends with an incomplete record.
    IncompleteTail { record_offset: u64 },
    SourceMismatch,
    CursorPolicyMismatch,
    Observation,
    PendingAcknowledgement,
    AcknowledgementMismatch,
    OffsetOverflow,
    SequenceOverflow,
    Gap { expected: u64, observed: u64 },
    SequenceGap { expected: u64, observed: u64 },
    InvalidState,
}

pub open spec fn backlog_reason(e: BacklogError) -> Seq<char> {
    match e {
        BacklogError::InvalidConfig => "capture_backlog.invalid_config"@,
        BacklogError::Spool { reason_code } => reason_code@,
        BacklogError::IncompleteTail { .. } => "spool.incomplete_tail"@,
        BacklogError::SourceMismatch => "capture_backlog.source_mismatch"@,
        BacklogError::CursorPolicyMismatch => "capture_backlog.cursor_policy_mismatch"@,
        BacklogError::Observation => "capture_backlog.observation"@,
        BacklogError::PendingAcknowledgement => "capture_backlog.pending_acknowledgement"@,
        BacklogError::AcknowledgementMismatch => "capture_backlog.acknowledgement_mismatch"@,
        BacklogError::OffsetOverflow => "capture_backlog.offset_overflow"@,
        BacklogError::SequenceOverflow => "capture_backlog.sequence_overflow"@,
        BacklogError::Gap { .. } => "capture_backlog.gap"@,
        BacklogError::SequenceGap { .. } => "capture_backlog.sequence_gap"@,
        BacklogError::InvalidState => "capture_backlog.invalid_state"@,
    }
}

impl BacklogError {
    pub fn reason_code(&self) -> (r: String)
        ensures
            r@ == backlog_reason(*self),
    {
        match self {
            BacklogError::InvalidConfig => owned("capture_backlog.invalid_config"),
            BacklogError::Spool { reason_code } => owned(reason_code.as_str()),
            BacklogError::IncompleteTail { .. } => owned("spool.incomplete_tail"),
            BacklogError::SourceMismatch => owned("capture_backlog.source_mismatch"),
            BacklogError::CursorPolicyMismatch => owned("capture_backlog.cursor_policy_mismatch"),
            BacklogError::Observation => owned("capture_backlog.observation"),
            BacklogError::PendingAcknowledgement => owned("capture_backlog.pending_acknowledgement"),
            BacklogError::AcknowledgementMismatch => owned("capture_backlog.acknowledgement_mismatch"),
            BacklogError::OffsetOverflow => owned("capture_backlog.offset_overflow"),
            BacklogError::SequenceOverflow => owned("capture_backlog.sequence_overflow"),
            BacklogError::Gap { .. } => owned("capture_backlog.gap"),
            BacklogError::SequenceGap { .. } => owned("capture_backlog.sequence_gap"),
            BacklogError::InvalidState => owned("capture_backlog.invalid_state"),
        }
    }
}

/// A backlog's source version must be a non-empty, unpadded, control-free identity of
/// at most 256 bytes, and its payload limit nonzero.
pub open spec fn backlog_config_ok(source_version: Seq<char>, max_payload_bytes: usize) -> bool {
    &&& source_version.len() > 0
    &&& trimmed(source_version)
    &&& byte_len(source_version) <= MAX_BACKLOG_IDENTITY_BYTES
    &&& !has_control(source_version)
    &&& max_payload_bytes > 0
}

pub fn validate_config(source_version: &str, max_payload_bytes: usize) -> (r: Result<(), BacklogError>)
    ensures
        r is Ok <==> backlog_config_ok(source_version@, max_payload_bytes),
        r is Err ==> r == Err::<(), BacklogError>(BacklogError::InvalidConfig),
{
    if !crate::text::valid_identity(source_version, MAX_BACKLOG_IDENTITY_BYTES) || max_payload_bytes == 0 {
        return Err(BacklogError::InvalidConfig);
    }
    Ok(())
}

/// How a spool segment orders its records' cursors.
#[derive(Debug, Clone, Copy, PartialEq, Eq, Structural)]
pub enum CursorPolicy {
    ContiguousNativeOffset,
    MonotonicByteOffset,
}

/// Whether a segment's header names this source and cursor policy.
pub fn validate_reader(
    header_source_id: &str,
    header_source_version: &str,
    header_policy: CursorPolicy,
    source_id: &str,
    source_version: &str,
    policy: CursorPolicy,
) -> (r: Result<(), BacklogError>)
    ensures
        (header_source_id@ != source_id@ || header_source_version@ != source_version@) ==> r == Err::<
            (),
            BacklogError,
        >(BacklogError::SourceMismatch),
        (header_source_id@ == source_id@ && header_source_version@ == source_version@ && header_policy != policy)
            ==> r == Err::<(), BacklogError>(BacklogError::CursorPolicyMismatch),
        (header_source_id@ == source_id@ && header_source_version@ == source_version@ && header_policy == policy)
            ==> r is Ok,
{
    if !crate::text::same_text(header_source_id, source_id) || !crate::text::same_text(
        header_source_version,
        source_version,
    ) {
        return Err(BacklogError::SourceMismatch);
    }
    if header_policy != policy {
        return Err(BacklogError::CursorPolicyMismatch);
    }
    Ok(())
}

/// What the backlog needs next.
#[derive(Debug, Clone, Copy, PartialEq, Eq, Structural)]
pub enum BacklogAction {
    /// Turn the record held back by a failed reconstruction into an observation again.
    RetryRecord,
    /// Open segment `index` (checking its header and, if closed, its close receipt).
    OpenSegment { index: usize },
    /// Read the next record of the open segment.
    ReadRecord,
    /// Nothing more to read now.
    CaughtUp,
}

/// What a read record means.
#[derive(Debug, Clone, Copy, PartialEq, Eq, Structural)]
pub enum RecordVerdict {
    /// Before the expected position: skip it.
    Skip,
    /// The expected record: turn it into an observation.
    Reconstruct,
}

/// What the end of a segment means.
#[derive(Debug, Clone, Copy, PartialEq, Eq, Structural)]
pub enum EndVerdict {
    /// The open segment ends here for now.
    CaughtUp,
    /// A closed segment is done: verify its close receipt and go on.
    FinishSegment,
}

/// A segment of the spool: closed ones carry the largest offset (or the record count)
/// their close receipt records.
#[derive(Debug, Clone, Copy, PartialEq, Eq, Structural)]
pub struct SegmentInfo {
    pub closed_extent: Option<u64>,
}

/// Replays a native-offset spool from an expected offset.
#[derive(Debug)]
pub struct SpoolBacklog {
    expected_offset: u64,
    pending_offset: Option<u64>,
    retry: bool,
    segments: Vec<SegmentInfo>,
    next_segment: usize,
    current: Option<bool>,
}

impl SpoolBacklog {
    #[verifier::type_invariant]
    closed spec fn inv(self) -> bool {
        self.next_segment <= self.segments@.len()
    }

    pub closed spec fn spec_expected(&self) -> u64 {
        self.expected_offset
    }

    pub closed spec fn spec_pending(&self) -> Option<u64> {
        self.pending_offset
    }

    pub closed spec fn spec_retry(&self) -> bool {
        self.retry
    }

    pub closed spec fn spec_segments(&self) -> Seq<SegmentInfo> {
        self.segments@
    }

    pub closed spec fn spec_next_segment(&self) -> nat {
        self.next_segment as nat
    }

    /// Whether a segment is open, and if so whether it is closed on disk.
    pub closed spec fn spec_current(&self) -> Option<bool> {
        self.current
    }

    /// A backlog over `segments` in order, expecting `expected_offset` next.
    pub fn open(source_version: &str, max_payload_bytes: usize, segments: Vec<SegmentInfo>, expected_offset: u64) -> (r: Result<Self, BacklogError>)
        ensures
            !backlog_config_ok(source_version@, max_payload_bytes) ==> r == Err::<Self, BacklogError>(
                BacklogError::InvalidConfig,
            ),
            backlog_config_ok(source_version@, max_payload_bytes) ==> (r matches Ok(b) && b.spec_expected()
                == expected_offset && b.spec_pending() is None && !b.spec_retry() && b.spec_segments()
                == segments@ && b.spec_next_segment() == 0 && b.spec_current() is None),
    {
        validate_config(source_version, max_payload_bytes)?;
        Ok(SpoolBacklog { expected_offset, pending_offset: None, retry: false, segments, next_segment: 0, current: None })
    }

    pub fn next_expected_offset(&self) -> (r: u64)
        ensures
            r == self.spec_expected(),
    {
        self.expected_offset
    }

    /// The index of the first segment from `next_segment` on that may still hold the
    /// expected offset: an open one, or a closed one reaching it.
    pub open spec fn spec_segment_to_open(&self) -> Option<nat> {
        first_reaching(self.spec_segments(), self.spec_next_segment(), self.spec_expected())
    }

    /// What to do next: nothing while an observation awaits acknowledgement; retry a held
    /// record; open the next segment that may hold the expected offset; read on; or
    /// report having caught up.
    pub fn poll(&mut self) -> (r: Result<BacklogAction, BacklogError>)
        ensures
            old(self).spec_pending() is Some ==> r == Err::<BacklogAction, BacklogError>(
                BacklogError::PendingAcknowledgement,
            ) && *final(self) == *old(self),
            old(self).spec_pending() is None && old(self).spec_retry() ==> r == Ok::<BacklogAction, BacklogError>(
                BacklogAction::RetryRecord,
            ) && *final(self) == *old(self),
            old(self).spec_pending() is None && !old(self).spec_retry() && old(self).spec_current() is Some
                ==> r == Ok::<BacklogAction, BacklogError>(BacklogAction::ReadRecord) && *final(self) == *old(self),
            old(self).spec_pending() is None && !old(self).spec_retry() && old(self).spec_current() is None
                ==> match old(self).spec_segment_to_open() {
                Some(i) => r == Ok::<BacklogAction, BacklogError>(BacklogAction::OpenSegment { index: i as usize })
                    && final(self).spec_next_segment() == i + 1 && final(self).spec_current() == Some(
                    old(self).spec_segments()[i as int].closed_extent is Some,
                ),
                None => r == Ok::<BacklogAction, BacklogError>(BacklogAction::CaughtUp)
                    && final(self).spec_next_segment() == old(self).spec_segments().len()
                    && final(self).spec_current() is None,
            },
            final(self).spec_expected() == old(self).spec_expected(),
            final(self).spec_pending() == old(self).spec_pending(),
            final(self).spec_retry() == old(self).spec_retry(),
            final(self).spec_segments() == old(self).spec_segments(),
    {
        proof {
            use_type_invariant(&*self);
        }
        if self.pending_offset.is_some() {
            return Err(BacklogError::PendingAcknowledgement);
        }
        if self.retry {
            return Ok(BacklogAction::RetryRecord);
        }
        if self.current.is_some() {
            return Ok(BacklogAction::ReadRecord);
        }
        let mut i = self.next_segment;
        while i < self.segments.len()
            invariant
                self.next_segment <= i <= self.segments@.len(),
                self.pending_offset is None,
                !self.retry,
                self.current is None,
                self.expected_offset == old(self).expected_offset,
                self.segments@ == old(self).segments@,
                self.next_segment == old(self).next_segment,
                old(self).pending_offset is None,
                !old(self).retry,
                old(self).current is None,
                first_reaching(self.segments@, self.next_segment as nat, self.expected_offset)
                    == first_reaching(self.segments@, i as nat, self.expected_offset),
            decreases self.segments@.len() - i,
        {
            let seg = self.segments[i];
            let skip = match seg.closed_extent {
                Some(max) => max < self.expected_offset,
                None => false,
            };
            if !skip {
                self.next_segment = i + 1;
                self.current = Some(seg.closed_extent.is_some());
                return Ok(BacklogAction::OpenSegment { index: i });
            }
            i = i + 1;
        }
        self.next_segment = i;
        Ok(BacklogAction::CaughtUp)
    }

    /// A record at `offset` was read from the open segment.
    pub fn on_record(&self, offset: u64) -> (r: Result<RecordVerdict, BacklogError>)
        ensures
            r == record_verdict(self.spec_expected(), offset),
    {
        if offset < self.expected_offset {
            Ok(RecordVerdict::Skip)
        } else if offset > self.expected_offset {
            Err(BacklogError::Gap { expected: self.expected_offset, observed: offset })
        } else {
            Ok(RecordVerdict::Reconstruct)
        }
    }

    /// The open segment has no more records.
    pub fn on_end_of_file(&mut self) -> (r: Result<EndVerdict, BacklogError>)
        ensures
            match old(self).spec_current() {
                None => r == Err::<EndVerdict, BacklogError>(BacklogError::InvalidState) && *final(self) == *old(self),
                Some(false) => r == Ok::<EndVerdict, BacklogError>(EndVerdict::CaughtUp) && *final(self) == *old(self),
                Some(true) => r == Ok::<EndVerdict, BacklogError>(EndVerdict::FinishSegment) && final(self).spec_current() is None
                    && final(self).spec_expected() == old(self).spec_expected()
                    && final(self).spec_pending() == old(self).spec_pending()
                    && final(self).spec_next_segment() == old(self).spec_next_segment()
                    && final(self).spec_segments() == old(self).spec_segments(),
            },
    {
        proof {
            use_type_invariant(&*self);
        }
        match self.current {
            None => Err(BacklogError::InvalidState),
            Some(false) => Ok(EndVerdict::CaughtUp),
            Some(true) => {
                self.current = None;
                Ok(EndVerdict::FinishSegment)
            },
        }
    }

    /// The open segment ends with an incomplete record at `record_offset`: a closed
    /// segment must not; an open one is still being written.
    pub fn on_incomplete_tail(&self, record_offset: u64) -> (r: Result<(), BacklogError>)
        ensures
            self.spec_current() == Some(true) ==> r == Err::<(), BacklogError>(
                BacklogError::IncompleteTail { record_offset },
            ),
            self.spec_current() == Some(false) ==> r is Ok,
            self.spec_current() is None ==> r == Err::<(), BacklogError>(BacklogError::InvalidState),
    {
        match self.current {
            Some(true) => Err(BacklogError::IncompleteTail { record_offset }),
            Some(false) => Ok(()),
            None => Err(BacklogError::InvalidState),
        }
    }

    /// The expected record was turned into an observation, or it could not be.
    pub fn on_reconstructed(&mut self, offset: u64, reconstructed: bool) -> (r: Result<(), BacklogError>)
        ensures
            reconstructed ==> r is Ok && final(self).spec_pending() == Some(offset) && !final(self).spec_retry(),
            !reconstructed ==> r == Err::<(), BacklogError>(BacklogError::Observation) && final(self).spec_retry()
                && final(self).spec_pending() == old(self).spec_pending(),
            final(self).spec_expected() == old(self).spec_expected(),
            final(self).spec_current() == old(self).spec_current(),
            final(self).spec_next_segment() == old(self).spec_next_segment(),
            final(self).spec_segments() == old(self).spec_segments(),
    {
        proof {
            use_type_invariant(&*self);
        }
        if reconstructed {
            self.pending_offset = Some(offset);
            self.retry = false;
            Ok(())
        } else {
            self.retry = true;
            Err(BacklogError::Observation)
        }
    }

    /// The observation at `offset` is durable: the backlog expects the next offset.
    pub fn acknowledge(&mut self, offset: u64) -> (r: Result<(), BacklogError>)
        ensures
            (old(self).spec_pending() != Some(offset) || offset != old(self).spec_expected()) ==> r == Err::<
                (),
                BacklogError,
            >(BacklogError::AcknowledgementMismatch) && *final(self) == *old(self),
            (old(self).spec_pending() == Some(offset) && offset == old(self).spec_expected() && offset == u64::MAX)
                ==> r == Err::<(), BacklogError>(BacklogError::OffsetOverflow) && *final(self) == *old(self),
            (old(self).spec_pending() == Some(offset) && offset == old(self).spec_expected() && offset < u64::MAX)
                ==> r is Ok && final(self).spec_expected() == offset + 1 && final(self).spec_pending() is None,
            final(self).spec_retry() == old(self).spec_retry(),
            final(self).spec_current() == old(self).spec_current(),
            final(self).spec_next_segment() == old(self).spec_next_segment(),
            final(self).spec_segments() == old(self).spec_segments(),
    {
        proof {
            use_type_invariant(&*self);
        }
        if self.pending_offset != Some(offset) || offset != self.expected_offset {
            return Err(BacklogError::AcknowledgementMismatch);
        }
        if offset == u64::MAX {
            return Err(BacklogError::OffsetOverflow);
        }
        self.expected_offset = offset + 1;
        self.pending_offset = None;
        Ok(())
    }
}

/// What a record at `offset` means when `expected` is the offset expected next: skipped
/// before it, delivered at it, a gap after it.
pub open spec fn record_verdict(expected: u64, offset: u64) -> Result<RecordVerdict, BacklogError> {
    if offset < expected {
        Ok(RecordVerdict::Skip)
    } else if offset > expected {
        Err(BacklogError::Gap { expected, observed: offset })
    } else {
        Ok(RecordVerdict::Reconstruct)
    }
}

/// Each record is delivered once: the record at the expected offset is delivered, and
/// once its acknowledgement moves the expected offset past it, reading it again skips it.
pub proof fn law_acknowledged_record_is_not_replayed(before: SpoolBacklog, after: SpoolBacklog, offset: u64)
    requires
        before.spec_expected() == offset,
        offset < u64::MAX,
        after.spec_expected() == offset + 1,
    ensures
        record_verdict(before.spec_expected(), offset) == Ok::<RecordVerdict, BacklogError>(RecordVerdict::Reconstruct),
        record_verdict(after.spec_expected(), offset) == Ok::<RecordVerdict, BacklogError>(RecordVerdict::Skip),
{
}

/// The first segment from `i` on that is open or whose closed extent reaches `expected`.
pub open spec fn first_reaching(segments: Seq<SegmentInfo>, i: nat, expected: u64) -> Option<nat>
    decreases segments.len() - i,
{
    if i >= segments.len() {
        None
    } else if segments[i as int].closed_extent matches Some(max) && max < expected {
        first_reaching(segments, i + 1, expected)
    } else {
        Some(i)
    }
}

/// What to do with the segment under consideration.
#[derive(Debug, Clone, Copy, PartialEq, Eq, Structural)]
pub enum SegmentDecision {
    /// Every record of this closed segment lies before the expected sequence.
    Skip,
    /// Open it and read its records.
    Open,
}

/// What a sequenced backlog needs next.
#[derive(Debug, Clone, Copy, PartialEq, Eq, Structural)]
pub enum SequencedAction {
    RetryRecord,
    /// Consider segment `index` (after verifying its close receipt, if it has one).
    ConsiderSegment { index: usize },
    ReadRecord,
    CaughtUp { next_expected_sequence: u64 },
}

/// Replays a byte-offset spool by local record sequence: records are numbered from one
/// across segments in order.
#[derive(Debug)]
pub struct ByteOffsetSpoolBacklog {
    next_expected_sequence: u64,
    next_record_sequence: u64,
    pending_sequence: Option<u64>,
    retry: bool,
    segments: Vec<SegmentInfo>,
    next_segment: usize,
    current: Option<bool>,
}

impl ByteOffsetSpoolBacklog {
    #[verifier::type_invariant]
    closed spec fn inv(self) -> bool {
        self.next_segment <= self.segments@.len()
    }

    pub closed spec fn spec_expected(&self) -> u64 {
        self.next_expected_sequence
    }

    pub closed spec fn spec_record(&self) -> u64 {
        self.next_record_sequence
    }

    pub closed spec fn spec_pending(&self) -> Option<u64> {
        self.pending_sequence
    }

    pub closed spec fn spec_retry(&self) -> bool {
        self.retry
    }

    pub closed spec fn spec_segments(&self) -> Seq<SegmentInfo> {
        self.segments@
    }

    pub closed spec fn spec_next_segment(&self) -> nat {
        self.next_segment as nat
    }

    pub closed spec fn spec_current(&self) -> Option<bool> {
        self.current
    }

    /// A backlog over `segments` in order (closed ones carrying their record count),
    /// expecting local sequence `next_expected_sequence`; records are numbered from one.
    pub fn open(
        source_version: &str,
        max_payload_bytes: usize,
        segments: Vec<SegmentInfo>,
        next_expected_sequence: u64,
    ) -> (r: Result<Self, BacklogError>)
        ensures
            !backlog_config_ok(source_version@, max_payload_bytes) ==> r == Err::<Self, BacklogError>(
                BacklogError::InvalidConfig,
            ),
            backlog_config_ok(source_version@, max_payload_bytes) ==> (r matches Ok(b) && b.spec_expected()
                == next_expected_sequence && b.spec_record() == 1 && b.spec_pending() is None && !b.spec_retry()
                && b.spec_segments() == segments@ && b.spec_next_segment() == 0 && b.spec_current() is None),
    {
        validate_config(source_version, max_payload_bytes)?;
        Ok(ByteOffsetSpoolBacklog {
            next_expected_sequence,
            next_record_sequence: 1,
            pending_sequence: None,
            retry: false,
            segments,
            next_segment: 0,
            current: None,
        })
    }

    pub fn next_expected_sequence(&self) -> (r: u64)
        ensures
            r == self.spec_expected(),
    {
        self.next_expected_sequence
    }

    /// What to do next: nothing while an observation awaits acknowledgement; retry a held
    /// record; read on; consider the next segment; or, with no segment left, report having
    /// caught up when every record before the expected sequence was seen.
    pub fn poll(&self) -> (r: Result<SequencedAction, BacklogError>)
        ensures
            r == if self.spec_pending() is Some {
                Err::<SequencedAction, BacklogError>(BacklogError::PendingAcknowledgement)
            } else if self.spec_retry() {
                Ok(SequencedAction::RetryRecord)
            } else if self.spec_current() is Some {
                Ok(SequencedAction::ReadRecord)
            } else if self.spec_next_segment() < self.spec_segments().len() {
                Ok(SequencedAction::ConsiderSegment { index: self.spec_next_segment() as usize })
            } else if self.spec_record() != self.spec_expected() {
                Err(BacklogError::SequenceGap { expected: self.spec_expected(), observed: self.spec_record() })
            } else {
                Ok(SequencedAction::CaughtUp { next_expected_sequence: self.spec_expected() })
            },
    {
        proof {
            use_type_invariant(self);
        }
        if self.pending_sequence.is_some() {
            return Err(BacklogError::PendingAcknowledgement);
        }
        if self.retry {
            return Ok(SequencedAction::RetryRecord);
        }
        if self.current.is_some() {
            return Ok(SequencedAction::ReadRecord);
        }
        if self.next_segment < self.segments.len() {
            return Ok(SequencedAction::ConsiderSegment { index: self.next_segment });
        }
        if self.next_record_sequence != self.next_expected_sequence {
            return Err(
                BacklogError::SequenceGap { expected: self.next_expected_sequence, observed: self.next_record_sequence },
            );
        }
        Ok(SequencedAction::CaughtUp { next_expected_sequence: self.next_expected_sequence })
    }

    /// Decides on the next segment: a closed segment whose records all lie before the
    /// expected sequence is skipped (its records counted); any other is opened.
    pub fn consider_segment(&mut self) -> (r: Result<SegmentDecision, BacklogError>)
        requires
            old(self).spec_next_segment() < old(self).spec_segments().len(),
        ensures
            ({
                let seg = old(self).spec_segments()[old(self).spec_next_segment() as int];
                let first = old(self).spec_record();
                match seg.closed_extent {
                    None => r == Ok::<SegmentDecision, BacklogError>(SegmentDecision::Open)
                        && final(self).spec_current() == Some(false) && final(self).spec_record() == first,
                    Some(count) => if count == 0 {
                        r == Err::<SegmentDecision, BacklogError>(BacklogError::InvalidState)
                    } else if first + (count - 1) > u64::MAX {
                        r == Err::<SegmentDecision, BacklogError>(BacklogError::SequenceOverflow)
                    } else if first + (count - 1) < old(self).spec_expected() {
                        if first + count > u64::MAX {
                            r == Err::<SegmentDecision, BacklogError>(BacklogError::SequenceOverflow)
                        } else {
                            r == Ok::<SegmentDecision, BacklogError>(SegmentDecision::Skip)
                                && final(self).spec_record() == first + count && final(self).spec_current() is None
                        }
                    } else {
                        r == Ok::<SegmentDecision, BacklogError>(SegmentDecision::Open)
                            && final(self).spec_current() == Some(true) && final(self).spec_record() == first
                    },
                }
            }),
            r is Ok ==> final(self).spec_next_segment() == old(self).spec_next_segment() + 1,
            final(self).spec_expected() == old(self).spec_expected(),
            final(self).spec_pending() == old(self).spec_pending(),
            final(self).spec_retry() == old(self).spec_retry(),
            final(self).spec_segments() == old(self).spec_segments(),
    {
        proof {
            use_type_invariant(&*self);
        }
        let n = self.segments.len();
        assert(self.next_segment < n);
        let seg = self.segments[self.next_segment];
        let index = self.next_segment + 1;
        match seg.closed_extent {
            None => {
                self.current = Some(false);
                self.next_segment = index;
                Ok(SegmentDecision::Open)
            },
            Some(count) => {
                if count == 0 {
                    return Err(BacklogError::InvalidState);
                }
                let last = match self.next_record_sequence.checked_add(count - 1) {
                    Some(l) => l,
                    None => {
                        return Err(BacklogError::SequenceOverflow);
                    },
                };
                if last < self.next_expected_sequence {
                    if last == u64::MAX {
                        return Err(BacklogError::SequenceOverflow);
                    }
                    self.next_record_sequence = last + 1;
                    self.next_segment = index;
                    self.current = None;
                    return Ok(SegmentDecision::Skip);
                }
                self.current = Some(true);
                self.next_segment = index;
                Ok(SegmentDecision::Open)
            },
        }
    }

    /// A record was read from the open segment; it carries the next local sequence.
    pub fn on_record(&mut self) -> (r: Result<RecordVerdict, BacklogError>)
        ensures
            old(self).spec_record() < old(self).spec_expected() ==> r == Ok::<RecordVerdict, BacklogError>(
                RecordVerdict::Skip,
            ) && final(self).spec_record() == old(self).spec_record() + 1,
            old(self).spec_record() > old(self).spec_expected() ==> r == Err::<RecordVerdict, BacklogError>(
                BacklogError::SequenceGap { expected: old(self).spec_expected(), observed: old(self).spec_record() },
            ),
            old(self).spec_record() == old(self).spec_expected() ==> r == Ok::<RecordVerdict, BacklogError>(
                RecordVerdict::Reconstruct,
            ) && final(self).spec_record() == old(self).spec_record(),
            final(self).spec_expected() == old(self).spec_expected(),
            final(self).spec_pending() == old(self).spec_pending(),
            final(self).spec_current() == old(self).spec_current(),
            final(self).spec_next_segment() == old(self).spec_next_segment(),
            final(self).spec_segments() == old(self).spec_segments(),
    {
        proof {
            use_type_invariant(&*self);
        }
        let local = self.next_record_sequence;
        if local < self.next_expected_sequence {
            self.next_record_sequence = local + 1;
            return Ok(RecordVerdict::Skip);
        }
        if local > self.next_expected_sequence {
            return Err(BacklogError::SequenceGap { expected: self.next_expected_sequence, observed: local });
        }
        Ok(RecordVerdict::Reconstruct)
    }

    /// The open segment has no more records (or ends with an incomplete one, `tail`).
    pub fn on_end(&mut self, tail: Option<u64>) -> (r: Result<EndVerdict, BacklogError>)
        ensures
            match old(self).spec_current() {
                None => r == Err::<EndVerdict, BacklogError>(BacklogError::InvalidState),
                Some(true) => match tail {
                    Some(t) => r == Err::<EndVerdict, BacklogError>(BacklogError::IncompleteTail { record_offset: t }),
                    None => r == Ok::<EndVerdict, BacklogError>(EndVerdict::FinishSegment)
                        && final(self).spec_current() is None,
                },
                Some(false) => if old(self).spec_record() != old(self).spec_expected() {
                    r == Err::<EndVerdict, BacklogError>(
                        BacklogError::SequenceGap { expected: old(self).spec_expected(), observed: old(self).spec_record() },
                    )
                } else {
                    r == Ok::<EndVerdict, BacklogError>(EndVerdict::CaughtUp)
                },
            },
            r != Ok::<EndVerdict, BacklogError>(EndVerdict::FinishSegment) ==> final(self).spec_current()
                == old(self).spec_current(),
            final(self).spec_expected() == old(self).spec_expected(),
            final(self).spec_record() == old(self).spec_record(),
            final(self).spec_pending() == old(self).spec_pending(),
            final(self).spec_next_segment() == old(self).spec_next_segment(),
            final(self).spec_segments() == old(self).spec_segments(),
    {
        proof {
            use_type_invariant(&*self);
        }
        match self.current {
            None => Err(BacklogError::InvalidState),
            Some(true) => match tail {
                Some(t) => Err(BacklogError::IncompleteTail { record_offset: t }),
                None => {
                    self.current = None;
                    Ok(EndVerdict::FinishSegment)
                },
            },
            Some(false) => {
                if self.next_record_sequence != self.next_expected_sequence {
                    return Err(
                        BacklogError::SequenceGap {
                            expected: self.next_expected_sequence,
                            observed: self.next_record_sequence,
                        },
                    );
                }
                Ok(EndVerdict::CaughtUp)
            },
        }
    }

    /// The expected record was turned into an observation (now awaiting
    /// acknowledgement under its local sequence), or it could not be.
    pub fn on_reconstructed(&mut self, reconstructed: bool) -> (r: Result<u64, BacklogError>)
        ensures
            reconstructed ==> r == Ok::<u64, BacklogError>(old(self).spec_record())
                && final(self).spec_pending() == Some(old(self).spec_record()) && !final(self).spec_retry(),
            !reconstructed ==> r == Err::<u64, BacklogError>(BacklogError::Observation) && final(self).spec_retry()
                && final(self).spec_pending() == old(self).spec_pending(),
            final(self).spec_expected() == old(self).spec_expected(),
            final(self).spec_record() == old(self).spec_record(),
            final(self).spec_current() == old(self).spec_current(),
            final(self).spec_next_segment() == old(self).spec_next_segment(),
            final(self).spec_segments() == old(self).spec_segments(),
    {
        proof {
            use_type_invariant(&*self);
        }
        if reconstructed {
            self.pending_sequence = Some(self.next_record_sequence);
            self.retry = false;
            Ok(self.next_record_sequence)
        } else {
            self.retry = true;
            Err(BacklogError::Observation)
        }
    }

    /// The observation with local sequence `sequence` is durable: the next one is
    /// expected.
    pub fn acknowledge(&mut self, sequence: u64) -> (r: Result<(), BacklogError>)
        ensures
            (old(self).spec_pending() != Some(sequence) || sequence != old(self).spec_expected()) ==> r == Err::<
                (),
                BacklogError,
            >(BacklogError::AcknowledgementMismatch) && *final(self) == *old(self),
            (old(self).spec_pending() == Some(sequence) && sequence == old(self).spec_expected() && sequence
                == u64::MAX) ==> r == Err::<(), BacklogError>(BacklogError::SequenceOverflow) && *final(self) == *old(self),
            (old(self).spec_pending() == Some(sequence) && sequence == old(self).spec_expected() && sequence
                < u64::MAX) ==> r is Ok && final(self).spec_expected() == sequence + 1 && final(self).spec_record()
                == sequence + 1 && final(self).spec_pending() is None,
            final(self).spec_retry() == old(self).spec_retry(),
            final(self).spec_current() == old(self).spec_current(),
            final(self).spec_next_segment() == old(self).spec_next_segment(),
            final(self).spec_segments() == old(self).spec_segments(),
    {
        proof {
            use_type_invariant(&*self);
        }
        if self.pending_sequence != Some(sequence) || sequence != self.next_expected_sequence {
            return Err(BacklogError::AcknowledgementMismatch);
        }
        if sequence == u64::MAX {
            return Err(BacklogError::SequenceOverflow);
        }
        self.next_expected_sequence = sequence + 1;
        self.next_record_sequence = sequence + 1;
        self.pending_sequence = None;
        Ok(())
    }
}

} // verus!
