//! Node output files: reading one newline-terminated record at a time, resuming at a
//! record boundary, naming file and directory epochs, and the heights a directory source
//! looks for.

use vstd::prelude::*;

use crate::digest::{append_bytes, append_u64_le, blake3_digest, blake3_hash, hex_encode, hex_lower, le_bytes_u64};
use crate::text::{all_digits, chars_of, is_digit, push_str, seq_all_digits};

verus! {

/// The largest payload a node source may be configured for.
pub const MAX_NODE_PAYLOAD_BYTES: usize = 268435456;

/// How many heights past a missing one a directory source looks before it reports a gap.
pub const GAP_PROBE_HEIGHTS: u64 = 64;

/// Why reading a node record failed.
#[derive(Debug, Clone, Copy, PartialEq, Eq, Structural)]
pub enum NodeReadError {
    /// The record is longer than the configured limit.
    RecordTooLarge,
    /// The offset after the record does not fit in a `u64`.
    OffsetOverflow,
    /// The resume offset is not at a record boundary of the file.
    CursorRegression,
}

/// The outcome of reading from an offset of a node output file.
#[derive(Debug, PartialEq, Eq)]
pub enum LineRead {
    /// A whole record, without its newline, and the offset just past the newline.
    Complete { payload: Vec<u8>, end_offset: u64 },
    /// Nothing past the offset.
    EndOfFile,
    /// Bytes past the offset, but no newline yet.
    Partial,
}

pub enum LineModel {
    Complete { payload: Seq<u8>, end_offset: u64 },
    EndOfFile,
    Partial,
}

impl View for LineRead {
    type V = LineModel;

    open spec fn view(&self) -> LineModel {
        match self {
            LineRead::Complete { payload, end_offset } => LineModel::Complete {
                payload: payload@,
                end_offset: *end_offset,
            },
            LineRead::EndOfFile => LineModel::EndOfFile,
            LineRead::Partial => LineModel::Partial,
        }
    }
}

/// Index of the first newline of `s`, or its length when it has none.
pub open spec fn nl_index(s: Seq<u8>) -> nat
    decreases s.len(),
{
    if s.len() == 0 {
        0
    } else if s[0] == 10u8 {
        0
    } else {
        1 + nl_index(s.drop_first())
    }
}

pub proof fn lemma_nl_index(s: Seq<u8>)
    ensures
        nl_index(s) <= s.len(),
        nl_index(s) < s.len() ==> s[nl_index(s) as int] == 10u8,
        forall|i: int| 0 <= i < nl_index(s) ==> s[i] != 10u8,
    decreases s.len(),
{
    if s.len() > 0 && s[0] != 10u8 {
        lemma_nl_index(s.drop_first());
        assert forall|i: int| 0 <= i < nl_index(s) implies s[i] != 10u8 by {
            if i > 0 {
                assert(s[i] == s.drop_first()[i - 1]);
            }
        }
    }
}

pub proof fn lemma_nl_index_concat(a: Seq<u8>, b: Seq<u8>)
    ensures
        nl_index(a + b) == if nl_index(a) < a.len() {
            nl_index(a)
        } else {
            a.len() + nl_index(b)
        },
    decreases a.len(),
{
    lemma_nl_index(a);
    if a.len() == 0 {
        assert(a + b =~= b);
    } else if a[0] != 10u8 {
        assert((a + b).drop_first() =~= a.drop_first() + b);
        lemma_nl_index_concat(a.drop_first(), b);
    }
}

/// What reading from `offset` gives when `data` is what the file holds past it: the
/// bytes up to the first newline when there is one within `max` bytes, end of file when
/// there is nothing, a partial record when there is no newline yet; refused when the
/// record is longer than `max` or its end offset overflows.
pub open spec fn line_outcome(data: Seq<u8>, offset: u64, max: usize) -> Result<LineModel, NodeReadError> {
    let p = nl_index(data);
    if p < data.len() {
        if p > max {
            Err(NodeReadError::RecordTooLarge)
        } else if offset + p + 1 > u64::MAX {
            Err(NodeReadError::OffsetOverflow)
        } else {
            Ok(LineModel::Complete { payload: data.take(p as int), end_offset: (offset + p + 1) as u64 })
        }
    } else if data.len() > max {
        Err(NodeReadError::RecordTooLarge)
    } else if data.len() == 0 {
        Ok(LineModel::EndOfFile)
    } else {
        Ok(LineModel::Partial)
    }
}

/// One read of `chunk` after `payload` has been collected: a decision, or none when the
/// record goes on (an empty chunk is the end of the file).
pub open spec fn line_step(payload: Seq<u8>, chunk: Seq<u8>, offset: u64, max: usize) -> Option<
    Result<LineModel, NodeReadError>,
> {
    if chunk.len() == 0 {
        Some(
            if payload.len() == 0 {
                Ok(LineModel::EndOfFile)
            } else {
                Ok(LineModel::Partial)
            },
        )
    } else {
        let p = nl_index(chunk);
        if p < chunk.len() {
            if payload.len() + p > max {
                Some(Err(NodeReadError::RecordTooLarge))
            } else if offset + payload.len() + p + 1 > u64::MAX {
                Some(Err(NodeReadError::OffsetOverflow))
            } else {
                Some(
                    Ok(
                        LineModel::Complete {
                            payload: payload + chunk.take(p as int),
                            end_offset: (offset + payload.len() + p + 1) as u64,
                        },
                    ),
                )
            }
        } else if payload.len() + chunk.len() > max {
            Some(Err(NodeReadError::RecordTooLarge))
        } else {
            None
        }
    }
}

/// Reading chunk after chunk until a decision, the file ending after the last chunk.
pub open spec fn line_scan(payload: Seq<u8>, chunks: Seq<Seq<u8>>, offset: u64, max: usize) -> Result<
    LineModel,
    NodeReadError,
>
    decreases chunks.len(),
{
    if chunks.len() == 0 {
        line_step(payload, seq![], offset, max)->Some_0
    } else {
        match line_step(payload, chunks[0], offset, max) {
            Some(r) => r,
            None => line_scan(payload + chunks[0], chunks.drop_first(), offset, max),
        }
    }
}

/// All the chunks, one after another.
pub open spec fn flatten(chunks: Seq<Seq<u8>>) -> Seq<u8>
    decreases chunks.len(),
{
    if chunks.len() == 0 {
        seq![]
    } else {
        chunks[0] + flatten(chunks.drop_first())
    }
}

proof fn lemma_scan_from(payload: Seq<u8>, chunks: Seq<Seq<u8>>, offset: u64, max: usize)
    requires
        nl_index(payload) == payload.len(),
        payload.len() <= max,
        forall|i: int| 0 <= i < chunks.len() ==> (#[trigger] chunks[i]).len() > 0,
    ensures
        line_scan(payload, chunks, offset, max) == line_outcome(payload + flatten(chunks), offset, max),
    decreases chunks.len(),
{
    let data = payload + flatten(chunks);
    lemma_nl_index_concat(payload, flatten(chunks));
    if chunks.len() == 0 {
        assert(data =~= payload);
    } else {
        let c = chunks[0];
        let rest = chunks.drop_first();
        assert(flatten(chunks) == c + flatten(rest));
        lemma_nl_index_concat(c, flatten(rest));
        lemma_nl_index(c);
        let p = nl_index(c);
        if p < c.len() {
            assert(data.take((payload.len() + p) as int) =~= payload + c.take(p as int));
        } else if payload.len() + c.len() > max {
            lemma_nl_index(data);
        } else {
            assert(forall|i: int| 0 <= i < rest.len() ==> rest[i] == chunks[i + 1]);
            lemma_nl_index_concat(payload, c);
            lemma_scan_from(payload + c, rest, offset, max);
            assert(data =~= (payload + c) + flatten(rest));
        }
    }
}

/// Reading a record chunk by chunk gives what reading all the bytes at once gives,
/// however the file's bytes are cut into reads.
pub proof fn law_line_read_is_chunk_independent(chunks: Seq<Seq<u8>>, offset: u64, max: usize)
    requires
        forall|i: int| 0 <= i < chunks.len() ==> (#[trigger] chunks[i]).len() > 0,
    ensures
        line_scan(seq![], chunks, offset, max) == line_outcome(flatten(chunks), offset, max),
{
    assert(nl_index(Seq::<u8>::empty()) == 0);
    lemma_scan_from(seq![], chunks, offset, max);
    assert(Seq::<u8>::empty() + flatten(chunks) =~= flatten(chunks));
}

/// Collects one record of a node output file from successive reads.
#[derive(Debug)]
pub struct LineScanner {
    offset: u64,
    max: usize,
    payload: Vec<u8>,
}

impl LineScanner {
    #[verifier::type_invariant]
    closed spec fn inv(self) -> bool {
        &&& nl_index(self.payload@) == self.payload@.len()
        &&& self.payload@.len() <= self.max
    }

    pub closed spec fn collected(&self) -> Seq<u8> {
        self.payload@
    }

    pub closed spec fn spec_offset(&self) -> u64 {
        self.offset
    }

    pub closed spec fn spec_max(&self) -> usize {
        self.max
    }

    /// A scanner for the record at `offset`, of at most `max` bytes.
    pub fn new(offset: u64, max: usize) -> (r: Self)
        ensures
            r.collected() == Seq::<u8>::empty(),
            r.spec_offset() == offset,
            r.spec_max() == max,
    {
        LineScanner { offset, max, payload: Vec::new() }
    }

    /// Takes the next read: the record, end of file, a partial record or a refusal when
    /// this read decides, nothing when the record goes on.
    pub fn feed(&mut self, chunk: &[u8]) -> (r: Result<Option<LineRead>, NodeReadError>)
        ensures
            final(self).spec_offset() == old(self).spec_offset(),
            final(self).spec_max() == old(self).spec_max(),
            match line_step(old(self).collected(), chunk@, old(self).spec_offset(), old(self).spec_max()) {
                Some(Ok(m)) => r matches Ok(Some(l)) && l@ == m,
                Some(Err(e)) => r == Err::<Option<LineRead>, NodeReadError>(e),
                None => r matches Ok(None) && final(self).collected() == old(self).collected() + chunk@,
            },
    {
        proof {
            use_type_invariant(&*self);
        }
        if chunk.len() == 0 {
            if self.payload.len() == 0 {
                return Ok(Some(LineRead::EndOfFile));
            }
            return Ok(Some(LineRead::Partial));
        }
        let mut p: usize = 0;
        while p < chunk.len() && chunk[p] != 10u8
            invariant
                p <= chunk@.len(),
                forall|i: int| 0 <= i < p ==> chunk@[i] != 10u8,
            decreases chunk@.len() - p,
        {
            p = p + 1;
        }
        proof {
            lemma_nl_index(chunk@);
            if p < chunk@.len() {
                assert(nl_index(chunk@) == p) by {
                    if nl_index(chunk@) < p {
                        assert(chunk@[nl_index(chunk@) as int] == 10u8);
                    }
                }
            } else {
                assert(nl_index(chunk@) == chunk@.len()) by {
                    if nl_index(chunk@) < chunk@.len() {
                        assert(chunk@[nl_index(chunk@) as int] == 10u8);
                    }
                }
            }
        }
        let have = self.payload.len();
        if p < chunk.len() {
            if p > self.max - have {
                return Err(NodeReadError::RecordTooLarge);
            }
            let total = (have + p) as u64;
            if self.offset > u64::MAX - total || self.offset + total == u64::MAX {
                return Err(NodeReadError::OffsetOverflow);
            }
            let end_offset = self.offset + total + 1;
            let mut payload: Vec<u8> = Vec::new();
            std::mem::swap(&mut payload, &mut self.payload);
            let mut i: usize = 0;
            let ghost before = payload@;
            while i < p
                invariant
                    i <= p < chunk@.len(),
                    payload@ == before + chunk@.take(i as int),
                decreases p - i,
            {
                payload.push(chunk[i]);
                i = i + 1;
                assert(payload@ =~= before + chunk@.take(i as int));
            }
            return Ok(Some(LineRead::Complete { payload, end_offset }));
        }
        if chunk.len() > self.max - have {
            return Err(NodeReadError::RecordTooLarge);
        }
        let mut payload: Vec<u8> = Vec::new();
        std::mem::swap(&mut payload, &mut self.payload);
        let ghost before = payload@;
        append_bytes(&mut payload, chunk);
        proof {
            lemma_nl_index_concat(before, chunk@);
        }
        self.payload = payload;
        Ok(None)
    }
}

/// Whether a file may be resumed at `offset`: within its `size`, and at its start or just
/// after a newline (`previous` is the byte before `offset`, read when `offset` is inside
/// the file).
pub fn check_resume_boundary(offset: u64, size: u64, previous: Option<u8>) -> (r: Result<(), NodeReadError>)
    ensures
        r is Ok <==> (offset <= size && (offset == 0 || previous == Some(10u8))),
        r is Err ==> r == Err::<(), NodeReadError>(NodeReadError::CursorRegression),
{
    if offset > size {
        return Err(NodeReadError::CursorRegression);
    }
    if offset == 0 {
        return Ok(());
    }
    match previous {
        Some(b) => if b == 10u8 {
            Ok(())
        } else {
            Err(NodeReadError::CursorRegression)
        },
        None => Err(NodeReadError::CursorRegression),
    }
}

/// Device and inode of a file or directory.
#[derive(Debug, Clone, Copy, PartialEq, Eq, Structural)]
pub struct FileIdentity {
    pub device: u64,
    pub inode: u64,
}

pub open spec fn epoch_preimage(context: Seq<char>, stream_name: Seq<char>, id: FileIdentity) -> Seq<u8> {
    vstd::utf8::encode_utf8(context) + vstd::utf8::encode_utf8(stream_name) + seq![0u8]
        + le_bytes_u64(id.device) + le_bytes_u64(id.inode)
}

fn hashed_epoch(prefix: &str, pre: &Vec<u8>) -> (r: String)
    ensures
        r@ == prefix@ + hex_lower(blake3_digest(pre@)),
{
    let h = blake3_hash(pre.as_slice());
    let hex = hex_encode(&h);
    let mut out = crate::text::owned(prefix);
    push_str(&mut out, hex.as_str());
    out
}

fn identity_preimage(context: &str, stream_name: &str, identity: FileIdentity) -> (r: Vec<u8>)
    ensures
        r@ == epoch_preimage(context@, stream_name@, identity),
{
    let mut pre: Vec<u8> = Vec::new();
    append_bytes(&mut pre, context.as_bytes());
    append_bytes(&mut pre, stream_name.as_bytes());
    pre.push(0u8);
    append_u64_le(&mut pre, identity.device);
    append_u64_le(&mut pre, identity.inode);
    assert(pre@ =~= epoch_preimage(context@, stream_name@, identity));
    pre
}

/// The epoch of a node output file: its stream name, its identity and the hash of its
/// opening record.
pub fn file_epoch(stream_name: &str, identity: FileIdentity, opening_record: &[u8]) -> (r: String)
    ensures
        r@ == "node-file-v1:"@ + hex_lower(
            blake3_digest(
                epoch_preimage("alpha-desk-node-file-epoch-v1\0"@, stream_name@, identity)
                    + blake3_digest(opening_record@),
            ),
        ),
{
    let mut pre = identity_preimage("alpha-desk-node-file-epoch-v1\0", stream_name, identity);
    let opening = blake3_hash(opening_record);
    append_bytes(&mut pre, &opening);
    hashed_epoch("node-file-v1:", &pre)
}

/// The epoch of a node block directory.
pub fn directory_epoch(stream_name: &str, identity: FileIdentity) -> (r: String)
    ensures
        r@ == "node-block-dir-v1:"@ + hex_lower(
            blake3_digest(epoch_preimage("alpha-desk-node-block-directory-epoch-v1\0"@, stream_name@, identity)),
        ),
{
    let pre = identity_preimage("alpha-desk-node-block-directory-epoch-v1\0", stream_name, identity);
    hashed_epoch("node-block-dir-v1:", &pre)
}

/// The epoch of a node snapshot directory.
pub fn snapshot_directory_epoch(stream_name: &str, identity: FileIdentity) -> (r: String)
    ensures
        r@ == "node-snapshot-dir-v1:"@ + hex_lower(
            blake3_digest(epoch_preimage("alpha-desk-node-snapshot-directory-epoch-v1\0"@, stream_name@, identity)),
        ),
{
    let pre = identity_preimage("alpha-desk-node-snapshot-directory-epoch-v1\0", stream_name, identity);
    hashed_epoch("node-snapshot-dir-v1:", &pre)
}

/// A session directory name: one or more ASCII digits.
pub fn is_decimal_name(name: &str) -> (r: bool)
    ensures
        r == (name@.len() > 0 && all_digits(name@)),
{
    let c = chars_of(name);
    c.len() > 0 && seq_all_digits(&c)
}

/// A date directory name: eight ASCII digits.
pub fn is_date_name(name: &str) -> (r: bool)
    ensures
        r == (name@.len() == 8 && all_digits(name@)),
{
    let c = chars_of(name);
    c.len() == 8 && seq_all_digits(&c)
}

/// The height a directory source reads next: `stride` past the last one read, or the
/// configured start; a last height with nothing after it is a regression.
pub fn expected_height(last_read: Option<u64>, start_height: u64, stride: u64) -> (r: Result<u64, NodeReadError>)
    ensures
        match last_read {
            Some(last) => if last + stride <= u64::MAX {
                r == Ok::<u64, NodeReadError>((last + stride) as u64)
            } else {
                r == Err::<u64, NodeReadError>(NodeReadError::CursorRegression)
            },
            None => r == Ok::<u64, NodeReadError>(start_height),
        },
{
    match last_read {
        Some(last) => match last.checked_add(stride) {
            Some(h) => Ok(h),
            None => Err(NodeReadError::CursorRegression),
        },
        None => Ok(start_height),
    }
}

/// The height probed `delta` strides past `expected` (the stride product saturates), if
/// it fits in a `u64`.
pub open spec fn probe_at(expected: u64, stride: u64, delta: nat) -> Option<u64> {
    let step: int = if delta * stride > u64::MAX {
        u64::MAX as int
    } else {
        delta * stride
    };
    if expected + step <= u64::MAX {
        Some((expected + step) as u64)
    } else {
        None
    }
}

/// The heights a directory source looks at past a missing `expected` one before it
/// decides that the height is a gap: one to `GAP_PROBE_HEIGHTS` strides on, stopping at
/// the first that does not fit in a `u64`.
pub fn probe_heights(expected: u64, stride: u64) -> (r: Vec<u64>)
    ensures
        r@.len() <= GAP_PROBE_HEIGHTS,
        forall|i: int| 0 <= i < r@.len() ==> probe_at(expected, stride, (i + 1) as nat) == Some(#[trigger] r@[i]),
        r@.len() < GAP_PROBE_HEIGHTS ==> probe_at(expected, stride, (r@.len() + 1) as nat) is None,
{
    let mut out: Vec<u64> = Vec::new();
    let mut delta: u64 = 1;
    while delta <= GAP_PROBE_HEIGHTS
        invariant
            1 <= delta <= GAP_PROBE_HEIGHTS + 1,
            out@.len() == delta - 1,
            forall|i: int| 0 <= i < out@.len() ==> probe_at(expected, stride, (i + 1) as nat) == Some(#[trigger] out@[i]),
        decreases GAP_PROBE_HEIGHTS + 1 - delta,
    {
        let step: u64 = match delta.checked_mul(stride) {
            Some(v) => v,
            None => u64::MAX,
        };
        assert(step == if delta * stride > u64::MAX { u64::MAX as int } else { delta * stride });
        match expected.checked_add(step) {
            Some(h) => {
                out.push(h);
            },
            None => {
                return out;
            },
        }
        delta = delta + 1;
    }
    out
}

/// Where a source has read to: an epoch naming the file or directory, and an offset (a
/// byte offset or a height) within it.
#[derive(Debug)]
pub struct SourceCursor {
    pub epoch: String,
    pub offset: u64,
}

impl View for SourceCursor {
    type V = (Seq<char>, u64);

    open spec fn view(&self) -> (Seq<char>, u64) {
        (self.epoch@, self.offset)
    }
}

impl SourceCursor {
    pub fn copy(&self) -> (r: SourceCursor)
        ensures
            r@ == self@,
    {
        SourceCursor { epoch: crate::text::owned(self.epoch.as_str()), offset: self.offset }
    }

    pub fn same_as(&self, other: &SourceCursor) -> (r: bool)
        ensures
            r == (self@ == other@),
    {
        self.offset == other.offset && crate::text::same_text(self.epoch.as_str(), other.epoch.as_str())
    }
}

pub open spec fn cursor_view(c: Option<SourceCursor>) -> Option<(Seq<char>, u64)> {
    match c {
        Some(c) => Some(c@),
        None => None,
    }
}

/// Why a node source refuses to go on.
#[derive(Debug, Clone, Copy, PartialEq, Eq, Structural)]
pub enum CursorError {
    /// An emitted cursor has not been acknowledged yet.
    BackpressureTimeout,
    /// The acknowledged cursor is not the one outstanding.
    CursorRegression,
}

/// The durable cursor of a source and the one cursor it has emitted and not yet seen
/// acknowledged.
#[derive(Debug)]
pub struct CursorProtocol {
    durable: Option<SourceCursor>,
    pending: Option<SourceCursor>,
}

impl CursorProtocol {
    pub closed spec fn spec_durable(&self) -> Option<(Seq<char>, u64)> {
        cursor_view(self.durable)
    }

    pub closed spec fn spec_pending(&self) -> Option<(Seq<char>, u64)> {
        cursor_view(self.pending)
    }

    /// Starts from the durable cursor a source resumes at, with nothing outstanding.
    pub fn new(durable: Option<SourceCursor>) -> (r: Self)
        ensures
            r.spec_durable() == cursor_view(durable),
            r.spec_pending() is None,
    {
        CursorProtocol { durable, pending: None }
    }

    /// Emits a cursor, unless one is outstanding.
    pub fn emit(&mut self, cursor: SourceCursor) -> (r: Result<(), CursorError>)
        ensures
            old(self).spec_pending() is Some ==> r == Err::<(), CursorError>(CursorError::BackpressureTimeout)
                && final(self).spec_pending() == old(self).spec_pending(),
            old(self).spec_pending() is None ==> r is Ok && final(self).spec_pending() == Some(cursor@),
            final(self).spec_durable() == old(self).spec_durable(),
    {
        if self.pending.is_some() {
            return Err(CursorError::BackpressureTimeout);
        }
        self.pending = Some(cursor);
        Ok(())
    }

    /// Whether a cursor is outstanding.
    pub fn has_pending(&self) -> (r: bool)
        ensures
            r == self.spec_pending() is Some,
    {
        self.pending.is_some()
    }

    /// Makes the outstanding cursor durable when `cursor` is it; refuses any other cursor
    /// and then changes nothing.
    pub fn acknowledge(&mut self, cursor: &SourceCursor) -> (r: Result<(), CursorError>)
        ensures
            old(self).spec_pending() == Some(cursor@) ==> r is Ok && final(self).spec_durable()
                == Some(cursor@) && final(self).spec_pending() is None,
            old(self).spec_pending() != Some(cursor@) ==> r == Err::<(), CursorError>(
                CursorError::CursorRegression,
            ) && final(self).spec_durable() == old(self).spec_durable() && final(self).spec_pending()
                == old(self).spec_pending(),
    {
        let matches = match &self.pending {
            Some(p) => p.same_as(cursor),
            None => false,
        };
        if !matches {
            return Err(CursorError::CursorRegression);
        }
        self.durable = Some(cursor.copy());
        self.pending = None;
        Ok(())
    }

    /// Drops the outstanding cursor (the file it named was replaced).
    pub fn forget_pending(&mut self)
        ensures
            final(self).spec_pending() is None,
            final(self).spec_durable() == old(self).spec_durable(),
    {
        self.pending = None;
    }

    /// Makes `cursor` durable directly (a quarantined record was stored durably).
    pub fn make_durable(&mut self, cursor: &SourceCursor)
        ensures
            final(self).spec_durable() == Some(cursor@),
            final(self).spec_pending() == old(self).spec_pending(),
    {
        self.durable = Some(cursor.copy());
    }

    /// The durable cursor.
    pub fn committed_cursor(&self) -> (r: Option<&SourceCursor>)
        ensures
            match r {
                Some(c) => self.spec_durable() == Some(c@),
                None => self.spec_durable() is None,
            },
    {
        match &self.durable {
            Some(c) => Some(c),
            None => None,
        }
    }
}

/// What the configured path of a node output file names now, against the open file.
#[derive(Debug, Clone, Copy, PartialEq, Eq, Structural)]
pub enum PathState {
    Same,
    Replaced,
    Missing,
}

/// What a line source does after a read.
#[derive(Debug)]
pub enum LineAction {
    /// Parse this record; its cursor is the file's epoch and `end_offset`.
    Parse { payload: Vec<u8>, end_offset: u64 },
    /// The file was replaced after its last whole record: open the new file and read it
    /// from its start.
    Reopen,
    /// Wait for the file to grow.
    Wait,
}

/// Why a line source does not read.
#[derive(Debug, Clone, Copy, PartialEq, Eq, Structural)]
pub enum LineSourceError {
    /// A record awaits durable quarantine.
    Quarantined,
    /// An emitted cursor awaits acknowledgement.
    BackpressureTimeout,
    /// The file is shorter than the read offset, or an acknowledgement names another
    /// cursor.
    CursorRegression,
    /// The file was replaced while its last record was incomplete.
    RotatedWithPartialRecord,
}

/// A record that could not be parsed, kept until it is stored durably.
#[derive(Debug)]
pub struct NodeQuarantineRecord {
    pub cursor: SourceCursor,
    pub payload: Vec<u8>,
    pub content_hash: [u8; 32],
    pub reason_code: String,
}

impl NodeQuarantineRecord {
    pub fn new(cursor: SourceCursor, payload: Vec<u8>, reason_code: String) -> (r: Self)
        ensures
            r.cursor@ == cursor@,
            r.payload@ == payload@,
            r.content_hash@ == blake3_digest(payload@),
            r.reason_code@ == reason_code@,
    {
        let content_hash = blake3_hash(payload.as_slice());
        NodeQuarantineRecord { cursor, payload, content_hash, reason_code }
    }
}

/// The reading state of a node line-file source: the offset of the next record, the
/// cursor protocol, and the cursor of a record awaiting quarantine.
#[derive(Debug)]
pub struct NodeLineState {
    read_offset: u64,
    cursors: CursorProtocol,
    quarantine: Option<SourceCursor>,
}

impl NodeLineState {
    pub closed spec fn spec_read_offset(&self) -> u64 {
        self.read_offset
    }

    pub closed spec fn spec_cursors(&self) -> CursorProtocol {
        self.cursors
    }

    pub closed spec fn spec_quarantine(&self) -> Option<(Seq<char>, u64)> {
        cursor_view(self.quarantine)
    }

    /// Starts reading at the durable cursor's offset, or at the start of the file.
    pub fn new(durable: Option<SourceCursor>) -> (r: Self)
        ensures
            r.spec_read_offset() == match durable {
                Some(c) => c.offset,
                None => 0,
            },
            r.spec_cursors().spec_durable() == cursor_view(durable),
            r.spec_cursors().spec_pending() is None,
            r.spec_quarantine() is None,
    {
        let read_offset = match &durable {
            Some(c) => c.offset,
            None => 0,
        };
        NodeLineState { read_offset, cursors: CursorProtocol::new(durable), quarantine: None }
    }

    pub fn read_offset(&self) -> (r: u64)
        ensures
            r == self.spec_read_offset(),
    {
        self.read_offset
    }

    /// Whether the next record may be read from a file of `file_size` bytes: not while a
    /// record awaits quarantine or a cursor awaits acknowledgement, nor when the file is
    /// shorter than the read offset.
    pub fn before_read(&self, file_size: u64) -> (r: Result<(), LineSourceError>)
        ensures
            r == if self.spec_quarantine() is Some {
                Err::<(), LineSourceError>(LineSourceError::Quarantined)
            } else if self.spec_cursors().spec_pending() is Some {
                Err(LineSourceError::BackpressureTimeout)
            } else if file_size < self.spec_read_offset() {
                Err(LineSourceError::CursorRegression)
            } else {
                Ok(())
            },
    {
        if self.quarantine.is_some() {
            return Err(LineSourceError::Quarantined);
        }
        if self.cursors.has_pending() {
            return Err(LineSourceError::BackpressureTimeout);
        }
        if file_size < self.read_offset {
            return Err(LineSourceError::CursorRegression);
        }
        Ok(())
    }

    /// What to do with a read: parse a whole record; when there is none, reopen a file
    /// replaced after its last whole record, refuse one replaced mid-record, and wait
    /// otherwise.
    pub fn after_read(&self, read: LineRead, path: PathState) -> (r: Result<LineAction, LineSourceError>)
        ensures
            match read@ {
                LineModel::Complete { payload, end_offset } => r matches Ok(LineAction::Parse { payload: p, end_offset: e })
                    && p@ == payload && e == end_offset,
                LineModel::EndOfFile => if path == PathState::Replaced {
                    r matches Ok(LineAction::Reopen)
                } else {
                    r matches Ok(LineAction::Wait)
                },
                LineModel::Partial => if path == PathState::Replaced {
                    r == Err::<LineAction, LineSourceError>(LineSourceError::RotatedWithPartialRecord)
                } else {
                    r matches Ok(LineAction::Wait)
                },
            },
    {
        match read {
            LineRead::Complete { payload, end_offset } => Ok(LineAction::Parse { payload, end_offset }),
            LineRead::EndOfFile => match path {
                PathState::Replaced => Ok(LineAction::Reopen),
                _ => Ok(LineAction::Wait),
            },
            LineRead::Partial => match path {
                PathState::Replaced => Err(LineSourceError::RotatedWithPartialRecord),
                _ => Ok(LineAction::Wait),
            },
        }
    }

    /// The replacing file was opened: read it from its start; a cursor of the old file
    /// is no longer awaited.
    pub fn reopened(&mut self)
        ensures
            final(self).spec_read_offset() == 0,
            final(self).spec_cursors().spec_pending() is None,
            final(self).spec_cursors().spec_durable() == old(self).spec_cursors().spec_durable(),
            final(self).spec_quarantine() == old(self).spec_quarantine(),
    {
        self.read_offset = 0;
        self.cursors.forget_pending();
    }

    /// A record parsed: the read offset moves past it and its cursor is emitted.
    pub fn emitted(&mut self, cursor: SourceCursor) -> (r: Result<(), LineSourceError>)
        ensures
            old(self).spec_cursors().spec_pending() is Some ==> r == Err::<(), LineSourceError>(
                LineSourceError::BackpressureTimeout,
            ) && final(self).spec_read_offset() == old(self).spec_read_offset(),
            old(self).spec_cursors().spec_pending() is None ==> r is Ok && final(self).spec_read_offset()
                == cursor.offset && final(self).spec_cursors().spec_pending() == Some(cursor@),
            final(self).spec_cursors().spec_durable() == old(self).spec_cursors().spec_durable(),
            final(self).spec_quarantine() == old(self).spec_quarantine(),
    {
        let offset = cursor.offset;
        match self.cursors.emit(cursor) {
            Ok(()) => {
                self.read_offset = offset;
                Ok(())
            },
            Err(_) => Err(LineSourceError::BackpressureTimeout),
        }
    }

    /// A record could not be parsed: it awaits durable quarantine under `cursor`.
    pub fn quarantined(&mut self, cursor: SourceCursor)
        ensures
            final(self).spec_quarantine() == Some(cursor@),
            final(self).spec_read_offset() == old(self).spec_read_offset(),
            final(self).spec_cursors() == old(self).spec_cursors(),
    {
        self.quarantine = Some(cursor);
    }

    /// The emitted cursor is durable.
    pub fn acknowledge_durable(&mut self, cursor: &SourceCursor) -> (r: Result<(), LineSourceError>)
        ensures
            old(self).spec_cursors().spec_pending() == Some(cursor@) ==> r is Ok
                && final(self).spec_cursors().spec_durable() == Some(cursor@)
                && final(self).spec_cursors().spec_pending() is None,
            old(self).spec_cursors().spec_pending() != Some(cursor@) ==> r == Err::<(), LineSourceError>(
                LineSourceError::CursorRegression,
            ) && final(self).spec_cursors().spec_durable() == old(self).spec_cursors().spec_durable()
                && final(self).spec_cursors().spec_pending() == old(self).spec_cursors().spec_pending(),
            final(self).spec_read_offset() == old(self).spec_read_offset(),
            final(self).spec_quarantine() == old(self).spec_quarantine(),
    {
        match self.cursors.acknowledge(cursor) {
            Ok(()) => Ok(()),
            Err(_) => Err(LineSourceError::CursorRegression),
        }
    }

    /// The quarantined record is stored durably: reading goes on past it, and its cursor
    /// is durable.
    pub fn acknowledge_quarantine_durable(&mut self, cursor: &SourceCursor) -> (r: Result<(), LineSourceError>)
        ensures
            old(self).spec_quarantine() == Some(cursor@) ==> r is Ok && final(self).spec_read_offset()
                == cursor.offset && final(self).spec_cursors().spec_durable() == Some(cursor@)
                && final(self).spec_quarantine() is None,
            old(self).spec_quarantine() != Some(cursor@) ==> r == Err::<(), LineSourceError>(
                LineSourceError::CursorRegression,
            ) && final(self).spec_read_offset() == old(self).spec_read_offset()
                && final(self).spec_quarantine() == old(self).spec_quarantine(),
    {
        let matches = match &self.quarantine {
            Some(q) => q.same_as(cursor),
            None => false,
        };
        if !matches {
            return Err(LineSourceError::CursorRegression);
        }
        self.read_offset = cursor.offset;
        self.cursors.make_durable(cursor);
        self.quarantine = None;
        Ok(())
    }

    /// The durable cursor.
    pub fn committed_cursor(&self) -> (r: Option<&SourceCursor>)
        ensures
            match r {
                Some(c) => self.spec_cursors().spec_durable() == Some(c@),
                None => self.spec_cursors().spec_durable() is None,
            },
    {
        self.cursors.committed_cursor()
    }
}

} // verus!
