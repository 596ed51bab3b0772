//! Canonical publication messages, the frozen block-marker layout, and the ledger that
//! keeps a message identifier bound to one content.

use vstd::prelude::*;

use crate::digest::{append_bytes, append_u64_be, be_bytes_u64, same_hash, sha256, sha256_digest};
use crate::strmap::{StrMap, lookup};
use crate::digest::{hex_encode, hex_lower};
use crate::subjects::{EventKind, Subject, event_subject, subject_for_event_kind};
use crate::text::{ascii_lower, chars_of, char_ascii_lower, identity_ok, owned, valid_identity};

verus! {

pub const BLOCK_MARKER_SCHEMA_V1: &'static str = "hyperliquid-alpha-desk/block-publication/v1";

pub const MAX_PUBLICATION_IDENTITY_BYTES: usize = 512;

pub const MAX_PUBLICATION_PAYLOAD_BYTES: usize = 7_500_000;

/// Why a publication was refused.
#[derive(Debug, Clone, PartialEq, Eq)]
pub enum PublicationError {
    ArchiveReceiptMismatch,
    NotCommitted,
    CanonicalCodec,
    InvalidIdentity,
    NonCanonicalMessageId,
    PayloadSize { actual: usize, limit: usize },
    InvalidLedgerCapacity,
    LedgerCapacityExceeded { limit: usize },
    DivergentMessageId { message_id: String },
    CountOverflow,
    TransportConnect,
    TransportPublish,
    TransportAck,
    UnexpectedAckStream,
    InvalidAck,
}

impl PublicationError {
    pub open spec fn reason(&self) -> Seq<char> {
        match self {
            PublicationError::ArchiveReceiptMismatch => "publication.archive_receipt_mismatch"@,
            PublicationError::NotCommitted => "publication.not_committed"@,
            PublicationError::CanonicalCodec => "publication.canonical_codec"@,
            PublicationError::InvalidIdentity => "publication.invalid_identity"@,
            PublicationError::NonCanonicalMessageId => "publication.noncanonical_message_id"@,
            PublicationError::PayloadSize { .. } => "publication.payload_size"@,
            PublicationError::InvalidLedgerCapacity => "publication.invalid_ledger_capacity"@,
            PublicationError::LedgerCapacityExceeded { .. } => "publication.ledger_capacity_exceeded"@,
            PublicationError::DivergentMessageId { .. } => "publication.divergent_message_id"@,
            PublicationError::CountOverflow => "publication.count_overflow"@,
            PublicationError::TransportConnect => "publication.transport_connect"@,
            PublicationError::TransportPublish => "publication.transport_publish"@,
            PublicationError::TransportAck => "publication.transport_ack"@,
            PublicationError::UnexpectedAckStream => "publication.unexpected_ack_stream"@,
            PublicationError::InvalidAck => "publication.invalid_ack"@,
        }
    }

    pub fn reason_code(&self) -> (r: &'static str)
        ensures
            r@ == self.reason(),
    {
        match self {
            PublicationError::ArchiveReceiptMismatch => "publication.archive_receipt_mismatch",
            PublicationError::NotCommitted => "publication.not_committed",
            PublicationError::CanonicalCodec => "publication.canonical_codec",
            PublicationError::InvalidIdentity => "publication.invalid_identity",
            PublicationError::NonCanonicalMessageId => "publication.noncanonical_message_id",
            PublicationError::PayloadSize { .. } => "publication.payload_size",
            PublicationError::InvalidLedgerCapacity => "publication.invalid_ledger_capacity",
            PublicationError::LedgerCapacityExceeded { .. } => "publication.ledger_capacity_exceeded",
            PublicationError::DivergentMessageId { .. } => "publication.divergent_message_id",
            PublicationError::CountOverflow => "publication.count_overflow",
            PublicationError::TransportConnect => "publication.transport_connect",
            PublicationError::TransportPublish => "publication.transport_publish",
            PublicationError::TransportAck => "publication.transport_ack",
            PublicationError::UnexpectedAckStream => "publication.unexpected_ack_stream",
            PublicationError::InvalidAck => "publication.invalid_ack",
        }
    }
}

/// How far a block is confirmed.
#[derive(Debug, Clone, Copy, PartialEq, Eq, Structural)]
pub enum ConfirmationClass {
    CommittedPrimary,
    CommittedIndependent,
    ProvisionalSource,
    ReconciledSnapshot,
    Corrected,
    Expired,
}

/// Only committed blocks may use committed subjects.
pub fn admit_committed_publication(class: ConfirmationClass) -> (r: Result<(), PublicationError>)
    ensures
        (class == ConfirmationClass::CommittedPrimary || class
            == ConfirmationClass::CommittedIndependent) ==> r is Ok,
        !(class == ConfirmationClass::CommittedPrimary || class
            == ConfirmationClass::CommittedIndependent) ==> r == Err::<(), PublicationError>(
            PublicationError::NotCommitted,
        ),
{
    match class {
        ConfirmationClass::CommittedPrimary | ConfirmationClass::CommittedIndependent => Ok(()),
        _ => Err(PublicationError::NotCommitted),
    }
}

/// A message's identifier equals its ASCII lower-case form.
pub open spec fn lowercase_id(s: Seq<char>) -> bool {
    forall|i: int| 0 <= i < s.len() ==> ascii_lower(#[trigger] s[i]) == s[i]
}

fn is_lowercase_id(s: &str) -> (r: bool)
    ensures
        r == lowercase_id(s@),
{
    let v = chars_of(s);
    let mut i: usize = 0;
    while i < v.len()
        invariant
            v@ == s@,
            i <= v@.len(),
            forall|j: int| 0 <= j < i ==> ascii_lower(#[trigger] s@[j]) == s@[j],
        decreases v@.len() - i,
    {
        if char_ascii_lower(v[i]) != v[i] {
            return false;
        }
        i = i + 1;
    }
    true
}

/// The binding a published message carries to its block and archive.
#[derive(Debug, Clone, PartialEq, Eq)]
pub struct BlockBinding {
    pub chain_id: String,
    pub block_height: u64,
    pub canonical_block_hash: [u8; 32],
    pub archive_receipt_id: String,
    pub archive_manifest_sha256: [u8; 32],
}

/// One message bound for the canonical bus.
#[derive(Debug, Clone, PartialEq, Eq)]
pub struct PublicationMessage {
    subject: Subject,
    message_id: String,
    schema_version: String,
    binding: BlockBinding,
    publication_sha256: [u8; 32],
    payload: Vec<u8>,
}

/// Plain values of a [`PublicationMessage`].
pub struct MessageModel {
    pub subject: Subject,
    pub message_id: Seq<char>,
    pub schema_version: Seq<char>,
    pub canonical_block_hash: [u8; 32],
    pub archive_manifest_sha256: [u8; 32],
    pub publication_sha256: [u8; 32],
    pub payload: Seq<u8>,
}

impl View for PublicationMessage {
    type V = MessageModel;

    closed spec fn view(&self) -> MessageModel {
        MessageModel {
            subject: self.subject,
            message_id: self.message_id@,
            schema_version: self.schema_version@,
            canonical_block_hash: self.binding.canonical_block_hash,
            archive_manifest_sha256: self.binding.archive_manifest_sha256,
            publication_sha256: self.publication_sha256,
            payload: self.payload@,
        }
    }
}

/// The first rule a message breaks, if any.
pub open spec fn message_error(message_id: Seq<char>, schema_version: Seq<char>, payload_len: nat) -> Option<
    PublicationError,
> {
    if !identity_ok(message_id, MAX_PUBLICATION_IDENTITY_BYTES as nat) || !identity_ok(
        schema_version,
        MAX_PUBLICATION_IDENTITY_BYTES as nat,
    ) {
        Some(PublicationError::InvalidIdentity)
    } else if !lowercase_id(message_id) {
        Some(PublicationError::NonCanonicalMessageId)
    } else if payload_len == 0 || payload_len > MAX_PUBLICATION_PAYLOAD_BYTES {
        Some(
            PublicationError::PayloadSize {
                actual: payload_len as usize,
                limit: MAX_PUBLICATION_PAYLOAD_BYTES,
            },
        )
    } else {
        None
    }
}

impl PublicationMessage {
    /// A message with a valid, lower-case identifier and schema, and a payload of 1 byte to
    /// 7.5 MB whose SHA-256 digest it carries.
    pub fn try_new(
        subject: Subject,
        message_id: &str,
        schema_version: &str,
        binding: BlockBinding,
        payload: Vec<u8>,
    ) -> (r: Result<Self, PublicationError>)
        ensures
            match message_error(message_id@, schema_version@, payload@.len()) {
                Some(e) => r == Err::<Self, PublicationError>(e),
                None => r matches Ok(m) && m@ == (MessageModel {
                    subject,
                    message_id: message_id@,
                    schema_version: schema_version@,
                    canonical_block_hash: binding.canonical_block_hash,
                    archive_manifest_sha256: binding.archive_manifest_sha256,
                    publication_sha256: m@.publication_sha256,
                    payload: payload@,
                }) && m@.publication_sha256@ == sha256_digest(payload@),
            },
    {
        if !valid_identity(message_id, MAX_PUBLICATION_IDENTITY_BYTES) || !valid_identity(
            schema_version,
            MAX_PUBLICATION_IDENTITY_BYTES,
        ) {
            return Err(PublicationError::InvalidIdentity);
        }
        if !is_lowercase_id(message_id) {
            return Err(PublicationError::NonCanonicalMessageId);
        }
        if payload.len() == 0 || payload.len() > MAX_PUBLICATION_PAYLOAD_BYTES {
            return Err(
                PublicationError::PayloadSize {
                    actual: payload.len(),
                    limit: MAX_PUBLICATION_PAYLOAD_BYTES,
                },
            );
        }
        let publication_sha256 = sha256(payload.as_slice());
        Ok(
            PublicationMessage {
                subject,
                message_id: owned(message_id),
                schema_version: owned(schema_version),
                binding,
                publication_sha256,
                payload,
            },
        )
    }

    pub fn subject(&self) -> (r: Subject)
        ensures
            r == self@.subject,
    {
        self.subject
    }

    pub fn stream(&self) -> (r: &'static str)
        ensures
            r@ == self@.subject.stream_name(),
    {
        self.subject.stream()
    }

    pub fn message_id(&self) -> (r: &str)
        ensures
            r@ == self@.message_id,
    {
        self.message_id.as_str()
    }

    pub fn publication_sha256(&self) -> (r: [u8; 32])
        ensures
            r == self@.publication_sha256,
    {
        self.publication_sha256
    }

    pub fn payload(&self) -> (r: &[u8])
        ensures
            r@ == self@.payload,
    {
        self.payload.as_slice()
    }
}

/// The bus's acknowledgement of one publication.
#[derive(Debug, Clone, PartialEq, Eq)]
pub struct PublicationAck {
    message_id: String,
    stream: String,
    stream_sequence: u64,
    duplicate: bool,
    publication_sha256: [u8; 32],
}

impl PublicationAck {
    pub closed spec fn spec_message_id(&self) -> Seq<char> {
        self.message_id@
    }

    pub closed spec fn spec_stream(&self) -> Seq<char> {
        self.stream@
    }

    pub closed spec fn spec_stream_sequence(&self) -> u64 {
        self.stream_sequence
    }

    pub closed spec fn spec_duplicate(&self) -> bool {
        self.duplicate
    }

    pub closed spec fn spec_publication_sha256(&self) -> [u8; 32] {
        self.publication_sha256
    }

    /// The acknowledgement of `message`, which must come from the message's stream with a
    /// nonzero sequence.
    pub fn try_new(
        message: &PublicationMessage,
        stream: &str,
        stream_sequence: u64,
        duplicate: bool,
    ) -> (r: Result<Self, PublicationError>)
        ensures
            stream@ != message@.subject.stream_name() ==> r == Err::<Self, PublicationError>(
                PublicationError::UnexpectedAckStream,
            ),
            stream@ == message@.subject.stream_name() && stream_sequence == 0 ==> r == Err::<
                Self,
                PublicationError,
            >(PublicationError::InvalidAck),
            stream@ == message@.subject.stream_name() && stream_sequence != 0 ==> (r matches Ok(a)
                && a.spec_message_id() == message@.message_id && a.spec_stream() == stream@
                && a.spec_stream_sequence() == stream_sequence && a.spec_duplicate() == duplicate
                && a.spec_publication_sha256() == message@.publication_sha256),
    {
        if !crate::text::same_text(stream, message.stream()) {
            return Err(PublicationError::UnexpectedAckStream);
        }
        if stream_sequence == 0 {
            return Err(PublicationError::InvalidAck);
        }
        Ok(
            PublicationAck {
                message_id: owned(message.message_id.as_str()),
                stream: owned(stream),
                stream_sequence,
                duplicate,
                publication_sha256: message.publication_sha256,
            },
        )
    }

    pub fn message_id(&self) -> (r: &str)
        ensures
            r@ == self.spec_message_id(),
    {
        self.message_id.as_str()
    }

    pub fn stream(&self) -> (r: &str)
        ensures
            r@ == self.spec_stream(),
    {
        self.stream.as_str()
    }

    pub fn stream_sequence(&self) -> (r: u64)
        ensures
            r == self.spec_stream_sequence(),
    {
        self.stream_sequence
    }

    pub fn duplicate(&self) -> (r: bool)
        ensures
            r == self.spec_duplicate(),
    {
        self.duplicate
    }

    pub fn publication_sha256(&self) -> (r: [u8; 32])
        ensures
            r == self.spec_publication_sha256(),
    {
        self.publication_sha256
    }
}

/// Whether a recorded message was new.
#[derive(Debug, Clone, Copy, PartialEq, Eq, Structural)]
pub enum PublicationDisposition {
    New,
    IdenticalDuplicate,
}

/// What the ledger remembers of a message: its content, block and subject.
#[derive(Debug, Clone, Copy, PartialEq, Eq)]
pub struct PublicationFingerprint {
    pub publication_sha256: [u8; 32],
    pub canonical_block_hash: [u8; 32],
    pub archive_manifest_sha256: [u8; 32],
    pub subject: Subject,
}

/// The fingerprint of a message.
pub open spec fn fingerprint_of(m: MessageModel) -> PublicationFingerprint {
    PublicationFingerprint {
        publication_sha256: m.publication_sha256,
        canonical_block_hash: m.canonical_block_hash,
        archive_manifest_sha256: m.archive_manifest_sha256,
        subject: m.subject,
    }
}

/// Remembers, up to a limit, the fingerprint each message identifier was published with.
#[derive(Debug)]
pub struct PublicationLedger {
    limit: usize,
    hashes: StrMap<PublicationFingerprint>,
}

/// Plain values of a [`PublicationLedger`].
pub struct LedgerModel {
    pub limit: usize,
    pub entries: Seq<(Seq<char>, PublicationFingerprint)>,
}

impl View for PublicationLedger {
    type V = LedgerModel;

    closed spec fn view(&self) -> LedgerModel {
        LedgerModel { limit: self.limit, entries: self.hashes@ }
    }
}

/// Recording message `m` in a ledger in state `pre`: the disposition or refusal, and the
/// entries after.
pub open spec fn ledger_step(
    pre: LedgerModel,
    m: MessageModel,
    r: Result<PublicationDisposition, PublicationError>,
    post: LedgerModel,
) -> bool {
    &&& post.limit == pre.limit
    &&& match lookup(pre.entries, m.message_id) {
        Some(existing) => post.entries == pre.entries && if existing == fingerprint_of(m) {
            r == Ok::<PublicationDisposition, PublicationError>(
                PublicationDisposition::IdenticalDuplicate,
            )
        } else {
            r matches Err(PublicationError::DivergentMessageId { message_id }) && message_id@
                == m.message_id
        },
        None => if pre.entries.len() >= pre.limit {
            post.entries == pre.entries && r == Err::<PublicationDisposition, PublicationError>(
                PublicationError::LedgerCapacityExceeded { limit: pre.limit },
            )
        } else {
            &&& r == Ok::<PublicationDisposition, PublicationError>(PublicationDisposition::New)
            &&& post.entries.len() == pre.entries.len() + 1
            &&& forall|k: Seq<char>| #[trigger]
                lookup(post.entries, k) == if k == m.message_id {
                    Some(fingerprint_of(m))
                } else {
                    lookup(pre.entries, k)
                }
        },
    }
}

impl PublicationLedger {
    pub fn new(limit: usize) -> (r: Result<Self, PublicationError>)
        ensures
            limit == 0 ==> r == Err::<Self, PublicationError>(
                PublicationError::InvalidLedgerCapacity,
            ),
            limit > 0 ==> (r matches Ok(l) && l@.limit == limit && l@.entries.len() == 0),
    {
        if limit == 0 {
            return Err(PublicationError::InvalidLedgerCapacity);
        }
        Ok(PublicationLedger { limit, hashes: StrMap::new() })
    }

    /// Records a message: new, an identical repeat, or a refused divergent reuse of its
    /// identifier; a new identifier past the limit is refused.
    pub fn record(&mut self, message: &PublicationMessage) -> (r: Result<
        PublicationDisposition,
        PublicationError,
    >)
        ensures
            ledger_step(old(self)@, message@, r, final(self)@),
    {
        let fingerprint = PublicationFingerprint {
            publication_sha256: message.publication_sha256,
            canonical_block_hash: message.binding.canonical_block_hash,
            archive_manifest_sha256: message.binding.archive_manifest_sha256,
            subject: message.subject,
        };
        match self.hashes.get(message.message_id.as_str()) {
            Some(existing) => {
                let same = same_hash(&existing.publication_sha256, &fingerprint.publication_sha256)
                    && same_hash(&existing.canonical_block_hash, &fingerprint.canonical_block_hash)
                    && same_hash(
                    &existing.archive_manifest_sha256,
                    &fingerprint.archive_manifest_sha256,
                ) && existing.subject == fingerprint.subject;
                if same {
                    return Ok(PublicationDisposition::IdenticalDuplicate);
                }
                return Err(
                    PublicationError::DivergentMessageId {
                        message_id: owned(message.message_id.as_str()),
                    },
                );
            },
            None => {},
        }
        if self.hashes.len() >= self.limit {
            return Err(PublicationError::LedgerCapacityExceeded { limit: self.limit });
        }
        self.hashes.insert(owned(message.message_id.as_str()), fingerprint);
        Ok(PublicationDisposition::New)
    }

    pub fn len(&self) -> (r: usize)
        ensures
            r == self@.entries.len(),
    {
        self.hashes.len()
    }

    pub fn is_empty(&self) -> (r: bool)
        ensures
            r == (self@.entries.len() == 0),
    {
        self.hashes.len() == 0
    }
}

/// Recording a message twice: the second time is an identical duplicate and changes
/// nothing.
pub proof fn law_record_is_idempotent(
    pre: LedgerModel,
    m: MessageModel,
    r1: Result<PublicationDisposition, PublicationError>,
    mid: LedgerModel,
    r2: Result<PublicationDisposition, PublicationError>,
    post: LedgerModel,
)
    requires
        ledger_step(pre, m, r1, mid),
        r1 is Ok,
        ledger_step(mid, m, r2, post),
    ensures
        r2 == Ok::<PublicationDisposition, PublicationError>(
            PublicationDisposition::IdenticalDuplicate,
        ),
        post == mid,
{
}

/// The ledger never holds more identifiers than its limit.
pub proof fn law_ledger_within_limit(
    pre: LedgerModel,
    m: MessageModel,
    r: Result<PublicationDisposition, PublicationError>,
    post: LedgerModel,
)
    requires
        pre.entries.len() <= pre.limit,
        ledger_step(pre, m, r, post),
    ensures
        post.entries.len() <= post.limit,
{
}

/// A refused record leaves the ledger as it was.
pub proof fn law_refusal_changes_nothing(
    pre: LedgerModel,
    m: MessageModel,
    r: Result<PublicationDisposition, PublicationError>,
    post: LedgerModel,
)
    requires
        ledger_step(pre, m, r, post),
        r is Err,
    ensures
        post == pre,
{
}

/// A source block hash a marker lists.
#[derive(Debug, Clone, PartialEq, Eq)]
pub struct MarkerSource {
    pub source_id: String,
    pub source_hash: [u8; 32],
}

/// A canonical event a block carries, with its canonical encoding.
#[derive(Debug, Clone, PartialEq, Eq)]
pub struct MarkerEvent {
    pub event_id: String,
    pub kind: EventKind,
    pub wire_name: String,
    pub schema_version: String,
    pub payload_hash: [u8; 32],
    pub encoded: Vec<u8>,
}

/// The block and archive receipt a committed publication describes.
#[derive(Debug, Clone, PartialEq, Eq)]
pub struct CommittedBlock {
    pub chain_id: String,
    pub block_height: u64,
    pub block_time_micros: i64,
    pub confirmation: ConfirmationClass,
    pub canonical_block_hash: [u8; 32],
    pub sources: Vec<MarkerSource>,
    pub events: Vec<MarkerEvent>,
}

/// The archive receipt of a block.
#[derive(Debug, Clone, PartialEq, Eq)]
pub struct ArchiveReceipt {
    pub block_height: u64,
    pub canonical_block_hash: [u8; 32],
    pub receipt_id: String,
    pub manifest_id: String,
    pub manifest_sha256: [u8; 32],
    pub schema_fingerprint: Vec<u8>,
}

/// A length-prefixed field: the length as eight big-endian bytes, then the bytes.
pub open spec fn counted(b: Seq<u8>) -> Seq<u8> {
    be_bytes_u64(b.len() as u64) + b
}

pub open spec fn utf8(s: Seq<char>) -> Seq<u8> {
    vstd::utf8::encode_utf8(s)
}

/// The confirmation tag of a committed block.
pub open spec fn confirmation_tag(c: ConfirmationClass) -> u8 {
    if c == ConfirmationClass::CommittedPrimary {
        2
    } else {
        3
    }
}

pub open spec fn sources_bytes(s: Seq<MarkerSource>) -> Seq<u8>
    decreases s.len(),
{
    if s.len() == 0 {
        seq![]
    } else {
        sources_bytes(s.drop_last()) + counted(utf8(s.last().source_id@)) + s.last().source_hash@
    }
}

pub open spec fn events_bytes(e: Seq<MarkerEvent>) -> Seq<u8>
    decreases e.len(),
{
    if e.len() == 0 {
        seq![]
    } else {
        events_bytes(e.drop_last()) + counted(utf8(e.last().event_id@)) + counted(
            utf8(e.last().wire_name@),
        ) + e.last().payload_hash@ + sha256_digest(e.last().encoded@)
    }
}

/// The frozen block-marker layout.
pub open spec fn block_marker(b: CommittedBlock, r: ArchiveReceipt) -> Seq<u8> {
    counted(utf8(BLOCK_MARKER_SCHEMA_V1@)) + counted(utf8(b.chain_id@)) + be_bytes_u64(
        b.block_height,
    ) + be_bytes_u64(b.block_time_micros as u64) + seq![confirmation_tag(b.confirmation)]
        + b.canonical_block_hash@ + counted(utf8(r.receipt_id@)) + counted(utf8(r.manifest_id@))
        + r.manifest_sha256@ + r.schema_fingerprint@ + be_bytes_u64(b.sources@.len() as u64)
        + sources_bytes(b.sources@) + be_bytes_u64(b.events@.len() as u64) + events_bytes(
        b.events@,
    )
}

fn push_counted(out: &mut Vec<u8>, value: &[u8])
    ensures
        final(out)@ == old(out)@ + counted(value@),
{
    append_u64_be(out, value.len() as u64);
    append_bytes(out, value);
    assert(final(out)@ =~= old(out)@ + counted(value@));
}

/// Encodes the block marker of a committed block; any other block is refused.
pub fn encode_block_marker(block: &CommittedBlock, receipt: &ArchiveReceipt) -> (r: Result<
    Vec<u8>,
    PublicationError,
>)
    ensures
        (block.confirmation == ConfirmationClass::CommittedPrimary || block.confirmation
            == ConfirmationClass::CommittedIndependent) ==> (r matches Ok(v) && v@ == block_marker(
            *block,
            *receipt,
        )),
        !(block.confirmation == ConfirmationClass::CommittedPrimary || block.confirmation
            == ConfirmationClass::CommittedIndependent) ==> r == Err::<Vec<u8>, PublicationError>(
            PublicationError::NotCommitted,
        ),
{
    let tag: u8 = match block.confirmation {
        ConfirmationClass::CommittedPrimary => 2,
        ConfirmationClass::CommittedIndependent => 3,
        _ => {
            return Err(PublicationError::NotCommitted);
        },
    };
    let mut out: Vec<u8> = Vec::new();
    push_counted(&mut out, BLOCK_MARKER_SCHEMA_V1.as_bytes());
    push_counted(&mut out, block.chain_id.as_str().as_bytes());
    append_u64_be(&mut out, block.block_height);
    append_u64_be(&mut out, block.block_time_micros as u64);
    out.push(tag);
    append_bytes(&mut out, block.canonical_block_hash.as_slice());
    push_counted(&mut out, receipt.receipt_id.as_str().as_bytes());
    push_counted(&mut out, receipt.manifest_id.as_str().as_bytes());
    append_bytes(&mut out, receipt.manifest_sha256.as_slice());
    append_bytes(&mut out, receipt.schema_fingerprint.as_slice());
    let ghost head = out@;
    append_u64_be(&mut out, block.sources.len() as u64);
    let mut i: usize = 0;
    while i < block.sources.len()
        invariant
            i <= block.sources@.len(),
            out@ == head + be_bytes_u64(block.sources@.len() as u64) + sources_bytes(
                block.sources@.take(i as int),
            ),
        decreases block.sources@.len() - i,
    {
        push_counted(&mut out, block.sources[i].source_id.as_str().as_bytes());
        append_bytes(&mut out, block.sources[i].source_hash.as_slice());
        proof {
            let t = block.sources@.take(i + 1);
            assert(t.drop_last() =~= block.sources@.take(i as int));
            assert(t.last() == block.sources@[i as int]);
            assert(out@ =~= head + be_bytes_u64(block.sources@.len() as u64) + sources_bytes(t));
        }
        i = i + 1;
    }
    assert(block.sources@.take(block.sources@.len() as int) =~= block.sources@);
    let ghost mid = out@;
    append_u64_be(&mut out, block.events.len() as u64);
    let mut j: usize = 0;
    while j < block.events.len()
        invariant
            j <= block.events@.len(),
            out@ == mid + be_bytes_u64(block.events@.len() as u64) + events_bytes(
                block.events@.take(j as int),
            ),
        decreases block.events@.len() - j,
    {
        let event = &block.events[j];
        push_counted(&mut out, event.event_id.as_str().as_bytes());
        push_counted(&mut out, event.wire_name.as_str().as_bytes());
        append_bytes(&mut out, event.payload_hash.as_slice());
        let digest = sha256(event.encoded.as_slice());
        append_bytes(&mut out, digest.as_slice());
        proof {
            let t = block.events@.take(j + 1);
            assert(t.drop_last() =~= block.events@.take(j as int));
            assert(t.last() == block.events@[j as int]);
            assert(out@ =~= mid + be_bytes_u64(block.events@.len() as u64) + events_bytes(t));
        }
        j = j + 1;
    }
    assert(block.events@.take(block.events@.len() as int) =~= block.events@);
    assert(out@ =~= block_marker(*block, *receipt));
    Ok(out)
}

/// A committed block whose receipt matches it and whose messages all meet the rules.
pub open spec fn batch_valid(block: CommittedBlock, receipt: ArchiveReceipt) -> bool {
    &&& receipt.block_height == block.block_height
    &&& receipt.canonical_block_hash == block.canonical_block_hash
    &&& (block.confirmation == ConfirmationClass::CommittedPrimary || block.confirmation
        == ConfirmationClass::CommittedIndependent)
    &&& message_error(
        "blk_"@ + hex_lower(block.canonical_block_hash@),
        BLOCK_MARKER_SCHEMA_V1@,
        block_marker(block, receipt).len(),
    ) is None
    &&& forall|i: int|
        0 <= i < block.events@.len() ==> message_error(
            (#[trigger] block.events@[i]).event_id@,
            block.events@[i].schema_version@,
            block.events@[i].encoded@.len(),
        ) is None
}

/// The block message and event messages of one committed block.
#[derive(Debug, Clone, PartialEq, Eq)]
pub struct CommittedPublicationBatch {
    block: PublicationMessage,
    events: Vec<PublicationMessage>,
}

impl CommittedPublicationBatch {
    pub closed spec fn spec_block(&self) -> MessageModel {
        self.block@
    }

    pub closed spec fn spec_events(&self) -> Seq<MessageModel> {
        self.events@.map_values(|m: PublicationMessage| m@)
    }

    /// The messages of a committed block bound to its archive receipt: the block marker
    /// under `blk_{hash}`, then one message per event under its own identifier.
    pub fn try_new(block: &CommittedBlock, receipt: &ArchiveReceipt) -> (r: Result<
        Self,
        PublicationError,
    >)
        ensures
            (receipt.block_height != block.block_height || receipt.canonical_block_hash
                != block.canonical_block_hash) ==> r == Err::<Self, PublicationError>(
                PublicationError::ArchiveReceiptMismatch,
            ),
            receipt.block_height == block.block_height && receipt.canonical_block_hash
                == block.canonical_block_hash && !(block.confirmation
                == ConfirmationClass::CommittedPrimary || block.confirmation
                == ConfirmationClass::CommittedIndependent) ==> r == Err::<Self, PublicationError>(
                PublicationError::NotCommitted,
            ),
            batch_valid(*block, *receipt) <==> r is Ok,
            r matches Ok(batch) ==> batch.spec_block().subject == Subject::BlockCommitted
                && batch.spec_block().message_id == "blk_"@ + hex_lower(
                block.canonical_block_hash@,
            ) && batch.spec_block().payload == block_marker(*block, *receipt)
                && batch.spec_events().len() == block.events@.len() && forall|i: int|
                0 <= i < block.events@.len() ==> (#[trigger] batch.spec_events()[i]).subject
                    == event_subject(block.events@[i].kind) && batch.spec_events()[i].message_id
                    == block.events@[i].event_id@ && batch.spec_events()[i].payload
                    == block.events@[i].encoded@,
    {
        if receipt.block_height != block.block_height || !same_hash(
            &receipt.canonical_block_hash,
            &block.canonical_block_hash,
        ) {
            return Err(PublicationError::ArchiveReceiptMismatch);
        }
        admit_committed_publication(block.confirmation)?;
        let payload = encode_block_marker(block, receipt)?;
        let binding = BlockBinding {
            chain_id: owned(block.chain_id.as_str()),
            block_height: block.block_height,
            canonical_block_hash: block.canonical_block_hash,
            archive_receipt_id: owned(receipt.receipt_id.as_str()),
            archive_manifest_sha256: receipt.manifest_sha256,
        };
        let mut id = owned("blk_");
        crate::text::push_str(&mut id, hex_encode(block.canonical_block_hash.as_slice()).as_str());
        let block_message = PublicationMessage::try_new(
            Subject::BlockCommitted,
            id.as_str(),
            BLOCK_MARKER_SCHEMA_V1,
            binding,
            payload,
        )?;
        let mut events: Vec<PublicationMessage> = Vec::new();
        let mut i: usize = 0;
        while i < block.events.len()
            invariant
                receipt.block_height == block.block_height,
                receipt.canonical_block_hash == block.canonical_block_hash,
                block.confirmation == ConfirmationClass::CommittedPrimary || block.confirmation
                    == ConfirmationClass::CommittedIndependent,
                message_error(
                    "blk_"@ + hex_lower(block.canonical_block_hash@),
                    BLOCK_MARKER_SCHEMA_V1@,
                    block_marker(*block, *receipt).len(),
                ) is None,
                forall|k: int|
                    0 <= k < i ==> message_error(
                        (#[trigger] block.events@[k]).event_id@,
                        block.events@[k].schema_version@,
                        block.events@[k].encoded@.len(),
                    ) is None,
                i <= block.events@.len(),
                events@.len() == i,
                forall|k: int|
                    0 <= k < i ==> (#[trigger] events@[k])@.subject == event_subject(
                        block.events@[k].kind,
                    ) && events@[k]@.message_id == block.events@[k].event_id@ && events@[k]@.payload
                        == block.events@[k].encoded@,
            decreases block.events@.len() - i,
        {
            let event = &block.events[i];
            let binding = BlockBinding {
                chain_id: owned(block.chain_id.as_str()),
                block_height: block.block_height,
                canonical_block_hash: block.canonical_block_hash,
                archive_receipt_id: owned(receipt.receipt_id.as_str()),
                archive_manifest_sha256: receipt.manifest_sha256,
            };
            let message = PublicationMessage::try_new(
                subject_for_event_kind(event.kind),
                event.event_id.as_str(),
                event.schema_version.as_str(),
                binding,
                crate::digest::copy_bytes(event.encoded.as_slice()),
            )?;
            events.push(message);
            i = i + 1;
        }
        assert(batch_valid(*block, *receipt));
        Ok(CommittedPublicationBatch { block: block_message, events })
    }

    pub fn block(&self) -> (r: &PublicationMessage)
        ensures
            r@ == self.spec_block(),
    {
        &self.block
    }

    pub fn events(&self) -> (r: &[PublicationMessage])
        ensures
            r@.map_values(|m: PublicationMessage| m@) == self.spec_events(),
    {
        self.events.as_slice()
    }
}

} // verus!
