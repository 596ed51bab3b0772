//! The auxiliary archive checkpoint: which closed spool segment of a source was archived,
//! the rules a checkpoint must meet to be trusted, and the decisions around reading,
//! publishing and cleaning up after it.

use vstd::prelude::*;

use crate::digest::{blake3_digest, digest_from_vec, hex_decode, hex_decoded};
use crate::text::{chars_of, decimal_text, owned, push_decimal, push_str, same_text};

verus! {

/// The schema of the auxiliary archive checkpoint.
pub const AUX_CHECKPOINT_SCHEMA: &'static str = "hl.auxiliary-archive-checkpoint.v1";

/// The checkpoint's file name in the spool directory.
pub const AUX_CHECKPOINT_FILE: &'static str = "auxiliary-archive-checkpoint-v1.json";

/// The name it is written under before it is renamed into place.
pub const AUX_CHECKPOINT_TEMP_FILE: &'static str = "auxiliary-archive-checkpoint-v1.json.tmp";

/// The largest checkpoint file trusted.
pub const MAX_AUX_CHECKPOINT_BYTES: u64 = 16384;

/// The most raw manifests one checkpoint may name.
pub const MAX_RAW_MANIFEST_IDS: usize = 4096;

/// Why a checkpoint or an archived spool file is refused.
#[derive(Debug, Clone, Copy, PartialEq, Eq, Structural)]
pub enum AuxCheckpointError {
    InvalidManifest,
    UnsafeSpoolEntry,
    ManifestContentMismatch,
}

/// The last archived segment of a source's spool.
#[derive(Debug, Clone)]
pub struct AuxiliaryArchiveCheckpoint {
    pub schema_version: String,
    pub source_id: String,
    pub source_version: String,
    pub archive_identity: String,
    pub segment_sequence: u64,
    pub segment_file: String,
    pub segment_blake3: String,
    pub manifest_file: String,
    pub manifest_blake3: String,
    pub raw_manifest_ids: Vec<String>,
    pub first_local_sequence: u64,
    pub cursor_epoch: String,
    pub cursor_offset: u64,
    pub local_sequence: u64,
    pub record_count: u64,
    pub last_received_wall_micros: i64,
    pub quarantine_reason: Option<String>,
}

pub struct AuxCheckpointModel {
    pub schema_version: Seq<char>,
    pub source_id: Seq<char>,
    pub source_version: Seq<char>,
    pub archive_identity: Seq<char>,
    pub segment_sequence: u64,
    pub segment_file: Seq<char>,
    pub segment_blake3: Seq<char>,
    pub manifest_file: Seq<char>,
    pub manifest_blake3: Seq<char>,
    pub raw_manifest_ids: Seq<Seq<char>>,
    pub first_local_sequence: u64,
    pub cursor_epoch: Seq<char>,
    pub cursor_offset: u64,
    pub local_sequence: u64,
    pub record_count: u64,
    pub last_received_wall_micros: i64,
    pub quarantine_reason: Option<Seq<char>>,
}

impl View for AuxiliaryArchiveCheckpoint {
    type V = AuxCheckpointModel;

    open spec fn view(&self) -> AuxCheckpointModel {
        AuxCheckpointModel {
            schema_version: self.schema_version@,
            source_id: self.source_id@,
            source_version: self.source_version@,
            archive_identity: self.archive_identity@,
            segment_sequence: self.segment_sequence,
            segment_file: self.segment_file@,
            segment_blake3: self.segment_blake3@,
            manifest_file: self.manifest_file@,
            manifest_blake3: self.manifest_blake3@,
            raw_manifest_ids: self.raw_manifest_ids@.map_values(|s: String| s@),
            first_local_sequence: self.first_local_sequence,
            cursor_epoch: self.cursor_epoch@,
            cursor_offset: self.cursor_offset,
            local_sequence: self.local_sequence,
            record_count: self.record_count,
            last_received_wall_micros: self.last_received_wall_micros,
            quarantine_reason: match self.quarantine_reason {
                Some(q) => Some(q@),
                None => None,
            },
        }
    }
}

/// `s` left-padded with zeros to `width` characters.
pub open spec fn zero_padded(s: Seq<char>, width: nat) -> Seq<char> {
    if s.len() < width {
        Seq::new((width - s.len()) as nat, |i: int| '0') + s
    } else {
        s
    }
}

/// The file name of spool segment `sequence`: its number padded to ten digits.
pub open spec fn segment_file_name(sequence: u64) -> Seq<char> {
    "segment-"@ + zero_padded(decimal_text(sequence as nat), 10) + ".hlsp"@
}

/// A content hash written as 64 hex digits.
pub open spec fn hash_hex_ok(h: Seq<char>) -> bool {
    hex_decoded(h) matches Some(b) && b.len() == 32
}

/// The rules a checkpoint meets for a source, version and archive: this schema and these
/// names, a 32-byte archive identity, nonzero sequences and count whose records end at
/// the last local sequence, one to 4096 raw manifests, a nonnegative receive time, the
/// segment and manifest files named after the segment sequence, and both hashes readable.
pub open spec fn checkpoint_valid(
    c: AuxCheckpointModel,
    source_id: Seq<char>,
    source_version: Seq<char>,
    archive_identity: Seq<char>,
) -> bool {
    &&& c.schema_version == AUX_CHECKPOINT_SCHEMA@
    &&& c.source_id == source_id
    &&& c.source_version == source_version
    &&& c.archive_identity == archive_identity
    &&& hash_hex_ok(c.archive_identity)
    &&& c.segment_sequence != 0
    &&& c.local_sequence != 0
    &&& c.first_local_sequence != 0
    &&& c.record_count != 0
    &&& c.first_local_sequence + (c.record_count - 1) == c.local_sequence
    &&& c.raw_manifest_ids.len() > 0
    &&& c.raw_manifest_ids.len() <= MAX_RAW_MANIFEST_IDS
    &&& c.last_received_wall_micros >= 0
    &&& c.segment_file == segment_file_name(c.segment_sequence)
    &&& c.manifest_file == c.segment_file + ".manifest"@
    &&& hash_hex_ok(c.segment_blake3)
    &&& hash_hex_ok(c.manifest_blake3)
}

/// The name of spool segment `sequence`.
pub fn segment_file(sequence: u64) -> (r: String)
    ensures
        r@ == segment_file_name(sequence),
{
    let mut digits = String::new();
    push_decimal(&mut digits, sequence);
    let d = chars_of(digits.as_str());
    let mut out = owned("segment-");
    let mut pad: usize = d.len();
    while pad < 10
        invariant
            d.len() <= pad <= 10 || (pad == d.len() && d.len() > 10),
            out@ == "segment-"@ + Seq::new((pad - d.len()) as nat, |i: int| '0'),
        decreases 10 - pad,
    {
        push_str(&mut out, "0");
        proof {
            reveal_strlit("0");
        }
        pad = pad + 1;
        assert(out@ =~= "segment-"@ + Seq::new((pad - d.len()) as nat, |i: int| '0'));
    }
    push_str(&mut out, digits.as_str());
    push_str(&mut out, ".hlsp");
    proof {
        if d@.len() < 10 {
            assert(pad == 10);
        } else {
            assert(Seq::new((pad - d.len()) as nat, |i: int| '0') =~= Seq::<char>::empty());
        }
        assert(out@ =~= segment_file_name(sequence));
    }
    out
}

/// The 32 bytes a hex content hash names.
pub fn decode_hash(value: &str) -> (r: Result<[u8; 32], AuxCheckpointError>)
    ensures
        hash_hex_ok(value@) ==> (r matches Ok(h) && Some(h@) == hex_decoded(value@)),
        !hash_hex_ok(value@) ==> r == Err::<[u8; 32], AuxCheckpointError>(AuxCheckpointError::InvalidManifest),
{
    match hex_decode(value) {
        Some(bytes) => {
            if bytes.len() != 32 {
                return Err(AuxCheckpointError::InvalidManifest);
            }
            Ok(digest_from_vec(&bytes))
        },
        None => Err(AuxCheckpointError::InvalidManifest),
    }
}

impl AuxiliaryArchiveCheckpoint {
    /// Whether this checkpoint may be trusted for a source, version and archive.
    pub fn validate(&self, source_id: &str, source_version: &str, archive_identity: &str) -> (r: Result<(), AuxCheckpointError>)
        ensures
            checkpoint_valid(self@, source_id@, source_version@, archive_identity@) <==> r is Ok,
            r is Err ==> r == Err::<(), AuxCheckpointError>(AuxCheckpointError::InvalidManifest),
    {
        if !same_text(self.schema_version.as_str(), AUX_CHECKPOINT_SCHEMA) || !same_text(
            self.source_id.as_str(),
            source_id,
        ) || !same_text(self.source_version.as_str(), source_version) || !same_text(
            self.archive_identity.as_str(),
            archive_identity,
        ) {
            return Err(AuxCheckpointError::InvalidManifest);
        }
        if decode_hash(self.archive_identity.as_str()).is_err() {
            return Err(AuxCheckpointError::InvalidManifest);
        }
        if self.segment_sequence == 0 || self.local_sequence == 0 || self.first_local_sequence == 0
            || self.record_count == 0 {
            return Err(AuxCheckpointError::InvalidManifest);
        }
        match self.first_local_sequence.checked_add(self.record_count - 1) {
            Some(last) => {
                if last != self.local_sequence {
                    return Err(AuxCheckpointError::InvalidManifest);
                }
            },
            None => {
                return Err(AuxCheckpointError::InvalidManifest);
            },
        }
        if self.raw_manifest_ids.len() == 0 || self.raw_manifest_ids.len() > MAX_RAW_MANIFEST_IDS
            || self.last_received_wall_micros < 0 {
            return Err(AuxCheckpointError::InvalidManifest);
        }
        let expected_segment = segment_file(self.segment_sequence);
        if !same_text(self.segment_file.as_str(), expected_segment.as_str()) {
            return Err(AuxCheckpointError::InvalidManifest);
        }
        let mut expected_manifest = owned(self.segment_file.as_str());
        push_str(&mut expected_manifest, ".manifest");
        if !same_text(self.manifest_file.as_str(), expected_manifest.as_str()) {
            return Err(AuxCheckpointError::InvalidManifest);
        }
        if decode_hash(self.segment_blake3.as_str()).is_err() || decode_hash(
            self.manifest_blake3.as_str(),
        ).is_err() {
            return Err(AuxCheckpointError::InvalidManifest);
        }
        Ok(())
    }

    /// The hash of the archived segment's manifest.
    pub fn spool_manifest_blake3(&self) -> (r: Result<[u8; 32], AuxCheckpointError>)
        ensures
            hash_hex_ok(self.manifest_blake3@) ==> (r matches Ok(h) && Some(h@) == hex_decoded(self.manifest_blake3@)),
            !hash_hex_ok(self.manifest_blake3@) ==> r is Err,
    {
        decode_hash(self.manifest_blake3.as_str())
    }

    /// The hash of the archived segment.
    pub fn spool_segment_blake3(&self) -> (r: Result<[u8; 32], AuxCheckpointError>)
        ensures
            hash_hex_ok(self.segment_blake3@) ==> (r matches Ok(h) && Some(h@) == hex_decoded(self.segment_blake3@)),
            !hash_hex_ok(self.segment_blake3@) ==> r is Err,
    {
        decode_hash(self.segment_blake3.as_str())
    }
}

/// The facts of a closed spool segment that a checkpoint records.
#[derive(Debug)]
pub struct ClosedSegment {
    pub source_id: String,
    pub source_version: String,
    pub segment_sequence: u64,
    pub segment_file: String,
    pub segment_blake3: [u8; 32],
    pub manifest_file: String,
    pub manifest_blake3: [u8; 32],
    pub first_local_sequence: Option<u64>,
    pub last_local_sequence: Option<u64>,
    pub cursor_epoch: String,
    pub cursor_offset: u64,
    pub record_count: u64,
}

/// The checkpoint recorded for a closed segment whose records run from `first` to `last`.
pub open spec fn built_checkpoint(
    segment: &ClosedSegment,
    archive_identity: Seq<char>,
    raw_manifest_ids: Seq<Seq<char>>,
    first: u64,
    last: u64,
    last_received_wall_micros: i64,
    quarantine_reason: Option<Seq<char>>,
) -> AuxCheckpointModel {
    AuxCheckpointModel {
        schema_version: AUX_CHECKPOINT_SCHEMA@,
        source_id: segment.source_id@,
        source_version: segment.source_version@,
        archive_identity,
        segment_sequence: segment.segment_sequence,
        segment_file: segment.segment_file@,
        segment_blake3: crate::digest::hex_lower(segment.segment_blake3@),
        manifest_file: segment.manifest_file@,
        manifest_blake3: crate::digest::hex_lower(segment.manifest_blake3@),
        raw_manifest_ids,
        first_local_sequence: first,
        cursor_epoch: segment.cursor_epoch@,
        cursor_offset: segment.cursor_offset,
        local_sequence: last,
        record_count: segment.record_count,
        last_received_wall_micros,
        quarantine_reason,
    }
}

/// The checkpoint published for a closed segment: refused when the segment has no
/// records, or the checkpoint built from it is not valid for its own source.
pub fn checkpoint_for(
    segment: &ClosedSegment,
    archive_identity: &str,
    raw_manifest_ids: &Vec<String>,
    last_received_wall_micros: i64,
    quarantine_reason: Option<String>,
) -> (r: Result<AuxiliaryArchiveCheckpoint, AuxCheckpointError>)
    ensures
        match (segment.first_local_sequence, segment.last_local_sequence) {
            (Some(first), Some(last)) => {
                let m = built_checkpoint(
                    segment,
                    archive_identity@,
                    raw_manifest_ids@.map_values(|s: String| s@),
                    first,
                    last,
                    last_received_wall_micros,
                    match quarantine_reason {
                        Some(q) => Some(q@),
                        None => None::<Seq<char>>,
                    },
                );
                if checkpoint_valid(m, segment.source_id@, segment.source_version@, archive_identity@) {
                    r matches Ok(c) && c@ == m
                } else {
                    r == Err::<AuxiliaryArchiveCheckpoint, AuxCheckpointError>(AuxCheckpointError::InvalidManifest)
                }
            },
            _ => r == Err::<AuxiliaryArchiveCheckpoint, AuxCheckpointError>(AuxCheckpointError::InvalidManifest),
        },
{
    let (first, last) = match (segment.first_local_sequence, segment.last_local_sequence) {
        (Some(f), Some(l)) => (f, l),
        _ => {
            return Err(AuxCheckpointError::InvalidManifest);
        },
    };
    let mut ids: Vec<String> = Vec::new();
    let mut i: usize = 0;
    while i < raw_manifest_ids.len()
        invariant
            i <= raw_manifest_ids@.len(),
            ids@.map_values(|s: String| s@) == raw_manifest_ids@.take(i as int).map_values(|s: String| s@),
        decreases raw_manifest_ids@.len() - i,
    {
        let ghost before = ids@;
        let x = owned(raw_manifest_ids[i].as_str());
        let ghost xv = x;
        ids.push(x);
        proof {
            let f = |s: String| s@;
            assert(ids@ =~= before.push(xv));
            crate::text::lemma_map_values_push(before, xv, f);
            assert(raw_manifest_ids@.take(i + 1) =~= raw_manifest_ids@.take(i as int).push(raw_manifest_ids@[i as int]));
            crate::text::lemma_map_values_push(raw_manifest_ids@.take(i as int), raw_manifest_ids@[i as int], f);
            assert(ids@.map_values(f) =~= raw_manifest_ids@.take(i + 1).map_values(f));
        }
        i = i + 1;
    }
    assert(raw_manifest_ids@.take(raw_manifest_ids@.len() as int) =~= raw_manifest_ids@);
    let checkpoint = AuxiliaryArchiveCheckpoint {
        schema_version: owned(AUX_CHECKPOINT_SCHEMA),
        source_id: owned(segment.source_id.as_str()),
        source_version: owned(segment.source_version.as_str()),
        archive_identity: owned(archive_identity),
        segment_sequence: segment.segment_sequence,
        segment_file: owned(segment.segment_file.as_str()),
        segment_blake3: crate::digest::hex_encode(&segment.segment_blake3),
        manifest_file: owned(segment.manifest_file.as_str()),
        manifest_blake3: crate::digest::hex_encode(&segment.manifest_blake3),
        raw_manifest_ids: ids,
        first_local_sequence: first,
        cursor_epoch: owned(segment.cursor_epoch.as_str()),
        cursor_offset: segment.cursor_offset,
        local_sequence: last,
        record_count: segment.record_count,
        last_received_wall_micros,
        quarantine_reason,
    };
    checkpoint.validate(segment.source_id.as_str(), segment.source_version.as_str(), archive_identity)?;
    Ok(checkpoint)
}

/// What loading a checkpoint does first, given whether its temporary file and the
/// checkpoint itself exist.
#[derive(Debug, Clone, Copy, PartialEq, Eq, Structural)]
pub enum CheckpointLoadStep {
    /// A stale temporary beside a published checkpoint: remove it, then read.
    RemoveTempThenRead,
    /// An unpublished temporary alone: remove it; there is no checkpoint.
    RemoveTempThenNone,
    /// Read the checkpoint, if there is one.
    Read,
}

pub fn checkpoint_load_step(temp_exists: bool, checkpoint_exists: bool) -> (r: CheckpointLoadStep)
    ensures
        r == if !temp_exists {
            CheckpointLoadStep::Read
        } else if checkpoint_exists {
            CheckpointLoadStep::RemoveTempThenRead
        } else {
            CheckpointLoadStep::RemoveTempThenNone
        },
{
    if !temp_exists {
        CheckpointLoadStep::Read
    } else if checkpoint_exists {
        CheckpointLoadStep::RemoveTempThenRead
    } else {
        CheckpointLoadStep::RemoveTempThenNone
    }
}

/// A checkpoint file is read only when it is a regular file, not a symlink, of at most
/// 16 KiB.
pub fn checkpoint_file_acceptable(is_file: bool, is_symlink: bool, len: u64) -> (r: Result<(), AuxCheckpointError>)
    ensures
        r is Ok <==> (is_file && !is_symlink && len <= MAX_AUX_CHECKPOINT_BYTES),
        r is Err ==> r == Err::<(), AuxCheckpointError>(AuxCheckpointError::InvalidManifest),
{
    if !is_file || is_symlink || len > MAX_AUX_CHECKPOINT_BYTES {
        return Err(AuxCheckpointError::InvalidManifest);
    }
    Ok(())
}

/// An encoded checkpoint, with its final newline, fits the 16 KiB limit.
pub fn encoded_checkpoint_fits(encoded_len: usize) -> (r: Result<(), AuxCheckpointError>)
    ensures
        r is Ok <==> encoded_len as nat + 1 <= MAX_AUX_CHECKPOINT_BYTES,
        r is Err ==> r == Err::<(), AuxCheckpointError>(AuxCheckpointError::InvalidManifest),
{
    if encoded_len as u64 >= MAX_AUX_CHECKPOINT_BYTES {
        return Err(AuxCheckpointError::InvalidManifest);
    }
    Ok(())
}

/// Whether an archived spool file may be removed: a regular file, not a symlink, whose
/// bytes hash to the recorded hash.
pub fn removal_allowed(is_file: bool, is_symlink: bool, bytes: &[u8], expected: &[u8; 32]) -> (r: Result<(), AuxCheckpointError>)
    ensures
        (!is_file || is_symlink) ==> r == Err::<(), AuxCheckpointError>(AuxCheckpointError::UnsafeSpoolEntry),
        (is_file && !is_symlink && blake3_digest(bytes@) != expected@) ==> r == Err::<(), AuxCheckpointError>(
            AuxCheckpointError::ManifestContentMismatch,
        ),
        (is_file && !is_symlink && blake3_digest(bytes@) == expected@) ==> r is Ok,
{
    if !is_file || is_symlink {
        return Err(AuxCheckpointError::UnsafeSpoolEntry);
    }
    let h = crate::digest::blake3_hash(bytes);
    if !crate::digest::same_hash(&h, expected) {
        proof {
            if blake3_digest(bytes@) == expected@ {
                assert(h =~= *expected);
            }
        }
        return Err(AuxCheckpointError::ManifestContentMismatch);
    }
    Ok(())
}

} // verus!
