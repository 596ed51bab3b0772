//! The durable decision to fail the committed lane over from the primary source to the
//! independent one. Once recorded, a decision never changes.

use vstd::prelude::*;

use crate::config::{runtime_path_ok, MAX_RUNTIME_PATH_BYTES};
use crate::digest::{append_bytes, blake3_digest, blake3_hash, hex_encode, hex_lower};
use crate::text::{chars_of, owned, same_text};

verus! {

pub const FAILOVER_SCHEMA_VERSION: &'static str = "hl.capture.failover.v1";

pub const FAILOVER_HASH_CONTEXT: &'static str = "hyperliquid-alpha-desk/committed-source-failover/v1";

pub const MAX_FAILOVER_BYTES: u64 = 16_384;

/// Why the committed lane failed over.
#[derive(Debug, Clone, Copy, PartialEq, Eq, Structural)]
pub enum FailoverReason {
    PrimaryRangeUnavailable,
}

/// Whether a decision was written now or was there already.
#[derive(Debug, Clone, Copy, PartialEq, Eq, Structural)]
pub enum FailoverRecordDisposition {
    Recorded,
    Identical,
}

/// Why a failover step was refused.
#[derive(Debug, Clone, Copy, PartialEq, Eq, Structural)]
pub enum FailoverError {
    InvalidDecision,
    UnsafePath,
    TooLarge,
    Serialization,
    Integrity,
    ConflictingDecision,
    TopologyMismatch,
    Io,
}

pub open spec fn failover_reason_code(e: FailoverError) -> Seq<char> {
    match e {
        FailoverError::InvalidDecision => "capture_failover.invalid_decision"@,
        FailoverError::UnsafePath => "capture_failover.unsafe_path"@,
        FailoverError::TooLarge => "capture_failover.too_large"@,
        FailoverError::Serialization => "capture_failover.serialization"@,
        FailoverError::Integrity => "capture_failover.integrity"@,
        FailoverError::ConflictingDecision => "capture_failover.conflicting_decision"@,
        FailoverError::TopologyMismatch => "capture_failover.topology_mismatch"@,
        FailoverError::Io => "capture_failover.io"@,
    }
}

impl FailoverError {
    pub fn reason_code(self) -> (r: &'static str)
        ensures
            r@ == failover_reason_code(self),
    {
        match self {
            FailoverError::InvalidDecision => "capture_failover.invalid_decision",
            FailoverError::UnsafePath => "capture_failover.unsafe_path",
            FailoverError::TooLarge => "capture_failover.too_large",
            FailoverError::Serialization => "capture_failover.serialization",
            FailoverError::Integrity => "capture_failover.integrity",
            FailoverError::ConflictingDecision => "capture_failover.conflicting_decision",
            FailoverError::TopologyMismatch => "capture_failover.topology_mismatch",
            FailoverError::Io => "capture_failover.io",
        }
    }
}

/// Plain values of a [`FailoverDecision`].
pub struct DecisionModel {
    pub chain_id: Seq<char>,
    pub primary_source_id: Seq<char>,
    pub independent_source_id: Seq<char>,
    pub failover_height: u64,
    pub reason: FailoverReason,
}

/// The decision to take committed blocks from the independent source from a height on.
#[derive(Debug, Clone, PartialEq, Eq)]
pub struct FailoverDecision {
    chain_id: String,
    primary_source_id: String,
    independent_source_id: String,
    failover_height: u64,
    reason: FailoverReason,
}

impl View for FailoverDecision {
    type V = DecisionModel;

    closed spec fn view(&self) -> DecisionModel {
        DecisionModel {
            chain_id: self.chain_id@,
            primary_source_id: self.primary_source_id@,
            independent_source_id: self.independent_source_id@,
            failover_height: self.failover_height,
            reason: self.reason,
        }
    }
}

impl FailoverDecision {
    /// A decision between two distinct sources.
    pub fn try_new(
        chain_id: &str,
        primary_source_id: &str,
        independent_source_id: &str,
        failover_height: u64,
        reason: FailoverReason,
    ) -> (r: Result<Self, FailoverError>)
        ensures
            primary_source_id@ == independent_source_id@ ==> r == Err::<Self, FailoverError>(
                FailoverError::InvalidDecision,
            ),
            primary_source_id@ != independent_source_id@ ==> (r matches Ok(d) && d@ == (DecisionModel {
                chain_id: chain_id@,
                primary_source_id: primary_source_id@,
                independent_source_id: independent_source_id@,
                failover_height,
                reason,
            })),
    {
        if same_text(primary_source_id, independent_source_id) {
            return Err(FailoverError::InvalidDecision);
        }
        Ok(
            FailoverDecision {
                chain_id: owned(chain_id),
                primary_source_id: owned(primary_source_id),
                independent_source_id: owned(independent_source_id),
                failover_height,
                reason,
            },
        )
    }

    pub fn chain_id(&self) -> (r: &str)
        ensures
            r@ == self@.chain_id,
    {
        self.chain_id.as_str()
    }

    pub fn primary_source_id(&self) -> (r: &str)
        ensures
            r@ == self@.primary_source_id,
    {
        self.primary_source_id.as_str()
    }

    pub fn independent_source_id(&self) -> (r: &str)
        ensures
            r@ == self@.independent_source_id,
    {
        self.independent_source_id.as_str()
    }

    pub fn failover_height(&self) -> (r: u64)
        ensures
            r == self@.failover_height,
    {
        self.failover_height
    }

    pub fn reason(&self) -> (r: FailoverReason)
        ensures
            r == self@.reason,
    {
        self.reason
    }

    /// The decision was made for this chain and this pair of sources.
    pub fn validate_topology(
        &self,
        chain_id: &str,
        primary_source_id: &str,
        independent_source_id: &str,
    ) -> (r: Result<(), FailoverError>)
        ensures
            (self@.chain_id == chain_id@ && self@.primary_source_id == primary_source_id@
                && self@.independent_source_id == independent_source_id@) ==> r is Ok,
            !(self@.chain_id == chain_id@ && self@.primary_source_id == primary_source_id@
                && self@.independent_source_id == independent_source_id@) ==> r == Err::<
                (),
                FailoverError,
            >(FailoverError::TopologyMismatch),
    {
        if same_text(self.chain_id.as_str(), chain_id) && same_text(
            self.primary_source_id.as_str(),
            primary_source_id,
        ) && same_text(self.independent_source_id.as_str(), independent_source_id) {
            Ok(())
        } else {
            Err(FailoverError::TopologyMismatch)
        }
    }

    /// Whether two decisions say the same thing.
    pub fn same_as(&self, other: &FailoverDecision) -> (r: bool)
        ensures
            r == (self@ == other@),
    {
        same_text(self.chain_id.as_str(), other.chain_id.as_str()) && same_text(
            self.primary_source_id.as_str(),
            other.primary_source_id.as_str(),
        ) && same_text(self.independent_source_id.as_str(), other.independent_source_id.as_str())
            && self.failover_height == other.failover_height && self.reason == other.reason
    }
}

/// What recording `decision` does where `existing` is already stored: nothing new for the
/// same decision, a refusal for another one, a write where none is stored.
pub fn record_outcome(existing: Option<&FailoverDecision>, decision: &FailoverDecision) -> (r: Result<
    Option<FailoverRecordDisposition>,
    FailoverError,
>)
    ensures
        match existing {
            Some(e) => if e@ == decision@ {
                r == Ok::<Option<FailoverRecordDisposition>, FailoverError>(
                    Some(FailoverRecordDisposition::Identical),
                )
            } else {
                r == Err::<Option<FailoverRecordDisposition>, FailoverError>(
                    FailoverError::ConflictingDecision,
                )
            },
            None => r == Ok::<Option<FailoverRecordDisposition>, FailoverError>(None),
        },
{
    match existing {
        Some(e) => {
            if e.same_as(decision) {
                Ok(Some(FailoverRecordDisposition::Identical))
            } else {
                Err(FailoverError::ConflictingDecision)
            }
        },
        None => Ok(None),
    }
}

/// A digest written as 64 lower-case hex digits.
pub open spec fn lowercase_hash(v: Seq<char>) -> bool {
    v.len() == 64 && forall|i: int|
        0 <= i < v.len() ==> ('0' <= #[trigger] v[i] <= '9') || ('a' <= v[i] <= 'f')
}

pub fn is_lowercase_hash(value: &str) -> (r: bool)
    ensures
        r == lowercase_hash(value@),
{
    let v = chars_of(value);
    if v.len() != 64 {
        return false;
    }
    let mut i: usize = 0;
    while i < v.len()
        invariant
            v@ == value@,
            i <= v@.len(),
            forall|j: int| 0 <= j < i ==> ('0' <= #[trigger] value@[j] <= '9') || ('a' <= value@[j] <= 'f'),
        decreases v@.len() - i,
    {
        let c = v[i];
        if !(('0' <= c && c <= '9') || ('a' <= c && c <= 'f')) {
            return false;
        }
        i = i + 1;
    }
    true
}

/// The integrity hash of a decision's serialized material: hex BLAKE3 of a context tag
/// and the material.
pub open spec fn material_hash(material: Seq<u8>) -> Seq<char> {
    hex_lower(blake3_digest(vstd::utf8::encode_utf8(FAILOVER_HASH_CONTEXT@) + material))
}

pub fn hash_material(material: &[u8]) -> (r: String)
    ensures
        r@ == material_hash(material@),
{
    let mut pre: Vec<u8> = Vec::new();
    append_bytes(&mut pre, FAILOVER_HASH_CONTEXT.as_bytes());
    append_bytes(&mut pre, material);
    assert(pre@ =~= vstd::utf8::encode_utf8(FAILOVER_HASH_CONTEXT@) + material@);
    let digest = blake3_hash(pre.as_slice());
    hex_encode(digest.as_slice())
}

/// Checks a stored decision read back from disk: its schema, the form of its hash, and
/// that the hash is the hash of the decision's material.
pub fn check_stored(schema_version: &str, decision_hash: &str, material: &[u8]) -> (r: Result<
    (),
    FailoverError,
>)
    ensures
        (schema_version@ == FAILOVER_SCHEMA_VERSION@ && lowercase_hash(decision_hash@)
            && material_hash(material@) == decision_hash@) ==> r is Ok,
        !(schema_version@ == FAILOVER_SCHEMA_VERSION@ && lowercase_hash(decision_hash@)
            && material_hash(material@) == decision_hash@) ==> r == Err::<(), FailoverError>(
            FailoverError::Integrity,
        ),
{
    if !same_text(schema_version, FAILOVER_SCHEMA_VERSION) || !is_lowercase_hash(decision_hash) {
        return Err(FailoverError::Integrity);
    }
    let computed = hash_material(material);
    if !same_text(computed.as_str(), decision_hash) {
        return Err(FailoverError::Integrity);
    }
    Ok(())
}

/// The failover file: a runtime path (see [`runtime_path_ok`]).
#[derive(Debug)]
pub struct FailoverStore {
    path: String,
}

impl FailoverStore {
    pub closed spec fn spec_path(&self) -> Seq<char> {
        self.path@
    }

    /// The store at `path`, which must be a safe runtime path; making and checking its
    /// directory is the caller's part.
    pub fn new(path: &str) -> (r: Result<Self, FailoverError>)
        ensures
            runtime_path_ok(path@) ==> (r matches Ok(s) && s.spec_path() == path@),
            !runtime_path_ok(path@) ==> r == Err::<Self, FailoverError>(FailoverError::UnsafePath),
    {
        if path.is_empty() || crate::config::path_is_root(path) || path.len() > MAX_RUNTIME_PATH_BYTES
            || crate::config::path_has_dot_component(path) {
            return Err(FailoverError::UnsafePath);
        }
        Ok(FailoverStore { path: owned(path) })
    }

    pub fn path(&self) -> (r: &str)
        ensures
            r@ == self.spec_path(),
    {
        self.path.as_str()
    }
}

} // verus!
