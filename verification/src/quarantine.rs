//! Quarantine records of diverging sources, and their incident identifiers.

use vstd::prelude::*;

use crate::digest::{append_bytes, append_u64_be, be_bytes_u64, hex_encode, hex_lower};
use crate::sequencing::{blake3_derive_key, blake3_derived};
use crate::text::{lemma_seq_lt_asymmetric, lemma_seq_lt_irreflexive, lemma_seq_lt_transitive, lemma_seq_lt_total, chars_of, owned, push_str, seq_eq, seq_less, seq_lt};

verus! {

/// The key-derivation context of divergence incident identifiers.
pub const INCIDENT_CONTEXT: &'static str = "hyperliquid-alpha-desk/source-divergence/v1";

/// What diverged.
#[derive(Debug, Clone, PartialEq, Eq)]
pub enum QuarantineReason {
    ConflictingCanonicalBlock { existing_hash: [u8; 32], conflicting_hash: [u8; 32] },
    ConflictingSourceBlockHash { source_id: String, existing_hash: [u8; 32], conflicting_hash: [u8; 32] },
    ConflictingEventSourceEvidence {
        event_id: String,
        source_id: String,
        existing_hash: [u8; 32],
        conflicting_hash: [u8; 32],
    },
}

pub enum ReasonModel {
    ConflictingCanonicalBlock { existing_hash: [u8; 32], conflicting_hash: [u8; 32] },
    ConflictingSourceBlockHash { source_id: Seq<char>, existing_hash: [u8; 32], conflicting_hash: [u8; 32] },
    ConflictingEventSourceEvidence {
        event_id: Seq<char>,
        source_id: Seq<char>,
        existing_hash: [u8; 32],
        conflicting_hash: [u8; 32],
    },
}

impl View for QuarantineReason {
    type V = ReasonModel;

    open spec fn view(&self) -> ReasonModel {
        match self {
            QuarantineReason::ConflictingCanonicalBlock { existing_hash, conflicting_hash } => {
                ReasonModel::ConflictingCanonicalBlock { existing_hash: *existing_hash, conflicting_hash: *conflicting_hash }
            },
            QuarantineReason::ConflictingSourceBlockHash { source_id, existing_hash, conflicting_hash } => {
                ReasonModel::ConflictingSourceBlockHash {
                    source_id: source_id@,
                    existing_hash: *existing_hash,
                    conflicting_hash: *conflicting_hash,
                }
            },
            QuarantineReason::ConflictingEventSourceEvidence {
                event_id,
                source_id,
                existing_hash,
                conflicting_hash,
            } => ReasonModel::ConflictingEventSourceEvidence {
                event_id: event_id@,
                source_id: source_id@,
                existing_hash: *existing_hash,
                conflicting_hash: *conflicting_hash,
            },
        }
    }
}

pub open spec fn quarantine_reason_code(r: ReasonModel) -> Seq<char> {
    match r {
        ReasonModel::ConflictingCanonicalBlock { .. } => "sequencer.conflicting_canonical_block"@,
        ReasonModel::ConflictingSourceBlockHash { .. } => "sequencer.conflicting_source_block_hash"@,
        ReasonModel::ConflictingEventSourceEvidence { .. } => "sequencer.conflicting_event_source_evidence"@,
    }
}

impl QuarantineReason {
    pub fn reason_code(&self) -> (r: &'static str)
        ensures
            r@ == quarantine_reason_code(self@),
    {
        match self {
            QuarantineReason::ConflictingCanonicalBlock { .. } => "sequencer.conflicting_canonical_block",
            QuarantineReason::ConflictingSourceBlockHash { .. } => "sequencer.conflicting_source_block_hash",
            QuarantineReason::ConflictingEventSourceEvidence { .. } => "sequencer.conflicting_event_source_evidence",
        }
    }
}

/// A divergence between sources at one block, under its incident identifier.
#[derive(Debug)]
pub struct QuarantineRecord {
    incident_id: String,
    chain_id: String,
    block_height: u64,
    existing_source_ids: Vec<String>,
    conflicting_source_id: String,
    reason: QuarantineReason,
}

pub struct QuarantineModel {
    pub incident_id: Seq<char>,
    pub chain_id: Seq<char>,
    pub block_height: u64,
    pub existing_source_ids: Seq<Seq<char>>,
    pub conflicting_source_id: Seq<char>,
    pub reason: ReasonModel,
}

impl View for QuarantineRecord {
    type V = QuarantineModel;

    closed spec fn view(&self) -> QuarantineModel {
        QuarantineModel {
            incident_id: self.incident_id@,
            chain_id: self.chain_id@,
            block_height: self.block_height,
            existing_source_ids: self.existing_source_ids@.map_values(|s: String| s@),
            conflicting_source_id: self.conflicting_source_id@,
            reason: self.reason@,
        }
    }
}

fn copy_reason(r: &QuarantineReason) -> (c: QuarantineReason)
    ensures
        c@ == r@,
{
    match r {
        QuarantineReason::ConflictingCanonicalBlock { existing_hash, conflicting_hash } => {
            QuarantineReason::ConflictingCanonicalBlock { existing_hash: *existing_hash, conflicting_hash: *conflicting_hash }
        },
        QuarantineReason::ConflictingSourceBlockHash { source_id, existing_hash, conflicting_hash } => {
            QuarantineReason::ConflictingSourceBlockHash {
                source_id: owned(source_id.as_str()),
                existing_hash: *existing_hash,
                conflicting_hash: *conflicting_hash,
            }
        },
        QuarantineReason::ConflictingEventSourceEvidence { event_id, source_id, existing_hash, conflicting_hash } => {
            QuarantineReason::ConflictingEventSourceEvidence {
                event_id: owned(event_id.as_str()),
                source_id: owned(source_id.as_str()),
                existing_hash: *existing_hash,
                conflicting_hash: *conflicting_hash,
            }
        },
    }
}

/// A copy of a list of strings.
pub fn copy_strings(v: &Vec<String>) -> (r: Vec<String>)
    ensures
        r@.map_values(|s: String| s@) == v@.map_values(|s: String| s@),
{
    let mut r: Vec<String> = Vec::new();
    let mut i: usize = 0;
    while i < v.len()
        invariant
            i <= v@.len(),
            r@.len() == i,
            forall|k: int| 0 <= k < i ==> (#[trigger] r@[k])@ == v@[k]@,
        decreases v@.len() - i,
    {
        r.push(owned(v[i].as_str()));
        i = i + 1;
    }
    assert(r@.map_values(|s: String| s@) =~= v@.map_values(|s: String| s@));
    r
}

impl QuarantineRecord {
    pub fn incident_id(&self) -> (r: &str)
        ensures
            r@ == self@.incident_id,
    {
        self.incident_id.as_str()
    }

    pub fn chain_id(&self) -> (r: &str)
        ensures
            r@ == self@.chain_id,
    {
        self.chain_id.as_str()
    }

    pub fn block_height(&self) -> (r: u64)
        ensures
            r == self@.block_height,
    {
        self.block_height
    }

    pub fn existing_source_ids(&self) -> (r: &Vec<String>)
        ensures
            r@.map_values(|s: String| s@) == self@.existing_source_ids,
    {
        &self.existing_source_ids
    }

    pub fn conflicting_source_id(&self) -> (r: &str)
        ensures
            r@ == self@.conflicting_source_id,
    {
        self.conflicting_source_id.as_str()
    }

    pub fn reason(&self) -> (r: &QuarantineReason)
        ensures
            r@ == self@.reason,
    {
        &self.reason
    }

    /// A copy of the record.
    pub fn copied(&self) -> (r: QuarantineRecord)
        ensures
            r@ == self@,
    {
        QuarantineRecord {
            incident_id: owned(self.incident_id.as_str()),
            chain_id: owned(self.chain_id.as_str()),
            block_height: self.block_height,
            existing_source_ids: copy_strings(&self.existing_source_ids),
            conflicting_source_id: owned(self.conflicting_source_id.as_str()),
            reason: copy_reason(&self.reason),
        }
    }
}

/// `a` is no greater than `b` in byte order.
pub open spec fn hash_le(a: [u8; 32], b: [u8; 32]) -> bool {
    a == b || exists|i: int| 0 <= i < 32 && (forall|j: int| 0 <= j < i ==> a[j] == b[j]) && a[i] < b[i]
}

/// Whether `a` comes no later than `b` in byte order.
pub fn hash_le_exec(a: &[u8; 32], b: &[u8; 32]) -> (r: bool)
    ensures
        r == hash_le(*a, *b),
{
    let mut i: usize = 0;
    while i < 32
        invariant
            i <= 32,
            forall|j: int| 0 <= j < i ==> a[j] == b[j],
        decreases 32 - i,
    {
        if a[i] != b[i] {
            let r = a[i] < b[i];
            proof {
                if !r {
                    assert(a != b);
                    assert forall|k: int| 0 <= k < 32 && (forall|j: int| 0 <= j < k ==> a[j] == b[j]) implies !(a[k] < b[k]) by {
                        if k < i {
                        } else if k > i {
                            assert(a[i as int] == b[i as int]);
                        }
                    }
                }
            }
            return r;
        }
        i = i + 1;
    }
    proof {
        broadcast use vstd::array::group_array_axioms;

        assert(*a =~= *b);
    }
    true
}

/// A byte string framed by its length, big-endian.
pub open spec fn framed(b: Seq<u8>) -> Seq<u8> {
    be_bytes_u64(b.len() as u64) + b
}

/// Each source identifier framed in turn.
pub open spec fn framed_all(sources: Seq<Seq<char>>) -> Seq<u8>
    decreases sources.len(),
{
    if sources.len() == 0 {
        Seq::empty()
    } else {
        framed_all(sources.drop_last()) + framed(vstd::utf8::encode_utf8(sources.last()))
    }
}

/// The key material of a divergence incident.
pub open spec fn incident_material(
    chain_id: Seq<char>,
    block_height: u64,
    reason_code: Seq<char>,
    detail: Seq<char>,
    sources: Seq<Seq<char>>,
    first_hash: [u8; 32],
    second_hash: [u8; 32],
) -> Seq<u8> {
    framed(vstd::utf8::encode_utf8(chain_id)) + be_bytes_u64(block_height) + framed(
        vstd::utf8::encode_utf8(reason_code),
    ) + framed(vstd::utf8::encode_utf8(detail)) + framed_all(sources) + first_hash@ + second_hash@
}

/// The incident identifier of a divergence: `inc_` and the hex of the key derived from
/// its material, the two hashes in byte order.
pub open spec fn incident(
    chain_id: Seq<char>,
    block_height: u64,
    reason_code: Seq<char>,
    detail: Seq<char>,
    sources: Seq<Seq<char>>,
    existing_hash: [u8; 32],
    conflicting_hash: [u8; 32],
) -> Seq<char> {
    let (first, second) = if hash_le(existing_hash, conflicting_hash) {
        (existing_hash, conflicting_hash)
    } else {
        (conflicting_hash, existing_hash)
    };
    "inc_"@ + hex_lower(
        blake3_derived(
            INCIDENT_CONTEXT@,
            incident_material(chain_id, block_height, reason_code, detail, sources, first, second),
        ),
    )
}

fn append_framed(out: &mut Vec<u8>, s: &str)
    ensures
        final(out)@ == old(out)@ + framed(vstd::utf8::encode_utf8(s@)),
{
    let bytes = s.as_bytes();
    append_u64_be(out, bytes.len() as u64);
    append_bytes(out, bytes);
}

/// Computes the incident identifier of a divergence.
fn incident_id(
    chain_id: &str,
    block_height: u64,
    reason_code: &str,
    detail: &str,
    sources: &Vec<String>,
    existing_hash: &[u8; 32],
    conflicting_hash: &[u8; 32],
) -> (r: String)
    ensures
        r@ == incident(
            chain_id@,
            block_height,
            reason_code@,
            detail@,
            sources@.map_values(|s: String| s@),
            *existing_hash,
            *conflicting_hash,
        ),
{
    let ghost srcs = sources@.map_values(|s: String| s@);
    let mut material: Vec<u8> = Vec::new();
    append_framed(&mut material, chain_id);
    append_u64_be(&mut material, block_height);
    append_framed(&mut material, reason_code);
    append_framed(&mut material, detail);
    let ghost head = material@;
    let mut i: usize = 0;
    assert(srcs.take(0) =~= Seq::<Seq<char>>::empty());
    assert(material@ =~= head + framed_all(srcs.take(0)));
    while i < sources.len()
        invariant
            i <= sources@.len(),
            srcs == sources@.map_values(|s: String| s@),
            material@ == head + framed_all(srcs.take(i as int)),
        decreases sources@.len() - i,
    {
        append_framed(&mut material, sources[i].as_str());
        assert(srcs.take(i + 1).drop_last() =~= srcs.take(i as int));
        assert(srcs.take(i + 1).last() == sources@[i as int]@);
        i = i + 1;
        assert(material@ =~= head + framed_all(srcs.take(i as int)));
    }
    assert(srcs.take(sources@.len() as int) =~= srcs);
    let le = hash_le_exec(existing_hash, conflicting_hash);
    if le {
        append_bytes(&mut material, existing_hash);
        append_bytes(&mut material, conflicting_hash);
    } else {
        append_bytes(&mut material, conflicting_hash);
        append_bytes(&mut material, existing_hash);
    }
    let key = blake3_derive_key(INCIDENT_CONTEXT, material.as_slice());
    let mut out = owned("inc_");
    let hex = hex_encode(&key);
    push_str(&mut out, hex.as_str());
    out
}

/// Identifiers strictly increasing.
pub open spec fn ids_sorted(s: Seq<Seq<char>>) -> bool {
    forall|i: int, j: int| 0 <= i < j < s.len() ==> seq_lt(#[trigger] s[i], #[trigger] s[j])
}

/// `k` added to the sorted identifiers `s`, keeping them sorted and distinct.
pub open spec fn insert_sorted(s: Seq<Seq<char>>, k: Seq<char>) -> Seq<Seq<char>>
    decreases s.len(),
{
    if s.len() == 0 {
        seq![k]
    } else if s[0] == k {
        s
    } else if seq_lt(k, s[0]) {
        seq![k] + s
    } else {
        seq![s[0]] + insert_sorted(s.drop_first(), k)
    }
}

proof fn lemma_insert_skip(s: Seq<Seq<char>>, k: Seq<char>, i: int)
    requires
        0 <= i <= s.len(),
        forall|j: int| 0 <= j < i ==> seq_lt(#[trigger] s[j], k),
    ensures
        insert_sorted(s, k) == s.take(i) + insert_sorted(s.skip(i), k),
    decreases i,
{
    if i == 0 {
        assert(s.skip(0) =~= s);
        assert(s.take(0) + s =~= s);
        assert(s.take(0) + insert_sorted(s, k) =~= insert_sorted(s, k));
    } else {
        lemma_seq_lt_irreflexive(k);
        lemma_seq_lt_asymmetric(s[0], k);
        let d = s.drop_first();
        assert forall|j: int| 0 <= j < i - 1 implies seq_lt(#[trigger] d[j], k) by {
            assert(d[j] == s[j + 1]);
        }
        lemma_insert_skip(d, k, i - 1);
        assert(d.skip(i - 1) =~= s.skip(i));
        assert(s.take(i) =~= seq![s[0]] + d.take(i - 1));
        assert(insert_sorted(s, k) == seq![s[0]] + insert_sorted(d, k));
        assert(seq![s[0]] + (d.take(i - 1) + insert_sorted(d.skip(i - 1), k)) =~= (seq![s[0]] + d.take(i - 1))
            + insert_sorted(s.skip(i), k));
    }
}

/// The sorted identifiers `s` with `k` added.
pub fn insert_source(s: &Vec<String>, k: &str) -> (r: Vec<String>)
    ensures
        r@.map_values(|x: String| x@) == insert_sorted(s@.map_values(|x: String| x@), k@),
{
    let ghost sv = s@.map_values(|x: String| x@);
    let kc = chars_of(k);
    let mut r: Vec<String> = Vec::new();
    let mut i: usize = 0;
    while i < s.len()
        invariant
            i <= s@.len(),
            sv == s@.map_values(|x: String| x@),
            kc@ == k@,
            r@.map_values(|x: String| x@) == sv.take(i as int),
            forall|j: int| 0 <= j < i ==> seq_lt(#[trigger] sv[j], k@),
        decreases s@.len() - i,
    {
        let c = chars_of(s[i].as_str());
        if !seq_less(&c, &kc) {
            proof {
                lemma_insert_skip(sv, k@, i as int);
                assert(sv.skip(i as int)[0] == sv[i as int]);
                assert(sv.skip(i as int).drop_first() =~= sv.skip(i as int + 1));
            }
            let ghost before = r@.map_values(|x: String| x@);
            if !seq_eq(&c, &kc) {
                proof {
                    lemma_seq_lt_total(sv[i as int], k@);
                }
                r.push(owned(k));
            }
            let ghost mid = r@.map_values(|x: String| x@);
            let mut j: usize = i;
            assert(sv.skip(i as int).skip(0) =~= sv.skip(i as int));
            while j < s.len()
                invariant
                    i <= j <= s@.len(),
                    sv == s@.map_values(|x: String| x@),
                    r@.map_values(|x: String| x@) == mid + sv.subrange(i as int, j as int),
                decreases s@.len() - j,
            {
                let ghost b2 = r@.map_values(|x: String| x@);
                r.push(owned(s[j].as_str()));
                assert(r@.map_values(|x: String| x@) =~= b2.push(sv[j as int]));
                j = j + 1;
                assert(mid + sv.subrange(i as int, j as int) =~= b2.push(sv[j - 1]));
            }
            proof {
                if sv[i as int] == k@ {
                    assert(mid =~= before);
                    assert(r@.map_values(|x: String| x@) =~= sv.take(i as int) + sv.skip(i as int));
                    assert(sv.take(i as int) + sv.skip(i as int) =~= sv);
                } else {
                    assert(mid =~= before.push(k@));
                    assert(r@.map_values(|x: String| x@) =~= sv.take(i as int) + (seq![k@] + sv.skip(i as int)));
                }
            }
            return r;
        }
        let ghost before = r@.map_values(|x: String| x@);
        r.push(owned(s[i].as_str()));
        assert(r@.map_values(|x: String| x@) =~= before.push(sv[i as int]));
        i = i + 1;
        assert(sv.take(i as int) =~= sv.take(i - 1).push(sv[i - 1]));
    }
    proof {
        lemma_insert_skip(sv, k@, i as int);
        assert(sv.skip(i as int) =~= Seq::<Seq<char>>::empty());
        assert(sv.take(i as int) =~= sv);
    }
    let ghost before = r@.map_values(|x: String| x@);
    r.push(owned(k));
    assert(r@.map_values(|x: String| x@) =~= before.push(k@));
    assert(before.push(k@) =~= sv.take(i as int) + seq![k@]);
    r
}

/// The record of two canonical block hashes at one height: the block's sources as they
/// stand, and the incident over them with the conflicting source added.
pub open spec fn canonical_divergence(
    chain_id: Seq<char>,
    block_height: u64,
    existing_sources: Seq<Seq<char>>,
    conflicting_source: Seq<char>,
    existing_hash: [u8; 32],
    conflicting_hash: [u8; 32],
) -> QuarantineModel {
    QuarantineModel {
        incident_id: incident(
            chain_id,
            block_height,
            "sequencer.conflicting_canonical_block"@,
            Seq::empty(),
            insert_sorted(existing_sources, conflicting_source),
            existing_hash,
            conflicting_hash,
        ),
        chain_id,
        block_height,
        existing_source_ids: existing_sources,
        conflicting_source_id: conflicting_source,
        reason: ReasonModel::ConflictingCanonicalBlock { existing_hash, conflicting_hash },
    }
}

/// The record of one source reporting two hashes of one block.
pub open spec fn source_hash_divergence(
    chain_id: Seq<char>,
    block_height: u64,
    source_id: Seq<char>,
    existing_hash: [u8; 32],
    conflicting_hash: [u8; 32],
) -> QuarantineModel {
    QuarantineModel {
        incident_id: incident(
            chain_id,
            block_height,
            "sequencer.conflicting_source_block_hash"@,
            Seq::empty(),
            seq![source_id],
            existing_hash,
            conflicting_hash,
        ),
        chain_id,
        block_height,
        existing_source_ids: seq![source_id],
        conflicting_source_id: source_id,
        reason: ReasonModel::ConflictingSourceBlockHash { source_id, existing_hash, conflicting_hash },
    }
}

/// The record of one source giving two evidence hashes for one event.
pub open spec fn event_evidence_divergence(
    chain_id: Seq<char>,
    block_height: u64,
    event_id: Seq<char>,
    source_id: Seq<char>,
    existing_hash: [u8; 32],
    conflicting_hash: [u8; 32],
) -> QuarantineModel {
    QuarantineModel {
        incident_id: incident(
            chain_id,
            block_height,
            "sequencer.conflicting_event_source_evidence"@,
            event_id,
            seq![source_id],
            existing_hash,
            conflicting_hash,
        ),
        chain_id,
        block_height,
        existing_source_ids: seq![source_id],
        conflicting_source_id: source_id,
        reason: ReasonModel::ConflictingEventSourceEvidence { event_id, source_id, existing_hash, conflicting_hash },
    }
}

/// Builds the record of two canonical block hashes at one height.
pub fn canonical_block_divergence(
    chain_id: &str,
    block_height: u64,
    existing_sources: Vec<String>,
    conflicting_source: &str,
    existing_hash: [u8; 32],
    conflicting_hash: [u8; 32],
) -> (r: QuarantineRecord)
    ensures
        r@ == canonical_divergence(
            chain_id@,
            block_height,
            existing_sources@.map_values(|s: String| s@),
            conflicting_source@,
            existing_hash,
            conflicting_hash,
        ),
{
    let all = insert_source(&existing_sources, conflicting_source);
    let id = incident_id(
        chain_id,
        block_height,
        "sequencer.conflicting_canonical_block",
        "",
        &all,
        &existing_hash,
        &conflicting_hash,
    );
    proof {
        reveal_strlit("");
        assert(""@ =~= Seq::<char>::empty());
    }
    QuarantineRecord {
        incident_id: id,
        chain_id: owned(chain_id),
        block_height,
        existing_source_ids: existing_sources,
        conflicting_source_id: owned(conflicting_source),
        reason: QuarantineReason::ConflictingCanonicalBlock { existing_hash, conflicting_hash },
    }
}

fn single(s: &str) -> (r: Vec<String>)
    ensures
        r@.map_values(|x: String| x@) == seq![s@],
{
    let mut r: Vec<String> = Vec::new();
    r.push(owned(s));
    assert(r@.map_values(|x: String| x@) =~= seq![s@]);
    r
}

/// Builds the record of one source reporting two hashes of one block.
pub fn source_block_hash_divergence(
    chain_id: &str,
    block_height: u64,
    source_id: &str,
    existing_hash: [u8; 32],
    conflicting_hash: [u8; 32],
) -> (r: QuarantineRecord)
    ensures
        r@ == source_hash_divergence(chain_id@, block_height, source_id@, existing_hash, conflicting_hash),
{
    let all = single(source_id);
    let id = incident_id(
        chain_id,
        block_height,
        "sequencer.conflicting_source_block_hash",
        "",
        &all,
        &existing_hash,
        &conflicting_hash,
    );
    proof {
        reveal_strlit("");
        assert(""@ =~= Seq::<char>::empty());
    }
    QuarantineRecord {
        incident_id: id,
        chain_id: owned(chain_id),
        block_height,
        existing_source_ids: single(source_id),
        conflicting_source_id: owned(source_id),
        reason: QuarantineReason::ConflictingSourceBlockHash {
            source_id: owned(source_id),
            existing_hash,
            conflicting_hash,
        },
    }
}

/// Builds the record of one source giving two evidence hashes for one event.
pub fn event_source_evidence_divergence(
    chain_id: &str,
    block_height: u64,
    event_id: &str,
    source_id: &str,
    existing_hash: [u8; 32],
    conflicting_hash: [u8; 32],
) -> (r: QuarantineRecord)
    ensures
        r@ == event_evidence_divergence(chain_id@, block_height, event_id@, source_id@, existing_hash, conflicting_hash),
{
    let all = single(source_id);
    let id = incident_id(
        chain_id,
        block_height,
        "sequencer.conflicting_event_source_evidence",
        event_id,
        &all,
        &existing_hash,
        &conflicting_hash,
    );
    QuarantineRecord {
        incident_id: id,
        chain_id: owned(chain_id),
        block_height,
        existing_source_ids: single(source_id),
        conflicting_source_id: owned(source_id),
        reason: QuarantineReason::ConflictingEventSourceEvidence {
            event_id: owned(event_id),
            source_id: owned(source_id),
            existing_hash,
            conflicting_hash,
        },
    }
}

} // verus!
