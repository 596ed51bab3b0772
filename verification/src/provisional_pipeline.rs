//! Official WS observations stay provisional. Committed node facts win.
//!
//! Snapshot slots are replace-state: a repeated hash is a duplicate. Incremental events
//! wait, per match key, for the committed fact that confirms them; a committed fact with
//! another hash opens a reconciliation finding. WS never advances a committed watermark.

use vstd::prelude::*;

use crate::digest::{append_bytes, blake3_digest, blake3_hash, hex_encode, hex_lower, same_hash};
use crate::snapshot_store::{
    SnapshotHashStore, SnapshotStoreError, all_keys_ok, key_renders, keys_render, lines_from,
    parse_entries, render_entries,
};
use crate::strmap::{StrMap, keys_sorted, last_value, lemma_last_value_sorted, lookup, overlaid};
use crate::subjects::Subject;
use crate::text::{
    chars_of, is_trimmed, lemma_seq_lt_asymmetric, lemma_seq_lt_irreflexive,
    lemma_seq_lt_transitive, owned, same_text, seq_eq, seq_less, seq_lt, trimmed,
};

verus! {

pub const PROVISIONAL_FEATURE_SCOPE: &'static str = "provisional";

pub const DEFAULT_UNMATCHED_TTL_MILLIS: u64 = 60_000;

pub const DEFAULT_UNMATCHED_LIMIT: usize = 4_096;

pub const DEFAULT_UNMATCHED_PER_KEY: usize = 8;

/// How an inbound WS message was classified.
#[derive(Debug, Clone, Copy, PartialEq, Eq, Structural)]
pub enum InboundClass {
    Ack,
    Heartbeat,
    Unknown,
    Quarantine,
    DuplicateSnapshot,
    SnapshotReplace,
    IncrementalEvent,
}

/// A WS subscription family and its scope.
#[derive(Debug, Clone, PartialEq, Eq)]
pub struct WsFamily {
    pub identifier: String,
    pub user_scoped: bool,
    pub coin_scoped: bool,
}

/// The snapshot subject of a family: account for user-scoped, market for coin-scoped,
/// ecosystem otherwise.
pub open spec fn family_snapshot_subject(user_scoped: bool, coin_scoped: bool) -> Subject {
    if user_scoped {
        Subject::SnapshotAccount
    } else if coin_scoped {
        Subject::SnapshotMarket
    } else {
        Subject::SnapshotEcosystem
    }
}

pub fn snapshot_subject(family: &WsFamily) -> (r: Subject)
    ensures
        r == family_snapshot_subject(family.user_scoped, family.coin_scoped),
{
    if family.user_scoped {
        Subject::SnapshotAccount
    } else if family.coin_scoped {
        Subject::SnapshotMarket
    } else {
        Subject::SnapshotEcosystem
    }
}

/// The subject of the first catalogued family named `id`, or the ecosystem snapshot for
/// an unknown family.
pub open spec fn subject_for(families: Seq<WsFamily>, id: Seq<char>) -> Subject
    decreases families.len(),
{
    if families.len() == 0 {
        Subject::SnapshotEcosystem
    } else if families[0].identifier@ == id {
        family_snapshot_subject(families[0].user_scoped, families[0].coin_scoped)
    } else {
        subject_for(families.drop_first(), id)
    }
}

pub fn snapshot_subject_for_family(identifier: &str, families: &Vec<WsFamily>) -> (r: Subject)
    ensures
        r == subject_for(families@, identifier@),
{
    let mut i: usize = 0;
    assert(families@.skip(0) =~= families@);
    while i < families.len()
        invariant
            i <= families.len(),
            subject_for(families@, identifier@) == subject_for(families@.skip(i as int), identifier@),
        decreases families.len() - i,
    {
        proof {
            assert(families@.skip(i as int).drop_first() =~= families@.skip(i + 1));
            assert(families@.skip(i as int)[0] == families@[i as int]);
        }
        if same_text(families[i].identifier.as_str(), identifier) {
            return snapshot_subject(&families[i]);
        }
        i = i + 1;
    }
    assert(families@.skip(i as int).len() == 0);
    Subject::SnapshotEcosystem
}

#[derive(Debug, Clone, Copy, PartialEq, Eq, Structural)]
pub enum LaneError {
    InvalidIdentity,
}

impl LaneError {
    pub fn reason_code(self) -> (r: &'static str)
        ensures
            r@ == "capture_ws.lane_identity"@,
    {
        "capture_ws.lane_identity"
    }
}

/// A nonempty, unpadded match key.
pub open spec fn valid_key(k: Seq<char>) -> bool {
    k.len() > 0 && trimmed(k)
}

/// One WS observation offered to the lane.
#[derive(Debug, Clone, PartialEq, Eq)]
pub struct WsLaneObservation {
    match_key: String,
    family: String,
    content_hash: [u8; 32],
    class: InboundClass,
    received_at_millis: u64,
}

impl WsLaneObservation {
    pub closed spec fn spec_match_key(&self) -> Seq<char> {
        self.match_key@
    }

    pub closed spec fn spec_family(&self) -> Seq<char> {
        self.family@
    }

    pub closed spec fn spec_content_hash(&self) -> [u8; 32] {
        self.content_hash
    }

    pub closed spec fn spec_class(&self) -> InboundClass {
        self.class
    }

    pub closed spec fn spec_received_at_millis(&self) -> u64 {
        self.received_at_millis
    }

    /// An observation, if its key is nonempty and unpadded and its family nonempty.
    pub fn try_new(
        match_key: &str,
        family: &str,
        content_hash: [u8; 32],
        class: InboundClass,
        received_at_millis: u64,
    ) -> (r: Result<Self, LaneError>)
        ensures
            valid_key(match_key@) && family@.len() > 0 ==> (r matches Ok(o) && o.spec_match_key()
                == match_key@ && o.spec_family() == family@ && o.spec_content_hash() == content_hash
                && o.spec_class() == class && o.spec_received_at_millis() == received_at_millis),
            !(valid_key(match_key@) && family@.len() > 0) ==> r == Err::<Self, LaneError>(
                LaneError::InvalidIdentity,
            ),
    {
        if match_key.is_empty() || !is_trimmed(match_key) || family.is_empty() {
            return Err(LaneError::InvalidIdentity);
        }
        Ok(WsLaneObservation {
            match_key: owned(match_key),
            family: owned(family),
            content_hash,
            class,
            received_at_millis,
        })
    }

    pub fn match_key(&self) -> (r: &str)
        ensures
            r@ == self.spec_match_key(),
    {
        self.match_key.as_str()
    }

    pub fn family(&self) -> (r: &str)
        ensures
            r@ == self.spec_family(),
    {
        self.family.as_str()
    }

    pub fn content_hash(&self) -> (r: [u8; 32])
        ensures
            r == self.spec_content_hash(),
    {
        self.content_hash
    }

    pub fn class(&self) -> (r: InboundClass)
        ensures
            r == self.spec_class(),
    {
        self.class
    }
}

/// A fact from the committed node lane.
#[derive(Debug, Clone, PartialEq, Eq)]
pub struct CommittedFact {
    match_key: String,
    content_hash: [u8; 32],
}

impl CommittedFact {
    pub closed spec fn spec_match_key(&self) -> Seq<char> {
        self.match_key@
    }

    pub closed spec fn spec_content_hash(&self) -> [u8; 32] {
        self.content_hash
    }

    pub fn try_new(match_key: &str, content_hash: [u8; 32]) -> (r: Result<Self, LaneError>)
        ensures
            valid_key(match_key@) ==> (r matches Ok(f) && f.spec_match_key() == match_key@
                && f.spec_content_hash() == content_hash),
            !valid_key(match_key@) ==> r == Err::<Self, LaneError>(LaneError::InvalidIdentity),
    {
        if match_key.is_empty() || !is_trimmed(match_key) {
            return Err(LaneError::InvalidIdentity);
        }
        Ok(CommittedFact { match_key: owned(match_key), content_hash })
    }

    pub fn match_key(&self) -> (r: &str)
        ensures
            r@ == self.spec_match_key(),
    {
        self.match_key.as_str()
    }

    pub fn content_hash(&self) -> (r: [u8; 32])
        ensures
            r == self.spec_content_hash(),
    {
        self.content_hash
    }
}

#[derive(Debug, Clone, Copy, PartialEq, Eq, Structural)]
pub enum FindingStatus {
    Open,
}

/// A committed fact that contradicted a provisional observation.
#[derive(Debug, Clone, PartialEq, Eq)]
pub struct ReconciliationFinding {
    finding_id: String,
    domain: String,
    subject: String,
    expected_hash: [u8; 32],
    observed_hash: [u8; 32],
    status: FindingStatus,
}

/// Plain values of a [`ReconciliationFinding`].
pub struct FindingModel {
    pub finding_id: Seq<char>,
    pub domain: Seq<char>,
    pub subject: Seq<char>,
    pub expected_hash: [u8; 32],
    pub observed_hash: [u8; 32],
    pub status: FindingStatus,
}

impl View for ReconciliationFinding {
    type V = FindingModel;

    closed spec fn view(&self) -> FindingModel {
        FindingModel {
            finding_id: self.finding_id@,
            domain: self.domain@,
            subject: self.subject@,
            expected_hash: self.expected_hash,
            observed_hash: self.observed_hash,
            status: self.status,
        }
    }
}

impl ReconciliationFinding {
    fn copy(&self) -> (r: ReconciliationFinding)
        ensures
            r@ == self@,
    {
        ReconciliationFinding {
            finding_id: owned(self.finding_id.as_str()),
            domain: owned(self.domain.as_str()),
            subject: owned(self.subject.as_str()),
            expected_hash: self.expected_hash,
            observed_hash: self.observed_hash,
            status: self.status,
        }
    }

    pub fn finding_id(&self) -> (r: &str)
        ensures
            r@ == self@.finding_id,
    {
        self.finding_id.as_str()
    }

    pub fn domain(&self) -> (r: &str)
        ensures
            r@ == self@.domain,
    {
        self.domain.as_str()
    }

    pub fn subject(&self) -> (r: &str)
        ensures
            r@ == self@.subject,
    {
        self.subject.as_str()
    }

    pub fn expected_hash(&self) -> (r: [u8; 32])
        ensures
            r == self@.expected_hash,
    {
        self.expected_hash
    }

    pub fn observed_hash(&self) -> (r: [u8; 32])
        ensures
            r == self@.observed_hash,
    {
        self.observed_hash
    }

    pub fn status(&self) -> (r: FindingStatus)
        ensures
            r == self@.status,
    {
        self.status
    }
}

/// Bytes that identify a finding: a context tag, the match key, then both hashes.
pub open spec fn finding_preimage(key: Seq<char>, expected: Seq<u8>, observed: Seq<u8>) -> Seq<u8> {
    vstd::utf8::encode_utf8("hl.finding.v1\0"@) + vstd::utf8::encode_utf8(key) + expected
        + observed
}

/// The finding that `key`'s committed hash `observed` opens against the provisional
/// `expected` of `family`.
pub open spec fn conflict_finding_model(
    key: Seq<char>,
    family: Seq<char>,
    expected: [u8; 32],
    observed: [u8; 32],
    families: Seq<WsFamily>,
) -> FindingModel {
    FindingModel {
        finding_id: hex_lower(blake3_digest(finding_preimage(key, expected@, observed@))),
        domain: family,
        subject: subject_for(families, family).name(),
        expected_hash: expected,
        observed_hash: observed,
        status: FindingStatus::Open,
    }
}

fn conflict_finding(
    match_key: &str,
    family: &str,
    expected_hash: [u8; 32],
    observed_hash: [u8; 32],
    families: &Vec<WsFamily>,
) -> (r: ReconciliationFinding)
    ensures
        r@ == conflict_finding_model(match_key@, family@, expected_hash, observed_hash, families@),
{
    let mut preimage: Vec<u8> = Vec::new();
    let context: &[u8] = "hl.finding.v1\0".as_bytes();
    append_bytes(&mut preimage, context);
    append_bytes(&mut preimage, match_key.as_bytes());
    append_bytes(&mut preimage, expected_hash.as_slice());
    append_bytes(&mut preimage, observed_hash.as_slice());
    assert(preimage@ =~= finding_preimage(match_key@, expected_hash@, observed_hash@));
    let digest = blake3_hash(preimage.as_slice());
    let subject = snapshot_subject_for_family(family, families);
    ReconciliationFinding {
        finding_id: hex_encode(digest.as_slice()),
        domain: owned(family),
        subject: owned(subject.as_str()),
        expected_hash,
        observed_hash,
        status: FindingStatus::Open,
    }
}

/// Plain values of a pending provisional row.
pub struct PendingModel {
    pub key: Seq<char>,
    pub content_hash: [u8; 32],
    pub family: Seq<char>,
    pub received_at_millis: u64,
}

/// A provisional incremental observation waiting for its committed fact.
#[derive(Debug, Clone)]
struct Pending {
    key: String,
    content_hash: [u8; 32],
    family: String,
    received_at_millis: u64,
}

impl Pending {
    fn copy(&self) -> (r: Pending)
        ensures
            r@ == self@,
    {
        Pending {
            key: owned(self.key.as_str()),
            content_hash: self.content_hash,
            family: owned(self.family.as_str()),
            received_at_millis: self.received_at_millis,
        }
    }
}

impl View for Pending {
    type V = PendingModel;

    closed spec fn view(&self) -> PendingModel {
        PendingModel {
            key: self.key@,
            content_hash: self.content_hash,
            family: self.family@,
            received_at_millis: self.received_at_millis,
        }
    }
}

/// Rows grouped by key, keys in order, arrival order kept within a key.
pub open spec fn keys_nondecreasing(s: Seq<PendingModel>) -> bool {
    forall|i: int, j: int| 0 <= i < j < s.len() ==> !seq_lt((#[trigger] s[j]).key, (#[trigger] s[i]).key)
}

/// Number of rows under `k`.
pub open spec fn count_key(s: Seq<PendingModel>, k: Seq<char>) -> nat
    decreases s.len(),
{
    if s.len() == 0 {
        0
    } else {
        count_key(s.drop_last(), k) + if s.last().key == k {
            1nat
        } else {
            0nat
        }
    }
}

/// The rows not under `k`, in order.
pub open spec fn without_key(s: Seq<PendingModel>, k: Seq<char>) -> Seq<PendingModel>
    decreases s.len(),
{
    if s.len() == 0 {
        s
    } else {
        let sub = without_key(s.drop_last(), k);
        if s.last().key != k {
            sub.push(s.last())
        } else {
            sub
        }
    }
}

/// A row younger than `ttl` at `now` (a clock behind the row counts as age zero).
pub open spec fn is_alive(p: PendingModel, now: u64, ttl: u64) -> bool {
    (if now >= p.received_at_millis {
        now - p.received_at_millis
    } else {
        0
    }) < ttl
}

/// The rows still alive at `now`, in order.
pub open spec fn alive_rows(s: Seq<PendingModel>, now: u64, ttl: u64) -> Seq<PendingModel>
    decreases s.len(),
{
    if s.len() == 0 {
        s
    } else {
        let sub = alive_rows(s.drop_last(), now, ttl);
        if is_alive(s.last(), now, ttl) {
            sub.push(s.last())
        } else {
            sub
        }
    }
}

/// The keys that lose a row at `now`, each once, in key order.
pub open spec fn expired_keys(s: Seq<PendingModel>, now: u64, ttl: u64) -> Seq<Seq<char>>
    decreases s.len(),
{
    if s.len() == 0 {
        seq![]
    } else {
        let sub = expired_keys(s.drop_last(), now, ttl);
        if !is_alive(s.last(), now, ttl) && (sub.len() == 0 || sub.last() != s.last().key) {
            sub.push(s.last().key)
        } else {
            sub
        }
    }
}

/// `i` is the first row under `k`.
pub open spec fn first_with_key(s: Seq<PendingModel>, k: Seq<char>, i: int) -> bool {
    0 <= i < s.len() && s[i].key == k && forall|j: int| 0 <= j < i ==> (#[trigger] s[j]).key != k
}

/// `i` is the first row under `k` with hash `h`.
pub open spec fn first_match(s: Seq<PendingModel>, k: Seq<char>, h: [u8; 32], i: int) -> bool {
    &&& 0 <= i < s.len()
    &&& s[i].key == k
    &&& s[i].content_hash == h
    &&& forall|j: int| 0 <= j < i ==> !((#[trigger] s[j]).key == k && s[j].content_hash == h)
}

/// Some row under `k` has hash `h`.
pub open spec fn has_match(s: Seq<PendingModel>, k: Seq<char>, h: [u8; 32]) -> bool {
    exists|i: int| 0 <= i < s.len() && (#[trigger] s[i]).key == k && s[i].content_hash == h
}

/// `t` is `s` with `p` placed after every row whose key is not above `p`'s.
pub open spec fn inserted_in_order(s: Seq<PendingModel>, p: PendingModel, t: Seq<PendingModel>) -> bool {
    exists|pos: int|
        0 <= pos <= s.len() && t == s.insert(pos, p) && (forall|i: int|
            0 <= i < pos ==> !seq_lt(p.key, (#[trigger] s[i]).key)) && (forall|i: int|
            pos <= i < s.len() ==> seq_lt(p.key, (#[trigger] s[i]).key))
}

proof fn lemma_count_key_positive(s: Seq<PendingModel>, k: Seq<char>, i: int)
    requires
        0 <= i < s.len(),
        s[i].key == k,
    ensures
        count_key(s, k) > 0,
    decreases s.len(),
{
    if i < s.len() - 1 {
        lemma_count_key_positive(s.drop_last(), k, i);
    }
}

proof fn lemma_count_key_zero(s: Seq<PendingModel>, k: Seq<char>)
    requires
        forall|i: int| 0 <= i < s.len() ==> (#[trigger] s[i]).key != k,
    ensures
        count_key(s, k) == 0,
    decreases s.len(),
{
    if s.len() > 0 {
        lemma_count_key_zero(s.drop_last(), k);
    }
}

spec fn models(v: Seq<Pending>) -> Seq<PendingModel> {
    v.map_values(|p: Pending| p@)
}

/// First row under `key` with hash `hash`.
fn find_match(v: &Vec<Pending>, key: &Vec<char>, hash: &[u8; 32]) -> (r: Option<usize>)
    ensures
        match r {
            Some(i) => first_match(models(v@), key@, *hash, i as int),
            None => !has_match(models(v@), key@, *hash),
        },
{
    let ghost s = models(v@);
    let mut i: usize = 0;
    while i < v.len()
        invariant
            i <= v.len(),
            s == models(v@),
            forall|j: int| 0 <= j < i ==> !((#[trigger] s[j]).key == key@ && s[j].content_hash == *hash),
        decreases v.len() - i,
    {
        let c = chars_of(v[i].key.as_str());
        assert(s[i as int] == v@[i as int]@);
        if seq_eq(&c, key) && same_hash(&v[i].content_hash, hash) {
            return Some(i);
        }
        i = i + 1;
    }
    None
}

/// First row under `key`.
fn find_key(v: &Vec<Pending>, key: &Vec<char>) -> (r: Option<usize>)
    ensures
        match r {
            Some(i) => first_with_key(models(v@), key@, i as int),
            None => forall|j: int| 0 <= j < v@.len() ==> (#[trigger] models(v@)[j]).key != key@,
        },
{
    let ghost s = models(v@);
    let mut i: usize = 0;
    while i < v.len()
        invariant
            i <= v.len(),
            s == models(v@),
            forall|j: int| 0 <= j < i ==> (#[trigger] s[j]).key != key@,
        decreases v.len() - i,
    {
        let c = chars_of(v[i].key.as_str());
        assert(s[i as int] == v@[i as int]@);
        if seq_eq(&c, key) {
            return Some(i);
        }
        i = i + 1;
    }
    None
}

/// Number of rows under `key`.
fn count_rows(v: &Vec<Pending>, key: &Vec<char>) -> (r: usize)
    ensures
        r == count_key(models(v@), key@),
{
    let ghost s = models(v@);
    let mut n: usize = 0;
    let mut i: usize = 0;
    while i < v.len()
        invariant
            i <= v.len(),
            s == models(v@),
            n <= i,
            n == count_key(s.take(i as int), key@),
        decreases v.len() - i,
    {
        let c = chars_of(v[i].key.as_str());
        assert(s[i as int] == v@[i as int]@);
        assert(s.take(i + 1).drop_last() =~= s.take(i as int));
        if seq_eq(&c, key) {
            n = n + 1;
        }
        i = i + 1;
    }
    assert(s.take(v.len() as int) =~= s);
    n
}

/// Where a row under `key` goes: after every row whose key is not above it.
fn insert_position(v: &Vec<Pending>, key: &Vec<char>) -> (r: usize)
    requires
        keys_nondecreasing(models(v@)),
    ensures
        r <= v@.len(),
        forall|i: int| 0 <= i < r ==> !seq_lt(key@, (#[trigger] models(v@)[i]).key),
        forall|i: int| r <= i < v@.len() ==> seq_lt(key@, (#[trigger] models(v@)[i]).key),
{
    let ghost s = models(v@);
    let mut i: usize = 0;
    while i < v.len()
        invariant
            i <= v.len(),
            s == models(v@),
            keys_nondecreasing(s),
            forall|j: int| 0 <= j < i ==> !seq_lt(key@, (#[trigger] s[j]).key),
        decreases v.len() - i,
    {
        let c = chars_of(v[i].key.as_str());
        assert(s[i as int] == v@[i as int]@);
        if seq_less(key, &c) {
            proof {
                assert forall|j: int| i <= j < s.len() implies seq_lt(key@, (#[trigger] s[j]).key) by {
                    if j > i {
                        assert(!seq_lt(s[j].key, s[i as int].key));
                        if !seq_lt(key@, s[j].key) {
                            if s[j].key != key@ {
                                crate::text::lemma_seq_lt_total(s[j].key, key@);
                                lemma_seq_lt_transitive(s[j].key, key@, s[i as int].key);
                            } else {
                                assert(seq_lt(s[j].key, s[i as int].key));
                            }
                        }
                    }
                }
            }
            return i;
        }
        i = i + 1;
    }
    i
}

proof fn lemma_without_key_subset(s: Seq<PendingModel>, k: Seq<char>)
    ensures
        forall|x: PendingModel| #[trigger] without_key(s, k).contains(x) ==> s.contains(x),
        without_key(s, k).len() <= s.len(),
    decreases s.len(),
{
    if s.len() > 0 {
        lemma_without_key_subset(s.drop_last(), k);
        assert forall|x: PendingModel| #[trigger] without_key(s, k).contains(x) implies s.contains(x) by {
            if without_key(s.drop_last(), k).contains(x) {
                let j = choose|j: int| 0 <= j < s.drop_last().len() && s.drop_last()[j] == x;
                assert(s[j] == x);
            } else {
                assert(x == s.last());
                assert(s[s.len() - 1] == x);
            }
        }
    }
}

proof fn lemma_without_key_sorted(s: Seq<PendingModel>, k: Seq<char>)
    requires
        keys_nondecreasing(s),
    ensures
        keys_nondecreasing(without_key(s, k)),
    decreases s.len(),
{
    if s.len() > 0 {
        let d = s.drop_last();
        assert(keys_nondecreasing(d)) by {
            assert forall|i: int, j: int| 0 <= i < j < d.len() implies !seq_lt(
                (#[trigger] d[j]).key,
                (#[trigger] d[i]).key,
            ) by {
                assert(d[i] == s[i] && d[j] == s[j]);
            }
        }
        lemma_without_key_sorted(d, k);
        lemma_without_key_subset(d, k);
        let sub = without_key(d, k);
        if s.last().key != k {
            let t = sub.push(s.last());
            assert forall|i: int, j: int| 0 <= i < j < t.len() implies !seq_lt(
                (#[trigger] t[j]).key,
                (#[trigger] t[i]).key,
            ) by {
                if j == t.len() - 1 {
                    assert(sub.contains(t[i]));
                    let m = choose|m: int| 0 <= m < d.len() && d[m] == t[i];
                    assert(s[m] == t[i]);
                    assert(s[s.len() - 1] == t[j]);
                } else {
                    assert(t[i] == sub[i] && t[j] == sub[j]);
                }
            }
        }
    }
}

proof fn lemma_alive_subset(s: Seq<PendingModel>, now: u64, ttl: u64)
    ensures
        forall|x: PendingModel| #[trigger] alive_rows(s, now, ttl).contains(x) ==> s.contains(x),
    decreases s.len(),
{
    if s.len() > 0 {
        lemma_alive_subset(s.drop_last(), now, ttl);
        assert forall|x: PendingModel| #[trigger] alive_rows(s, now, ttl).contains(x) implies s.contains(x) by {
            if alive_rows(s.drop_last(), now, ttl).contains(x) {
                let j = choose|j: int| 0 <= j < s.drop_last().len() && s.drop_last()[j] == x;
                assert(s[j] == x);
            } else {
                assert(s[s.len() - 1] == x);
            }
        }
    }
}

proof fn lemma_alive_sorted(s: Seq<PendingModel>, now: u64, ttl: u64)
    requires
        keys_nondecreasing(s),
    ensures
        keys_nondecreasing(alive_rows(s, now, ttl)),
    decreases s.len(),
{
    if s.len() > 0 {
        let d = s.drop_last();
        assert(keys_nondecreasing(d)) by {
            assert forall|i: int, j: int| 0 <= i < j < d.len() implies !seq_lt(
                (#[trigger] d[j]).key,
                (#[trigger] d[i]).key,
            ) by {
                assert(d[i] == s[i] && d[j] == s[j]);
            }
        }
        lemma_alive_sorted(d, now, ttl);
        lemma_alive_subset(d, now, ttl);
        let sub = alive_rows(d, now, ttl);
        if is_alive(s.last(), now, ttl) {
            let t = sub.push(s.last());
            assert forall|i: int, j: int| 0 <= i < j < t.len() implies !seq_lt(
                (#[trigger] t[j]).key,
                (#[trigger] t[i]).key,
            ) by {
                if j == t.len() - 1 {
                    assert(sub.contains(t[i]));
                    let m = choose|m: int| 0 <= m < d.len() && d[m] == t[i];
                    assert(s[m] == t[i]);
                    assert(s[s.len() - 1] == t[j]);
                } else {
                    assert(t[i] == sub[i] && t[j] == sub[j]);
                }
            }
        }
    }
}

proof fn lemma_remove_sorted(s: Seq<PendingModel>, i: int)
    requires
        keys_nondecreasing(s),
        0 <= i < s.len(),
    ensures
        keys_nondecreasing(s.remove(i)),
{
    let t = s.remove(i);
    assert forall|a: int, b: int| 0 <= a < b < t.len() implies !seq_lt(
        (#[trigger] t[b]).key,
        (#[trigger] t[a]).key,
    ) by {
        let a2 = if a < i {
            a
        } else {
            a + 1
        };
        let b2 = if b < i {
            b
        } else {
            b + 1
        };
        assert(t[a] == s[a2] && t[b] == s[b2]);
    }
}

proof fn lemma_insert_sorted(s: Seq<PendingModel>, pos: int, p: PendingModel)
    requires
        keys_nondecreasing(s),
        0 <= pos <= s.len(),
        forall|i: int| 0 <= i < pos ==> !seq_lt(p.key, (#[trigger] s[i]).key),
        forall|i: int| pos <= i < s.len() ==> seq_lt(p.key, (#[trigger] s[i]).key),
    ensures
        keys_nondecreasing(s.insert(pos, p)),
{
    let t = s.insert(pos, p);
    assert forall|a: int, b: int| 0 <= a < b < t.len() implies !seq_lt(
        (#[trigger] t[b]).key,
        (#[trigger] t[a]).key,
    ) by {
        if b < pos {
            assert(t[a] == s[a] && t[b] == s[b]);
        } else if b == pos {
            assert(t[a] == s[a]);
        } else if a < pos {
            assert(t[a] == s[a] && t[b] == s[b - 1]);
        } else if a == pos {
            assert(t[b] == s[b - 1]);
            lemma_seq_lt_asymmetric(p.key, s[b - 1].key);
        } else {
            assert(t[a] == s[a - 1] && t[b] == s[b - 1]);
        }
    }
}

/// What a snapshot decision, provisional decision or lane event says, in plain values.
pub enum DecisionModel {
    Ignored,
    SnapshotReplace { key: Seq<char>, subject: Subject },
    DuplicateSnapshot { key: Seq<char> },
    ProvisionalOpen { key: Seq<char>, subject: Subject },
    Confirmed { key: Seq<char> },
    Expired { key: Seq<char> },
    Conflict { finding: FindingModel },
    Suppressed { key: Seq<char> },
    UnmatchedRefused { key: Seq<char> },
}

#[derive(Debug, Clone, PartialEq, Eq)]
pub enum LaneDecision {
    Ignored,
    SnapshotReplace { key: String, subject: Subject },
    DuplicateSnapshot { key: String },
    ProvisionalOpen { key: String, subject: Subject },
    Confirmed { key: String },
    Expired { key: String },
    Conflict { finding: ReconciliationFinding },
    Suppressed { key: String },
    UnmatchedRefused { key: String },
}

impl View for LaneDecision {
    type V = DecisionModel;

    open spec fn view(&self) -> DecisionModel {
        match self {
            LaneDecision::Ignored => DecisionModel::Ignored,
            LaneDecision::SnapshotReplace { key, subject } => DecisionModel::SnapshotReplace {
                key: key@,
                subject: *subject,
            },
            LaneDecision::DuplicateSnapshot { key } => DecisionModel::DuplicateSnapshot { key: key@ },
            LaneDecision::ProvisionalOpen { key, subject } => DecisionModel::ProvisionalOpen {
                key: key@,
                subject: *subject,
            },
            LaneDecision::Confirmed { key } => DecisionModel::Confirmed { key: key@ },
            LaneDecision::Expired { key } => DecisionModel::Expired { key: key@ },
            LaneDecision::Conflict { finding } => DecisionModel::Conflict { finding: finding@ },
            LaneDecision::Suppressed { key } => DecisionModel::Suppressed { key: key@ },
            LaneDecision::UnmatchedRefused { key } => DecisionModel::UnmatchedRefused { key: key@ },
        }
    }
}

/// Health of the source feeding the lane.
#[derive(Debug, Clone, PartialEq, Eq)]
pub struct SourceLaneHealth {
    red: bool,
    reason_code: &'static str,
}

impl SourceLaneHealth {
    pub closed spec fn spec_red(&self) -> bool {
        self.red
    }

    pub closed spec fn spec_reason_code(&self) -> Seq<char> {
        self.reason_code@
    }

    pub fn red(&self) -> (r: bool)
        ensures
            r == self.spec_red(),
    {
        self.red
    }

    pub fn reason_code(&self) -> (r: &'static str)
        ensures
            r@ == self.spec_reason_code(),
    {
        self.reason_code
    }

    /// A red source suppresses provisional features.
    pub fn suppress_provisional_features(&self) -> (r: bool)
        ensures
            r == self.spec_red(),
    {
        self.red
    }

    /// Feature scopes the source's health suppresses.
    pub fn suppresses(&self) -> (r: Vec<&'static str>)
        ensures
            self.spec_red() ==> r@.len() == 1 && r@[0]@ == PROVISIONAL_FEATURE_SCOPE@,
            !self.spec_red() ==> r@.len() == 0,
    {
        let mut v: Vec<&'static str> = Vec::new();
        if self.red {
            v.push(PROVISIONAL_FEATURE_SCOPE);
        }
        v
    }
}

/// Plain values of a [`ProvisionalWsLane`].
pub struct LaneModel {
    pub ttl_millis: u64,
    pub unmatched_limit: usize,
    pub per_key_limit: usize,
    pub unmatched: Seq<PendingModel>,
    pub snapshots: Seq<(Seq<char>, [u8; 32])>,
    pub findings: Seq<FindingModel>,
    pub source_red: bool,
    pub families: Seq<WsFamily>,
}

/// An incremental observation under `key` is refused: the key already holds its quota,
/// or the lane holds its total quota.
pub open spec fn incremental_refused(pre: LaneModel, key: Seq<char>) -> bool {
    (count_key(pre.unmatched, key) > 0 && count_key(pre.unmatched, key) >= pre.per_key_limit)
        || pre.unmatched.len() >= pre.unmatched_limit
}

/// A snapshot-class observation.
pub open spec fn is_snapshot_class(class: InboundClass) -> bool {
    class == InboundClass::DuplicateSnapshot || class == InboundClass::SnapshotReplace
}

/// The decision for a WS observation offered to a lane in state `pre`.
pub open spec fn ws_decision(
    pre: LaneModel,
    key: Seq<char>,
    family: Seq<char>,
    hash: [u8; 32],
    class: InboundClass,
) -> DecisionModel {
    if is_snapshot_class(class) {
        if pre.source_red {
            DecisionModel::Suppressed { key }
        } else if lookup(pre.snapshots, key) == Some(hash) {
            DecisionModel::DuplicateSnapshot { key }
        } else {
            DecisionModel::SnapshotReplace { key, subject: subject_for(pre.families, family) }
        }
    } else if class == InboundClass::IncrementalEvent {
        if pre.source_red {
            DecisionModel::Suppressed { key }
        } else if !has_match(pre.unmatched, key, hash) && incremental_refused(pre, key) {
            DecisionModel::UnmatchedRefused { key }
        } else {
            DecisionModel::ProvisionalOpen { key, subject: subject_for(pre.families, family) }
        }
    } else {
        DecisionModel::Ignored
    }
}

/// `post` is `pre` with `hash` stored as the snapshot of `key`.
pub open spec fn snapshot_stored(pre: LaneModel, key: Seq<char>, hash: [u8; 32], post: LaneModel) -> bool {
    &&& post == LaneModel { snapshots: post.snapshots, ..pre }
    &&& keys_sorted(post.snapshots)
    &&& forall|k: Seq<char>| #[trigger]
        lookup(post.snapshots, k) == if k == key {
            Some(hash)
        } else {
            lookup(pre.snapshots, k)
        }
}

/// The lane state after a WS observation offered to a lane in state `pre`.
pub open spec fn ws_step(
    pre: LaneModel,
    key: Seq<char>,
    family: Seq<char>,
    hash: [u8; 32],
    class: InboundClass,
    received: u64,
    post: LaneModel,
) -> bool {
    if is_snapshot_class(class) && !pre.source_red {
        snapshot_stored(pre, key, hash, post)
    } else if class == InboundClass::IncrementalEvent && !pre.source_red && !has_match(
        pre.unmatched,
        key,
        hash,
    ) && !incremental_refused(pre, key) {
        &&& post == LaneModel { unmatched: post.unmatched, ..pre }
        &&& inserted_in_order(
            pre.unmatched,
            PendingModel { key, content_hash: hash, family, received_at_millis: received },
            post.unmatched,
        )
    } else {
        post == pre
    }
}

/// A committed fact `(key, hash)` offered to a lane in state `pre` yields decision `d`
/// and state `post`.
pub open spec fn committed_step(
    pre: LaneModel,
    key: Seq<char>,
    hash: [u8; 32],
    post: LaneModel,
    d: DecisionModel,
) -> bool {
    if count_key(pre.unmatched, key) == 0 {
        d == DecisionModel::Ignored && post == pre
    } else if has_match(pre.unmatched, key, hash) {
        &&& d == DecisionModel::Confirmed { key }
        &&& exists|i: int|
            first_match(pre.unmatched, key, hash, i) && post == (LaneModel {
                unmatched: pre.unmatched.remove(i),
                ..pre
            })
    } else {
        exists|i: int|
            #![trigger first_with_key(pre.unmatched, key, i)]
            first_with_key(pre.unmatched, key, i) && {
                let f = conflict_finding_model(
                    key,
                    pre.unmatched[i].family,
                    pre.unmatched[i].content_hash,
                    hash,
                    pre.families,
                );
                &&& d == DecisionModel::Conflict { finding: f }
                &&& post == (LaneModel {
                    unmatched: without_key(pre.unmatched, key),
                    findings: pre.findings.push(f),
                    ..pre
                })
            }
    }
}

/// Reconciles official WS observations against committed facts.
#[derive(Debug)]
pub struct ProvisionalWsLane {
    ttl_millis: u64,
    unmatched_limit: usize,
    per_key_limit: usize,
    unmatched: Vec<Pending>,
    snapshots: StrMap<[u8; 32]>,
    findings: Vec<ReconciliationFinding>,
    source_red: bool,
    families: Vec<WsFamily>,
}

impl View for ProvisionalWsLane {
    type V = LaneModel;

    closed spec fn view(&self) -> LaneModel {
        LaneModel {
            ttl_millis: self.ttl_millis,
            unmatched_limit: self.unmatched_limit,
            per_key_limit: self.per_key_limit,
            unmatched: self.unmatched@.map_values(|p: Pending| p@),
            snapshots: self.snapshots@,
            findings: self.findings@.map_values(|f: ReconciliationFinding| f@),
            source_red: self.source_red,
            families: self.families@,
        }
    }
}

impl ProvisionalWsLane {
    #[verifier::type_invariant]
    closed spec fn inv(self) -> bool {
        keys_nondecreasing(self.unmatched@.map_values(|p: Pending| p@))
    }

    /// A lane with the default unmatched limits.
    pub fn new(ttl_millis: u64) -> (r: Self)
        ensures
            r@.ttl_millis == ttl_millis,
            r@.unmatched_limit == DEFAULT_UNMATCHED_LIMIT,
            r@.per_key_limit == DEFAULT_UNMATCHED_PER_KEY,
            r@.unmatched.len() == 0,
            r@.snapshots.len() == 0,
            r@.findings.len() == 0,
            !r@.source_red,
            r@.families.len() == 0,
    {
        Self::with_limits(ttl_millis, DEFAULT_UNMATCHED_LIMIT, DEFAULT_UNMATCHED_PER_KEY)
    }

    pub fn with_limits(ttl_millis: u64, unmatched_limit: usize, per_key_limit: usize) -> (r: Self)
        ensures
            r@.ttl_millis == ttl_millis,
            r@.unmatched_limit == unmatched_limit,
            r@.per_key_limit == per_key_limit,
            r@.unmatched.len() == 0,
            r@.snapshots.len() == 0,
            r@.findings.len() == 0,
            !r@.source_red,
            r@.families.len() == 0,
    {
        ProvisionalWsLane {
            ttl_millis,
            unmatched_limit,
            per_key_limit,
            unmatched: Vec::new(),
            snapshots: StrMap::new(),
            findings: Vec::new(),
            source_red: false,
            families: Vec::new(),
        }
    }

    /// The lane for the official feed: default limits and a one-minute TTL.
    pub fn official() -> (r: Self)
        ensures
            r@.ttl_millis == DEFAULT_UNMATCHED_TTL_MILLIS,
            r@.unmatched_limit == DEFAULT_UNMATCHED_LIMIT,
            r@.per_key_limit == DEFAULT_UNMATCHED_PER_KEY,
            r@.unmatched.len() == 0,
            r@.snapshots.len() == 0,
            r@.findings.len() == 0,
            !r@.source_red,
            r@.families.len() == 0,
    {
        Self::new(DEFAULT_UNMATCHED_TTL_MILLIS)
    }

    /// The lane with `families` as its catalogue of subscription families.
    pub fn with_families(self, families: Vec<WsFamily>) -> (r: Self)
        ensures
            r@ == (LaneModel { families: families@, ..self@ }),
    {
        proof {
            use_type_invariant(&self);
        }
        let ProvisionalWsLane {
            ttl_millis,
            unmatched_limit,
            per_key_limit,
            unmatched,
            snapshots,
            findings,
            source_red,
            families: _,
        } = self;
        ProvisionalWsLane {
            ttl_millis,
            unmatched_limit,
            per_key_limit,
            unmatched,
            snapshots,
            findings,
            source_red,
            families,
        }
    }

    /// The WS lane never advances the committed watermark.
    pub fn advances_committed_watermark(&self) -> (r: bool)
        ensures
            !r,
    {
        false
    }

    pub fn unmatched_count(&self) -> (r: usize)
        ensures
            r == self@.unmatched.len(),
    {
        self.unmatched.len()
    }

    pub fn snapshot_count(&self) -> (r: usize)
        ensures
            r == self@.snapshots.len(),
    {
        self.snapshots.len()
    }

    pub fn findings(&self) -> (r: &[ReconciliationFinding])
        ensures
            r@.map_values(|f: ReconciliationFinding| f@) == self@.findings,
    {
        self.findings.as_slice()
    }

    pub fn source_health(&self) -> (r: SourceLaneHealth)
        ensures
            r.spec_red() == self@.source_red,
            self@.source_red ==> r.spec_reason_code() == "capture_ws.source_red"@,
            !self@.source_red ==> r.spec_reason_code() == "healthy"@,
    {
        SourceLaneHealth {
            red: self.source_red,
            reason_code: if self.source_red {
                "capture_ws.source_red"
            } else {
                "healthy"
            },
        }
    }

    pub fn provisional_features_admitted(&self) -> (r: bool)
        ensures
            r == !self@.source_red,
    {
        !self.source_red
    }

    pub fn set_source_red(&mut self, red: bool)
        ensures
            final(self)@ == (LaneModel { source_red: red, ..old(self)@ }),
    {
        proof {
            use_type_invariant(&*self);
        }
        self.source_red = red;
    }
}

impl ProvisionalWsLane {
    /// Classifies a WS observation and records what it opens.
    pub fn observe_ws(&mut self, observation: &WsLaneObservation) -> (r: LaneDecision)
        ensures
            r@ == ws_decision(
                old(self)@,
                observation.spec_match_key(),
                observation.spec_family(),
                observation.spec_content_hash(),
                observation.spec_class(),
            ),
            ws_step(
                old(self)@,
                observation.spec_match_key(),
                observation.spec_family(),
                observation.spec_content_hash(),
                observation.spec_class(),
                observation.spec_received_at_millis(),
                final(self)@,
            ),
    {
        match observation.class {
            InboundClass::Ack | InboundClass::Heartbeat | InboundClass::Unknown => LaneDecision::Ignored,
            InboundClass::Quarantine => LaneDecision::Ignored,
            InboundClass::DuplicateSnapshot | InboundClass::SnapshotReplace => self.observe_snapshot(
                observation,
            ),
            InboundClass::IncrementalEvent => self.observe_incremental(observation),
        }
    }

    fn observe_snapshot(&mut self, observation: &WsLaneObservation) -> (r: LaneDecision)
        requires
            is_snapshot_class(observation.spec_class()),
        ensures
            r@ == ws_decision(
                old(self)@,
                observation.spec_match_key(),
                observation.spec_family(),
                observation.spec_content_hash(),
                observation.spec_class(),
            ),
            ws_step(
                old(self)@,
                observation.spec_match_key(),
                observation.spec_family(),
                observation.spec_content_hash(),
                observation.spec_class(),
                observation.spec_received_at_millis(),
                final(self)@,
            ),
    {
        proof {
            use_type_invariant(&*self);
        }
        if self.source_red {
            return LaneDecision::Suppressed { key: owned(observation.match_key.as_str()) };
        }
        let subject = snapshot_subject_for_family(observation.family.as_str(), &self.families);
        let mut snapshots: StrMap<[u8; 32]> = StrMap::new();
        std::mem::swap(&mut snapshots, &mut self.snapshots);
        let previous = snapshots.insert(
            owned(observation.match_key.as_str()),
            observation.content_hash,
        );
        self.snapshots = snapshots;
        match previous {
            Some(p) => {
                if same_hash(&p, &observation.content_hash) {
                    return LaneDecision::DuplicateSnapshot {
                        key: owned(observation.match_key.as_str()),
                    };
                }
            },
            None => {},
        }
        LaneDecision::SnapshotReplace { key: owned(observation.match_key.as_str()), subject }
    }

    fn observe_incremental(&mut self, observation: &WsLaneObservation) -> (r: LaneDecision)
        requires
            observation.spec_class() == InboundClass::IncrementalEvent,
        ensures
            r@ == ws_decision(
                old(self)@,
                observation.spec_match_key(),
                observation.spec_family(),
                observation.spec_content_hash(),
                observation.spec_class(),
            ),
            ws_step(
                old(self)@,
                observation.spec_match_key(),
                observation.spec_family(),
                observation.spec_content_hash(),
                observation.spec_class(),
                observation.spec_received_at_millis(),
                final(self)@,
            ),
    {
        proof {
            use_type_invariant(&*self);
        }
        if self.source_red {
            return LaneDecision::Suppressed { key: owned(observation.match_key.as_str()) };
        }
        let key = chars_of(observation.match_key.as_str());
        let subject = snapshot_subject_for_family(observation.family.as_str(), &self.families);
        match find_match(&self.unmatched, &key, &observation.content_hash) {
            Some(i) => {
                assert(models(self.unmatched@)[i as int].key == key@);
                return LaneDecision::ProvisionalOpen {
                    key: owned(observation.match_key.as_str()),
                    subject,
                };
            },
            None => {},
        }
        let count = count_rows(&self.unmatched, &key);
        if (count > 0 && count >= self.per_key_limit) || self.unmatched.len() >= self.unmatched_limit {
            return LaneDecision::UnmatchedRefused { key: owned(observation.match_key.as_str()) };
        }
        let pos = insert_position(&self.unmatched, &key);
        let row = Pending {
            key: owned(observation.match_key.as_str()),
            content_hash: observation.content_hash,
            family: owned(observation.family.as_str()),
            received_at_millis: observation.received_at_millis,
        };
        let ghost pre = models(self.unmatched@);
        let ghost p = row@;
        let mut rows: Vec<Pending> = Vec::new();
        std::mem::swap(&mut rows, &mut self.unmatched);
        rows.insert(pos, row);
        proof {
            assert(models(rows@) =~= pre.insert(pos as int, p));
            lemma_insert_sorted(pre, pos as int, p);
        }
        self.unmatched = rows;
        LaneDecision::ProvisionalOpen { key: owned(observation.match_key.as_str()), subject }
    }
}

impl ProvisionalWsLane {
    /// Matches a committed fact against the provisional rows of its key.
    pub fn observe_committed(&mut self, fact: &CommittedFact, now_millis: u64) -> (r: LaneDecision)
        ensures
            committed_step(
                old(self)@,
                fact.spec_match_key(),
                fact.spec_content_hash(),
                final(self)@,
                r@,
            ),
    {
        proof {
            use_type_invariant(&*self);
        }
        let key = chars_of(fact.match_key.as_str());
        let ghost pre = models(self.unmatched@);
        let first = match find_key(&self.unmatched, &key) {
            None => {
                proof {
                    lemma_count_key_zero(pre, key@);
                }
                return LaneDecision::Ignored;
            },
            Some(first) => first,
        };
        proof {
            lemma_count_key_positive(pre, key@, first as int);
        }
        match find_match(&self.unmatched, &key, &fact.content_hash) {
            Some(i) => {
                let mut rows: Vec<Pending> = Vec::new();
                std::mem::swap(&mut rows, &mut self.unmatched);
                rows.remove(i);
                proof {
                    assert(models(rows@) =~= pre.remove(i as int));
                    lemma_remove_sorted(pre, i as int);
                    assert(has_match(pre, key@, fact.content_hash));
                }
                self.unmatched = rows;
                return LaneDecision::Confirmed { key: owned(fact.match_key.as_str()) };
            },
            None => {},
        }
        let family = owned(self.unmatched[first].family.as_str());
        let expected = self.unmatched[first].content_hash;
        assert(pre[first as int] == self.unmatched@[first as int]@);
        let mut kept: Vec<Pending> = Vec::new();
        let mut j: usize = 0;
        while j < self.unmatched.len()
            invariant
                j <= self.unmatched@.len(),
                pre == models(self.unmatched@),
                models(kept@) == without_key(pre.take(j as int), key@),
            decreases self.unmatched@.len() - j,
        {
            assert(pre.take(j + 1).drop_last() =~= pre.take(j as int));
            assert(pre[j as int] == self.unmatched@[j as int]@);
            let c = chars_of(self.unmatched[j].key.as_str());
            if !seq_eq(&c, &key) {
                let row = self.unmatched[j].copy();
                kept.push(row);
                assert(models(kept@) =~= without_key(pre.take(j as int), key@).push(pre[j as int]));
            }
            j = j + 1;
        }
        proof {
            assert(pre.take(pre.len() as int) =~= pre);
            lemma_without_key_sorted(pre, key@);
        }
        self.unmatched = kept;
        let finding = conflict_finding(
            fact.match_key.as_str(),
            family.as_str(),
            expected,
            fact.content_hash,
            &self.families,
        );
        let mut findings: Vec<ReconciliationFinding> = Vec::new();
        std::mem::swap(&mut findings, &mut self.findings);
        findings.push(finding.copy());
        self.findings = findings;
        proof {
            assert(first_with_key(pre, key@, first as int));
            assert(self.findings@.map_values(|f: ReconciliationFinding| f@) =~= old(self)@.findings.push(
                finding@,
            ));
        }
        LaneDecision::Conflict { finding }
    }

    /// Drops the rows older than the TTL at `now_millis`, one `Expired` per key that lost a row.
    pub fn expire(&mut self, now_millis: u64) -> (r: Vec<LaneDecision>)
        ensures
            final(self)@ == (LaneModel {
                unmatched: alive_rows(old(self)@.unmatched, now_millis, old(self)@.ttl_millis),
                ..old(self)@
            }),
            r@.map_values(|d: LaneDecision| d@) == expired_keys(
                old(self)@.unmatched,
                now_millis,
                old(self)@.ttl_millis,
            ).map_values(|k: Seq<char>| DecisionModel::Expired { key: k }),
    {
        proof {
            use_type_invariant(&*self);
        }
        let ttl = self.ttl_millis;
        let ghost pre = models(self.unmatched@);
        let mut kept: Vec<Pending> = Vec::new();
        let mut decisions: Vec<LaneDecision> = Vec::new();
        let mut last: Vec<char> = Vec::new();
        let mut j: usize = 0;
        while j < self.unmatched.len()
            invariant
                j <= self.unmatched@.len(),
                pre == models(self.unmatched@),
                ttl == self.ttl_millis,
                models(kept@) == alive_rows(pre.take(j as int), now_millis, ttl),
                decisions@.map_values(|d: LaneDecision| d@) == expired_keys(
                    pre.take(j as int),
                    now_millis,
                    ttl,
                ).map_values(|k: Seq<char>| DecisionModel::Expired { key: k }),
                expired_keys(pre.take(j as int), now_millis, ttl).len() > 0 ==> last@ == expired_keys(
                    pre.take(j as int),
                    now_millis,
                    ttl,
                ).last(),
            decreases self.unmatched@.len() - j,
        {
            assert(pre.take(j + 1).drop_last() =~= pre.take(j as int));
            assert(pre[j as int] == self.unmatched@[j as int]@);
            let received = self.unmatched[j].received_at_millis;
            let age: u64 = if now_millis >= received {
                now_millis - received
            } else {
                0
            };
            if age < ttl {
                let row = self.unmatched[j].copy();
                kept.push(row);
                assert(models(kept@) =~= alive_rows(pre.take(j as int), now_millis, ttl).push(pre[j as int]));
            } else {
                let c = chars_of(self.unmatched[j].key.as_str());
                let ghost sub = expired_keys(pre.take(j as int), now_millis, ttl);
                assert(sub.len() == decisions@.len()) by {
                    assert(decisions@.map_values(|d: LaneDecision| d@).len() == decisions@.len());
                    assert(sub.map_values(|k: Seq<char>| DecisionModel::Expired { key: k }).len()
                        == sub.len());
                }
                if decisions.len() == 0 || !seq_eq(&last, &c) {
                    let ghost before = decisions@;
                    let d = LaneDecision::Expired { key: owned(self.unmatched[j].key.as_str()) };
                    assert(d@ == DecisionModel::Expired { key: pre[j as int].key });
                    decisions.push(d);
                    proof {
                        let lhs = decisions@.map_values(|d: LaneDecision| d@);
                        let rhs = sub.push(pre[j as int].key).map_values(
                            |k: Seq<char>| DecisionModel::Expired { key: k },
                        );
                        assert forall|i: int| 0 <= i < lhs.len() implies lhs[i] == rhs[i] by {
                            if i < before.len() {
                                assert(decisions@[i] == before[i]);
                                assert(before.map_values(|d: LaneDecision| d@)[i] == sub.map_values(
                                    |k: Seq<char>| DecisionModel::Expired { key: k },
                                )[i]);
                            }
                        }
                        assert(decisions@.map_values(|d: LaneDecision| d@) =~= sub.push(
                            pre[j as int].key,
                        ).map_values(|k: Seq<char>| DecisionModel::Expired { key: k }));
                    }
                    last = c;
                }
            }
            j = j + 1;
        }
        proof {
            assert(pre.take(pre.len() as int) =~= pre);
            lemma_alive_sorted(pre, now_millis, ttl);
        }
        self.unmatched = kept;
        decisions
    }
}

impl ProvisionalWsLane {
    /// Takes every hash of `store` as the lane's snapshot of its key.
    pub fn restore_from(&mut self, store: &SnapshotHashStore)
        ensures
            final(self)@ == (LaneModel { snapshots: final(self)@.snapshots, ..old(self)@ }),
            forall|k: Seq<char>| #[trigger]
                lookup(final(self)@.snapshots, k) == match lookup(store@.hashes, k) {
                    Some(h) => Some(h),
                    None => lookup(old(self)@.snapshots, k),
                },
    {
        proof {
            use_type_invariant(&*self);
        }
        let entries = store.hashes().to_vec();
        let mut snapshots: StrMap<[u8; 32]> = StrMap::new();
        std::mem::swap(&mut snapshots, &mut self.snapshots);
        snapshots.put_all(&entries);
        self.snapshots = snapshots;
        proof {
            assert forall|k: Seq<char>| #[trigger]
                lookup(self@.snapshots, k) == match lookup(store@.hashes, k) {
                    Some(h) => Some(h),
                    None => lookup(old(self)@.snapshots, k),
                } by {
                lemma_last_value_sorted(store@.hashes, k);
            }
        }
    }

    /// Offers every snapshot of the lane to `store`, in key order; the store refuses the
    /// first key it cannot keep, and stops there.
    pub fn persist_into(&self, store: &mut SnapshotHashStore) -> (r: Result<(), SnapshotStoreError>)
        ensures
            final(store)@.path == old(store)@.path,
            all_keys_ok(self@.snapshots) ==> r is Ok && overlaid(
                old(store)@.hashes,
                self@.snapshots,
                final(store)@.hashes,
            ),
            !all_keys_ok(self@.snapshots) ==> r == Err::<(), SnapshotStoreError>(
                SnapshotStoreError::InvalidKey,
            ) && exists|n: int|
                0 <= n < self@.snapshots.len() && !crate::snapshot_store::store_key_ok(
                    #[trigger] self@.snapshots[n].0,
                ) && all_keys_ok(self@.snapshots.take(n)) && overlaid(
                    old(store)@.hashes,
                    self@.snapshots.take(n),
                    final(store)@.hashes,
                ),
    {
        let entries = self.snapshots.to_vec();
        store.extend(&entries)
    }
}

/// A snapshot hash the lane has stored reads as a duplicate when it comes again, under
/// either snapshot class and whatever family it names.
pub proof fn law_repeated_snapshot_is_duplicate(
    pre: LaneModel,
    key: Seq<char>,
    family: Seq<char>,
    hash: [u8; 32],
    class: InboundClass,
    received: u64,
    post: LaneModel,
    again_family: Seq<char>,
    again_class: InboundClass,
)
    requires
        is_snapshot_class(class),
        is_snapshot_class(again_class),
        !pre.source_red,
        ws_step(pre, key, family, hash, class, received, post),
    ensures
        ws_decision(post, key, again_family, hash, again_class) == (DecisionModel::DuplicateSnapshot {
            key,
        }),
{
}

/// While the source is red every snapshot and incremental observation is suppressed and
/// leaves the lane as it was.
pub proof fn law_red_source_suppresses(
    pre: LaneModel,
    key: Seq<char>,
    family: Seq<char>,
    hash: [u8; 32],
    class: InboundClass,
    received: u64,
    post: LaneModel,
)
    requires
        pre.source_red,
        is_snapshot_class(class) || class == InboundClass::IncrementalEvent,
        ws_step(pre, key, family, hash, class, received, post),
    ensures
        ws_decision(pre, key, family, hash, class) == (DecisionModel::Suppressed { key }),
        post == pre,
{
}

/// The committed fact that matches a provisional row the lane has just opened confirms it
/// and gives back the lane's earlier rows exactly.
pub proof fn law_confirm_undoes_open(
    pre: LaneModel,
    key: Seq<char>,
    family: Seq<char>,
    hash: [u8; 32],
    received: u64,
    mid: LaneModel,
    post: LaneModel,
    d: DecisionModel,
)
    requires
        keys_nondecreasing(pre.unmatched),
        ws_decision(pre, key, family, hash, InboundClass::IncrementalEvent) is ProvisionalOpen,
        !has_match(pre.unmatched, key, hash),
        ws_step(pre, key, family, hash, InboundClass::IncrementalEvent, received, mid),
        committed_step(mid, key, hash, post, d),
    ensures
        d == (DecisionModel::Confirmed { key }),
        post == pre,
{
    let p = PendingModel { key, content_hash: hash, family, received_at_millis: received };
    let pos = choose|pos: int|
        0 <= pos <= pre.unmatched.len() && mid.unmatched == pre.unmatched.insert(pos, p) && (forall|
            i: int,
        | 0 <= i < pos ==> !seq_lt(p.key, (#[trigger] pre.unmatched[i]).key)) && (forall|i: int|
            pos <= i < pre.unmatched.len() ==> seq_lt(p.key, (#[trigger] pre.unmatched[i]).key));
    assert(mid.unmatched[pos] == p);
    lemma_count_key_positive(mid.unmatched, key, pos);
    assert(has_match(mid.unmatched, key, hash));
    let i = choose|i: int|
        first_match(mid.unmatched, key, hash, i) && post == (LaneModel {
            unmatched: mid.unmatched.remove(i),
            ..mid
        });
    if i < pos {
        assert(mid.unmatched[i] == pre.unmatched[i]);
    } else if i > pos {
        assert(!((#[trigger] mid.unmatched[pos]).key == key && mid.unmatched[pos].content_hash
            == hash));
    }
    assert(i == pos);
    assert(mid.unmatched.remove(pos) =~= pre.unmatched);
}

proof fn lemma_without_key_clears(s: Seq<PendingModel>, k: Seq<char>)
    ensures
        count_key(without_key(s, k), k) == 0,
    decreases s.len(),
{
    if s.len() > 0 {
        lemma_without_key_clears(s.drop_last(), k);
        let sub = without_key(s.drop_last(), k);
        if s.last().key != k {
            assert(sub.push(s.last()).drop_last() =~= sub);
        }
    }
}

/// A committed fact that contradicts the provisional rows of its key opens one finding and
/// drops every row of that key.
pub proof fn law_conflict_clears_key(
    pre: LaneModel,
    key: Seq<char>,
    hash: [u8; 32],
    post: LaneModel,
    d: DecisionModel,
)
    requires
        count_key(pre.unmatched, key) > 0,
        !has_match(pre.unmatched, key, hash),
        committed_step(pre, key, hash, post, d),
    ensures
        d is Conflict,
        count_key(post.unmatched, key) == 0,
        post.findings.len() == pre.findings.len() + 1,
        post.snapshots == pre.snapshots,
{
    lemma_without_key_clears(pre.unmatched, key);
}

/// No observation takes the lane past its total quota of provisional rows.
pub proof fn law_unmatched_within_limit(
    pre: LaneModel,
    key: Seq<char>,
    family: Seq<char>,
    hash: [u8; 32],
    class: InboundClass,
    received: u64,
    post: LaneModel,
)
    requires
        pre.unmatched.len() <= pre.unmatched_limit,
        ws_step(pre, key, family, hash, class, received, post),
    ensures
        post.unmatched.len() <= post.unmatched_limit,
{
}

proof fn lemma_count_key_insert(s: Seq<PendingModel>, pos: int, p: PendingModel, k: Seq<char>)
    requires
        0 <= pos <= s.len(),
    ensures
        count_key(s.insert(pos, p), k) == count_key(s, k) + if p.key == k {
            1nat
        } else {
            0nat
        },
    decreases s.len(),
{
    let t = s.insert(pos, p);
    if pos == s.len() {
        assert(t.drop_last() =~= s);
    } else {
        lemma_count_key_insert(s.drop_last(), pos, p, k);
        assert(t.drop_last() =~= s.drop_last().insert(pos, p));
        assert(t.last() == s.last());
    }
}

/// No observation takes a key past its quota of provisional rows (a quota of zero still
/// admits a first row).
pub proof fn law_per_key_within_limit(
    pre: LaneModel,
    key: Seq<char>,
    family: Seq<char>,
    hash: [u8; 32],
    class: InboundClass,
    received: u64,
    post: LaneModel,
    k: Seq<char>,
)
    requires
        count_key(pre.unmatched, k) <= if pre.per_key_limit > 0 {
            pre.per_key_limit as nat
        } else {
            1nat
        },
        ws_step(pre, key, family, hash, class, received, post),
    ensures
        count_key(post.unmatched, k) <= if post.per_key_limit > 0 {
            post.per_key_limit as nat
        } else {
            1nat
        },
{
    if post != pre && class == InboundClass::IncrementalEvent {
        let p = PendingModel { key, content_hash: hash, family, received_at_millis: received };
        let pos = choose|pos: int|
            0 <= pos <= pre.unmatched.len() && post.unmatched == pre.unmatched.insert(pos, p) && (
            forall|i: int| 0 <= i < pos ==> !seq_lt(p.key, (#[trigger] pre.unmatched[i]).key)) && (
            forall|i: int|
                pos <= i < pre.unmatched.len() ==> seq_lt(p.key, (#[trigger] pre.unmatched[i]).key));
        lemma_count_key_insert(pre.unmatched, pos, p, k);
    }
}

/// After expiry every remaining row is younger than the TTL, and no row was added.
pub proof fn law_expire_keeps_only_alive(s: Seq<PendingModel>, now: u64, ttl: u64)
    ensures
        forall|i: int| 0 <= i < alive_rows(s, now, ttl).len() ==> is_alive(
            #[trigger] alive_rows(s, now, ttl)[i],
            now,
            ttl,
        ),
        alive_rows(s, now, ttl).len() <= s.len(),
    decreases s.len(),
{
    if s.len() > 0 {
        law_expire_keeps_only_alive(s.drop_last(), now, ttl);
        let sub = alive_rows(s.drop_last(), now, ttl);
        if is_alive(s.last(), now, ttl) {
            assert forall|i: int| 0 <= i < sub.push(s.last()).len() implies is_alive(
                #[trigger] sub.push(s.last())[i],
                now,
                ttl,
            ) by {
                if i < sub.len() {
                    assert(sub.push(s.last())[i] == sub[i]);
                }
            }
        }
    }
}

/// A snapshot the lane stored, persisted into a store whose file is written and read back
/// by a restarted lane, reads there as a duplicate when it comes again.
pub proof fn law_restart_recognises_snapshot(
    pre: LaneModel,
    key: Seq<char>,
    family: Seq<char>,
    hash: [u8; 32],
    class: InboundClass,
    received: u64,
    post: LaneModel,
    stored_before: Seq<(Seq<char>, [u8; 32])>,
    stored_after: Seq<(Seq<char>, [u8; 32])>,
    reread: Seq<(Seq<char>, [u8; 32])>,
    reread_map: Seq<(Seq<char>, [u8; 32])>,
    restarted_before: LaneModel,
    restarted: LaneModel,
    again_class: InboundClass,
)
    requires
        is_snapshot_class(class),
        !pre.source_red,
        ws_step(pre, key, family, hash, class, received, post),
        all_keys_ok(post.snapshots),
        overlaid(stored_before, post.snapshots, stored_after),
        keys_sorted(stored_after),
        keys_render(stored_after),
        parse_entries(lines_from(render_entries(stored_after), 0)) == Ok::<
            Seq<(Seq<char>, [u8; 32])>,
            SnapshotStoreError,
        >(reread),
        overlaid(Seq::empty(), reread, reread_map),
        forall|k: Seq<char>| #[trigger]
            lookup(restarted.snapshots, k) == match lookup(reread_map, k) {
                Some(h) => Some(h),
                None => lookup(restarted_before.snapshots, k),
            },
        !restarted.source_red,
        is_snapshot_class(again_class),
    ensures
        ws_decision(restarted, key, family, hash, again_class) == (DecisionModel::DuplicateSnapshot {
            key,
        }),
{
    lemma_last_value_sorted(post.snapshots, key);
    assert(lookup(stored_after, key) == Some(hash));
    assert forall|i: int| 0 <= i < stored_after.len() implies key_renders(
        #[trigger] stored_after[i].0,
    ) by {
        crate::strmap::lemma_lookup_at(stored_after, i);
        assert(lookup(stored_after, stored_after[i].0) is Some);
    }
    crate::snapshot_store::law_render_then_parse(stored_after);
    assert(lookup(reread_map, key) == lookup(stored_after, key));
}

/// Snapshots of a user-scoped family go to the account snapshot subject, of a coin-scoped
/// family that is not user-scoped to the market snapshot subject, and of any other family
/// to the ecosystem snapshot subject; the three scopes never share a subject.
pub proof fn law_snapshot_subject_follows_scope(coin_scoped: bool)
    ensures
        family_snapshot_subject(true, coin_scoped).name() == "hl.v1.snapshot.account"@,
        family_snapshot_subject(false, true).name() == "hl.v1.snapshot.market"@,
        family_snapshot_subject(false, false).name() == "hl.v1.snapshot.ecosystem"@,
        family_snapshot_subject(true, coin_scoped) != family_snapshot_subject(false, true),
        family_snapshot_subject(false, true) != family_snapshot_subject(false, false),
        family_snapshot_subject(true, coin_scoped) != family_snapshot_subject(false, false),
{
}

/// A snapshot of a catalogued family goes to the subject of the first catalogued family of
/// that name, by that family's scope.
pub proof fn law_catalogued_family_subject(families: Seq<WsFamily>, k: int)
    requires
        0 <= k < families.len(),
        forall|j: int| 0 <= j < k ==> (#[trigger] families[j]).identifier@ != families[k].identifier@,
    ensures
        subject_for(families, families[k].identifier@) == family_snapshot_subject(
            families[k].user_scoped,
            families[k].coin_scoped,
        ),
    decreases k,
{
    if k > 0 {
        let rest = families.drop_first();
        assert forall|j: int| 0 <= j < k - 1 implies (#[trigger] rest[j]).identifier@ != rest[k - 1].identifier@ by {
            assert(rest[j] == families[j + 1]);
        }
        law_catalogued_family_subject(rest, k - 1);
        assert(rest[k - 1] == families[k]);
        assert(families[0].identifier@ != families[k].identifier@);
    }
}

} // verus!
