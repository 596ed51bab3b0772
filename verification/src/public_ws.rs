//! Official public WebSocket adapter: the URL guard, request identities, the fan-out queue
//! and the session checkpoint. Archive exact bytes before fan-out.

use vstd::prelude::*;

use crate::config::ObservationClass;
use crate::digest::{
    append_bytes, append_u64_be, be_bytes_u64, blake3_digest, blake3_hash, hex_encode, hex_lower,
    same_hash,
};
use crate::egress::{ProtocolErrorCode, url_path_part};
use crate::provisional_pipeline::InboundClass;
use crate::text::{
    chars_of, contains, ends_with, has_char, owned, push_decimal, push_str, same_text,
    decimal_text, seq_eq, starts_with, str_contains, str_has_char, str_starts_with,
};

verus! {

pub const WS_CHECKPOINT_SCHEMA: &'static str = "hl.ws-session-checkpoint.v1";

/// The official public WebSocket endpoints.
pub const OFFICIAL_WS_MAINNET_URL: &'static str = "wss://api.hyperliquid.xyz/ws";

pub const OFFICIAL_WS_TESTNET_URL: &'static str = "wss://api.hyperliquid-testnet.xyz/ws";

pub open spec fn official_ws_url(u: Seq<char>) -> bool {
    u == OFFICIAL_WS_MAINNET_URL@ || u == OFFICIAL_WS_TESTNET_URL@
}

/// Where a test may inject a WebSocket capture fault.
#[derive(Debug, Clone, Copy, PartialEq, Eq, Structural)]
pub enum WsFaultPoint {
    AfterArchive,
    AfterFanout,
}

/// Why a WebSocket capture stopped.
#[derive(Debug, Clone, Copy, PartialEq, Eq)]
pub enum WsCaptureError {
    HostNotAllowlisted,
    TlsRequired,
    ExchangeForbidden,
    Archive,
    EmptyBody,
    Checkpoint,
    MissingArchive,
    BacklogFull,
    RequestIdentity,
    CommittedLane,
    Session(ProtocolErrorCode),
    InjectedFault(WsFaultPoint),
}

impl WsCaptureError {
    pub open spec fn reason(self) -> Seq<char> {
        match self {
            WsCaptureError::HostNotAllowlisted => "capture_ws.host_not_allowlisted"@,
            WsCaptureError::TlsRequired => "capture_ws.tls_required"@,
            WsCaptureError::ExchangeForbidden => "capture_ws.exchange_forbidden"@,
            WsCaptureError::Archive => "capture_ws.archive"@,
            WsCaptureError::EmptyBody => "capture_ws.empty_body"@,
            WsCaptureError::Checkpoint => "capture_ws.checkpoint"@,
            WsCaptureError::MissingArchive => "capture_ws.missing_archive"@,
            WsCaptureError::BacklogFull => "capture_ws.backlog_full"@,
            WsCaptureError::RequestIdentity => "capture_ws.request_identity"@,
            WsCaptureError::CommittedLane => "capture_ws.committed_lane"@,
            WsCaptureError::Session(code) => code.spec_code(),
            WsCaptureError::InjectedFault(WsFaultPoint::AfterArchive) => "capture_ws.fault_after_archive"@,
            WsCaptureError::InjectedFault(WsFaultPoint::AfterFanout) => "capture_ws.fault_after_fanout"@,
        }
    }

    pub fn reason_code(self) -> (r: &'static str)
        ensures
            r@ == self.reason(),
    {
        match self {
            WsCaptureError::HostNotAllowlisted => "capture_ws.host_not_allowlisted",
            WsCaptureError::TlsRequired => "capture_ws.tls_required",
            WsCaptureError::ExchangeForbidden => "capture_ws.exchange_forbidden",
            WsCaptureError::Archive => "capture_ws.archive",
            WsCaptureError::EmptyBody => "capture_ws.empty_body",
            WsCaptureError::Checkpoint => "capture_ws.checkpoint",
            WsCaptureError::MissingArchive => "capture_ws.missing_archive",
            WsCaptureError::BacklogFull => "capture_ws.backlog_full",
            WsCaptureError::RequestIdentity => "capture_ws.request_identity",
            WsCaptureError::CommittedLane => "capture_ws.committed_lane",
            WsCaptureError::Session(code) => code.code(),
            WsCaptureError::InjectedFault(WsFaultPoint::AfterArchive) => "capture_ws.fault_after_archive",
            WsCaptureError::InjectedFault(WsFaultPoint::AfterFanout) => "capture_ws.fault_after_fanout",
        }
    }
}

/// Injects faults at named points of a WebSocket capture.
pub trait WsFaultInjector {
    fn check(&self, point: WsFaultPoint) -> Result<(), WsCaptureError>;
}

/// Injects nothing.
#[derive(Debug, Clone, Copy, Default)]
pub struct NoWsFaults;

impl WsFaultInjector for NoWsFaults {
    fn check(&self, point: WsFaultPoint) -> (r: Result<(), WsCaptureError>)
        ensures
            r is Ok,
    {
        Ok(())
    }
}

/// `s` without one trailing `/`, unless that would leave `wss:/`.
pub open spec fn strip_one_slash(s: Seq<char>) -> Seq<char> {
    if s.len() > 0 && s.last() == '/' && s.drop_last() != "wss:/"@ {
        s.drop_last()
    } else {
        s
    }
}

/// `s` with every trailing `/ws` removed, as `str::trim_end_matches("/ws")` gives it.
pub open spec fn trim_ws_suffix(s: Seq<char>) -> Seq<char>
    decreases s.len(),
{
    if ends_with(s, "/ws"@) && s.len() >= 3 {
        trim_ws_suffix(s.take(s.len() - 3))
    } else {
        s
    }
}

/// The URL the guard settles on for an accepted URL.
pub open spec fn ws_canonical(trimmed: Seq<char>) -> Seq<char> {
    if ends_with(trimmed, "/ws"@) {
        trimmed
    } else if trim_ws_suffix(OFFICIAL_WS_MAINNET_URL@) == trimmed || trim_ws_suffix(
        OFFICIAL_WS_TESTNET_URL@,
    ) == trimmed {
        trimmed + "/ws"@
    } else {
        trimmed
    }
}

/// What the guard makes of a WebSocket URL.
pub open spec fn ws_url_verdict(url: Seq<char>) -> Result<Seq<char>, WsCaptureError> {
    if url.len() == 0 || has_char(url, '@') {
        Err(WsCaptureError::HostNotAllowlisted)
    } else if contains(url, "/exchange"@) {
        Err(WsCaptureError::ExchangeForbidden)
    } else if !starts_with(url, "wss://"@) {
        Err(WsCaptureError::TlsRequired)
    } else {
        let trimmed = strip_one_slash(url_path_part(url));
        let canonical = ws_canonical(trimmed);
        if !official_ws_url(canonical) && !official_ws_url(trimmed) {
            Err(WsCaptureError::HostNotAllowlisted)
        } else {
            Ok(canonical)
        }
    }
}

fn trim_ws_suffix_of(s: &Vec<char>) -> (r: Vec<char>)
    ensures
        r@ == trim_ws_suffix(s@),
{
    let suffix = chars_of("/ws");
    let mut n = s.len();
    let mut cur: Vec<char> = Vec::new();
    let mut k: usize = 0;
    while k < n
        invariant
            k <= n == s@.len(),
            cur@ == s@.take(k as int),
        decreases n - k,
    {
        cur.push(s[k]);
        k = k + 1;
    }
    assert(cur@ =~= s@);
    while cur.len() >= 3 && crate::text::seq_ends_with(&cur, &suffix)
        invariant
            suffix@ == "/ws"@,
            trim_ws_suffix(cur@) == trim_ws_suffix(s@),
        decreases cur@.len(),
    {
        proof {
            reveal_strlit("/ws");
        }
        let m = cur.len() - 3;
        let mut next: Vec<char> = Vec::new();
        let mut j: usize = 0;
        while j < m
            invariant
                j <= m,
                m + 3 == cur@.len(),
                next@ == cur@.take(j as int),
            decreases m - j,
        {
            next.push(cur[j]);
            j = j + 1;
        }
        cur = next;
    }
    proof {
        reveal_strlit("/ws");
    }
    cur
}

/// Checks a WebSocket URL against the allowlist and gives its canonical form.
pub fn guard_ws_url(url: &str) -> (r: Result<String, WsCaptureError>)
    ensures
        match ws_url_verdict(url@) {
            Ok(c) => r matches Ok(s) && s@ == c,
            Err(e) => r == Err::<String, WsCaptureError>(e),
        },
{
    if url.is_empty() || str_has_char(url, '@') {
        return Err(WsCaptureError::HostNotAllowlisted);
    }
    if str_contains(url, "/exchange") {
        return Err(WsCaptureError::ExchangeForbidden);
    }
    if str_starts_with(url, "ws://") || str_starts_with(url, "http://") {
        proof {
            reveal_strlit("ws://");
            reveal_strlit("http://");
            reveal_strlit("wss://");
            if starts_with(url@, "wss://"@) {
                assert(url@[2] == "wss://"@[2]);
                if starts_with(url@, "ws://"@) {
                    assert(url@[2] == "ws://"@[2]);
                } else {
                    assert(url@[0] == "http://"@[0]);
                }
            }
        }
        return Err(WsCaptureError::TlsRequired);
    }
    if !str_starts_with(url, "wss://") {
        return Err(WsCaptureError::TlsRequired);
    }
    let v = chars_of(url);
    let path = crate::egress::url_path_only(&v);
    let n = path.len();
    let mut trimmed: Vec<char> = Vec::new();
    let strip = n > 0 && path[n - 1] == '/' && !head_is(&path, "wss:/");
    let keep = if strip {
        n - 1
    } else {
        n
    };
    let mut k: usize = 0;
    while k < keep
        invariant
            k <= keep <= n == path@.len(),
            trimmed@ == path@.take(k as int),
        decreases keep - k,
    {
        trimmed.push(path[k]);
        k = k + 1;
    }
    proof {
        if n > 0 {
            assert(path@.last() == path@[n - 1]);
        }
        if strip {
            assert(trimmed@ =~= path@.drop_last());
        } else {
            assert(trimmed@ =~= path@);
        }
    }
    assert(trimmed@ == strip_one_slash(path@));
    let ws = chars_of("/ws");
    let canonical: Vec<char> = if crate::text::seq_ends_with(&trimmed, &ws) {
        copy_chars(&trimmed)
    } else {
        let main = trim_ws_suffix_of(&chars_of(OFFICIAL_WS_MAINNET_URL));
        let test = trim_ws_suffix_of(&chars_of(OFFICIAL_WS_TESTNET_URL));
        if seq_eq(&main, &trimmed) || seq_eq(&test, &trimmed) {
            let mut c = copy_chars(&trimmed);
            c.push('/');
            c.push('w');
            c.push('s');
            proof {
                reveal_strlit("/ws");
            }
            assert(c@ =~= trimmed@ + "/ws"@);
            c
        } else {
            copy_chars(&trimmed)
        }
    };
    let main_url = chars_of(OFFICIAL_WS_MAINNET_URL);
    let test_url = chars_of(OFFICIAL_WS_TESTNET_URL);
    if !(seq_eq(&canonical, &main_url) || seq_eq(&canonical, &test_url)) && !(seq_eq(
        &trimmed,
        &main_url,
    ) || seq_eq(&trimmed, &test_url)) {
        return Err(WsCaptureError::HostNotAllowlisted);
    }
    Ok(string_from(&canonical))
}

/// Whether `v` without its last character reads `s`.
fn head_is(v: &Vec<char>, s: &str) -> (r: bool)
    requires
        v@.len() > 0,
    ensures
        r == (v@.drop_last() == s@),
{
    let n = v.len();
    let mut head: Vec<char> = Vec::new();
    let mut k: usize = 0;
    while k < n - 1
        invariant
            n == v@.len(),
            n > 0,
            k <= n - 1,
            head@ == v@.take(k as int),
        decreases n - k,
    {
        head.push(v[k]);
        k = k + 1;
    }
    assert(head@ =~= v@.drop_last());
    seq_eq(&head, &chars_of(s))
}

fn copy_chars(v: &Vec<char>) -> (r: Vec<char>)
    ensures
        r@ == v@,
{
    let mut out: Vec<char> = Vec::new();
    let mut i: usize = 0;
    while i < v.len()
        invariant
            i <= v@.len(),
            out@ == v@.take(i as int),
        decreases v@.len() - i,
    {
        out.push(v[i]);
        i = i + 1;
    }
    assert(out@ =~= v@);
    out
}

/// A `String` holding the characters of `v`.
#[verifier::external_body]
pub(crate) fn string_from(v: &Vec<char>) -> (r: String)
    ensures
        r@ == v@,
{
    v.iter().collect()
}

/// The bytes hashed for a request identity: a context tag, the subscription identity, the
/// connection slot, then the inbound sequence and receive time, big-endian.
pub open spec fn ws_request_preimage(identity: [u8; 32], slot: u8, seq: u64, micros: i64) -> Seq<u8> {
    vstd::utf8::encode_utf8("hl.ws-request.v1\0"@) + identity@ + seq![slot] + be_bytes_u64(seq)
        + be_bytes_u64(micros as u64)
}

/// The identity of one inbound message: the BLAKE3 digest of its preimage.
pub fn ws_request_hash(
    subscription_identity: [u8; 32],
    connection_slot: u8,
    inbound_seq: u64,
    received_at_micros: i64,
) -> (r: [u8; 32])
    ensures
        r@ == blake3_digest(
            ws_request_preimage(subscription_identity, connection_slot, inbound_seq, received_at_micros),
        ),
{
    let mut pre: Vec<u8> = Vec::new();
    append_bytes(&mut pre, "hl.ws-request.v1\0".as_bytes());
    append_bytes(&mut pre, subscription_identity.as_slice());
    pre.push(connection_slot);
    append_u64_be(&mut pre, inbound_seq);
    append_u64_be(&mut pre, received_at_micros as u64);
    assert(pre@ =~= ws_request_preimage(
        subscription_identity,
        connection_slot,
        inbound_seq,
        received_at_micros,
    ));
    blake3_hash(pre.as_slice())
}

/// The archive reference of a WebSocket body: `ws-` and the hex BLAKE3 digest of its bytes.
pub open spec fn ws_archive_ref_of(body: Seq<u8>) -> Seq<char> {
    "ws-"@ + hex_lower(blake3_digest(body))
}

pub fn ws_archive_ref_for(body: &[u8]) -> (r: String)
    ensures
        r@ == ws_archive_ref_of(body@),
{
    let digest = blake3_hash(body);
    let mut out = owned("ws-");
    push_str(&mut out, hex_encode(digest.as_slice()).as_str());
    out
}

/// A message handed to fan-out, with the archive reference of its bytes.
#[derive(Debug, Clone, PartialEq, Eq)]
pub struct WsPublished {
    pub archive_ref: String,
    pub request_hash: [u8; 32],
    pub class: InboundClass,
    pub observation_class: ObservationClass,
    pub payload: Vec<u8>,
}

impl WsPublished {
    pub fn archive_ref(&self) -> (r: &str)
        ensures
            r@ == self.archive_ref@,
    {
        self.archive_ref.as_str()
    }

    pub fn request_hash(&self) -> (r: [u8; 32])
        ensures
            r == self.request_hash,
    {
        self.request_hash
    }

    pub fn class(&self) -> (r: InboundClass)
        ensures
            r == self.class,
    {
        self.class
    }

    pub fn observation_class(&self) -> (r: ObservationClass)
        ensures
            r == self.observation_class,
    {
        self.observation_class
    }

    pub fn payload(&self) -> (r: &[u8])
        ensures
            r@ == self.payload@,
    {
        self.payload.as_slice()
    }
}

/// Receives published WebSocket messages.
pub trait WsFanout {
    fn push(&mut self, item: WsPublished) -> Result<(), WsCaptureError>;

    fn len(&self) -> usize;
}

/// A bounded in-memory fan-out queue.
#[derive(Debug, Default)]
pub struct MemoryWsFanout {
    items: Vec<WsPublished>,
    capacity: usize,
}

impl MemoryWsFanout {
    pub closed spec fn spec_items(&self) -> Seq<WsPublished> {
        self.items@
    }

    pub closed spec fn spec_capacity(&self) -> usize {
        self.capacity
    }

    pub fn new(capacity: usize) -> (r: Self)
        ensures
            r.spec_items().len() == 0,
            r.spec_capacity() == capacity,
    {
        MemoryWsFanout { items: Vec::new(), capacity }
    }

    pub fn items(&self) -> (r: &[WsPublished])
        ensures
            r@ == self.spec_items(),
    {
        self.items.as_slice()
    }

    /// Takes the oldest queued message.
    pub fn pop_front(&mut self) -> (r: Option<WsPublished>)
        ensures
            final(self).spec_capacity() == old(self).spec_capacity(),
            old(self).spec_items().len() == 0 ==> r is None && final(self).spec_items() == old(self).spec_items(),
            old(self).spec_items().len() > 0 ==> r == Some(old(self).spec_items()[0])
                && final(self).spec_items() == old(self).spec_items().drop_first(),
    {
        if self.items.len() == 0 {
            None
        } else {
            let item = self.items.remove(0);
            assert(self.items@ =~= old(self).spec_items().drop_first());
            Some(item)
        }
    }
}

impl WsFanout for MemoryWsFanout {
    fn push(&mut self, item: WsPublished) -> (r: Result<(), WsCaptureError>)
        ensures
            final(self).spec_capacity() == old(self).spec_capacity(),
            old(self).spec_items().len() >= old(self).spec_capacity() ==> r
                == Err::<(), WsCaptureError>(WsCaptureError::BacklogFull) && final(self).spec_items()
                == old(self).spec_items(),
            old(self).spec_items().len() < old(self).spec_capacity() ==> r is Ok && final(self).spec_items()
                == old(self).spec_items().push(item),
    {
        if self.items.len() >= self.capacity {
            return Err(WsCaptureError::BacklogFull);
        }
        self.items.push(item);
        Ok(())
    }

    fn len(&self) -> (r: usize)
        ensures
            r == self.spec_items().len(),
    {
        self.items.len()
    }
}

impl MemoryWsFanout {
    /// Queues `item` unless the queue holds its capacity already.
    pub fn offer(&mut self, item: WsPublished) -> (r: Result<(), WsCaptureError>)
        ensures
            final(self).spec_capacity() == old(self).spec_capacity(),
            old(self).spec_items().len() >= old(self).spec_capacity() ==> r
                == Err::<(), WsCaptureError>(WsCaptureError::BacklogFull) && final(self).spec_items()
                == old(self).spec_items(),
            old(self).spec_items().len() < old(self).spec_capacity() ==> r is Ok && final(self).spec_items() == old(self).spec_items().push(item),
    {
        if self.items.len() >= self.capacity {
            return Err(WsCaptureError::BacklogFull);
        }
        self.items.push(item);
        Ok(())
    }

    pub fn count(&self) -> (r: usize)
        ensures
            r == self.spec_items().len(),
    {
        self.items.len()
    }
}

/// An archived message still waiting for fan-out.
#[derive(Debug, Clone, PartialEq, Eq)]
pub struct WsPendingItem {
    pub archive_ref: String,
    pub request_hash: String,
    pub inbound_seq: u64,
    pub subscription_identity: String,
}

impl WsPendingItem {
    pub fn archive_ref(&self) -> (r: &str)
        ensures
            r@ == self.archive_ref@,
    {
        self.archive_ref.as_str()
    }

    pub fn request_hash(&self) -> (r: &str)
        ensures
            r@ == self.request_hash@,
    {
        self.request_hash.as_str()
    }

    fn copy(&self) -> (r: WsPendingItem)
        ensures
            r.archive_ref@ == self.archive_ref@,
            r.request_hash@ == self.request_hash@,
            r.inbound_seq == self.inbound_seq,
            r.subscription_identity@ == self.subscription_identity@,
    {
        WsPendingItem {
            archive_ref: owned(self.archive_ref.as_str()),
            request_hash: owned(self.request_hash.as_str()),
            inbound_seq: self.inbound_seq,
            subscription_identity: owned(self.subscription_identity.as_str()),
        }
    }
}

/// Where one WebSocket connection stands: its inbound sequence and the messages archived
/// but not yet fanned out.
#[derive(Debug, Clone, PartialEq, Eq)]
pub struct WsSessionCheckpoint {
    pub schema_version: String,
    pub connection_slot: u8,
    pub inbound_seq: u64,
    pub pending: Vec<WsPendingItem>,
}

impl WsSessionCheckpoint {
    pub fn new(connection_slot: u8) -> (r: Self)
        ensures
            r.schema_version@ == WS_CHECKPOINT_SCHEMA@,
            r.connection_slot == connection_slot,
            r.inbound_seq == 0,
            r.pending@.len() == 0,
    {
        WsSessionCheckpoint {
            schema_version: owned(WS_CHECKPOINT_SCHEMA),
            connection_slot,
            inbound_seq: 0,
            pending: Vec::new(),
        }
    }

    pub fn pending(&self) -> (r: &[WsPendingItem])
        ensures
            r@ == self.pending@,
    {
        self.pending.as_slice()
    }

    pub fn inbound_seq(&self) -> (r: u64)
        ensures
            r == self.inbound_seq,
    {
        self.inbound_seq
    }

    /// Whether a checkpoint read back from disk may stand for connection `slot`.
    pub fn belongs_to(&self, slot: u8) -> (r: bool)
        ensures
            r == (self.schema_version@ == WS_CHECKPOINT_SCHEMA@ && self.connection_slot == slot),
    {
        same_text(self.schema_version.as_str(), WS_CHECKPOINT_SCHEMA) && self.connection_slot == slot
    }

    /// Takes every pending message with request hash `request_hash` off the queue.
    pub fn settle(&mut self, request_hash: &str)
        ensures
            final(self).schema_version == old(self).schema_version,
            final(self).connection_slot == old(self).connection_slot,
            final(self).inbound_seq == old(self).inbound_seq,
            forall|i: int|
                0 <= i < final(self).pending@.len() ==> (#[trigger] final(self).pending@[i]).request_hash@
                    != request_hash@,
            forall|i: int|
                0 <= i < old(self).pending@.len() && (#[trigger] old(self).pending@[i]).request_hash@
                    != request_hash@ ==> exists|j: int|
                    0 <= j < final(self).pending@.len() && final(self).pending@[j].request_hash@
                        == old(self).pending@[i].request_hash@ && final(self).pending@[j].archive_ref@
                        == old(self).pending@[i].archive_ref@,
            final(self).pending@.len() <= old(self).pending@.len(),
    {
        let mut kept: Vec<WsPendingItem> = Vec::new();
        let mut i: usize = 0;
        while i < self.pending.len()
            invariant
                i <= self.pending@.len(),
                self.pending@ == old(self).pending@,
                kept@.len() <= i,
                forall|k: int| 0 <= k < kept@.len() ==> (#[trigger] kept@[k]).request_hash@ != request_hash@,
                forall|m: int|
                    0 <= m < i && (#[trigger] self.pending@[m]).request_hash@ != request_hash@
                        ==> exists|j: int|
                        0 <= j < kept@.len() && kept@[j].request_hash@ == self.pending@[m].request_hash@
                            && kept@[j].archive_ref@ == self.pending@[m].archive_ref@,
            decreases self.pending@.len() - i,
        {
            let ghost before = kept@;
            if !same_text(self.pending[i].request_hash.as_str(), request_hash) {
                let item = self.pending[i].copy();
                kept.push(item);
                assert(kept@[kept@.len() - 1].request_hash@ == self.pending@[i as int].request_hash@);
            }
            proof {
                assert forall|m: int|
                    0 <= m < i + 1 && (#[trigger] self.pending@[m]).request_hash@ != request_hash@
                        implies exists|j: int|
                        0 <= j < kept@.len() && kept@[j].request_hash@ == self.pending@[m].request_hash@
                            && kept@[j].archive_ref@ == self.pending@[m].archive_ref@ by {
                    if m < i {
                        let j = choose|j: int|
                            0 <= j < before.len() && before[j].request_hash@
                                == self.pending@[m].request_hash@ && before[j].archive_ref@
                                == self.pending@[m].archive_ref@;
                        assert(kept@[j] == before[j]);
                    } else {
                        assert(kept@[kept@.len() - 1].archive_ref@ == self.pending@[m].archive_ref@);
                    }
                }
            }
            i = i + 1;
        }
        assert forall|m: int|
            0 <= m < old(self).pending@.len() && (#[trigger] old(self).pending@[m]).request_hash@
                != request_hash@ implies exists|j: int|
            0 <= j < kept@.len() && kept@[j].request_hash@ == old(self).pending@[m].request_hash@
                && kept@[j].archive_ref@ == old(self).pending@[m].archive_ref@ by {
            assert(self.pending@[m] == old(self).pending@[m]);
        }
        let ghost k = kept@;
        self.pending = kept;
        assert(self.pending@ == k);
    }
}

/// The checkpoint file name of a connection: `ws-slot-{slot}.json`.
pub fn ws_checkpoint_file_name(slot: u8) -> (r: String)
    ensures
        r@ == "ws-slot-"@ + decimal_text(slot as nat) + ".json"@,
{
    let mut name = owned("ws-slot-");
    push_decimal(&mut name, slot as u64);
    push_str(&mut name, ".json");
    name
}

/// What `Path::with_file_name` gives for `path` and `name`, as text.
pub uninterp spec fn path_with_file_name(path: Seq<char>, name: Seq<char>) -> Seq<char>;

/// Calls `std::path::Path::with_file_name`: `path` with its last component replaced by
/// `name`, or `name` pushed where `path` has no file name.
#[verifier::external_body]
pub(crate) fn with_file_name(path: &str, name: &str) -> (r: String)
    ensures
        r@ == path_with_file_name(path@, name@),
{
    std::path::Path::new(path).with_file_name(name).to_string_lossy().into_owned()
}

/// The WebSocket plan snapshot lives beside the status file, as `ws-plan.json`.
pub fn ws_plan_status_path(status_path: &str) -> (r: String)
    ensures
        r@ == path_with_file_name(status_path@, "ws-plan.json"@),
{
    with_file_name(status_path, "ws-plan.json")
}

/// Archives WebSocket bodies.
pub trait WsArchive {
    fn put(
        &mut self,
        body: &[u8],
        received_at_micros: i64,
        request_hash: [u8; 32],
        observation_class: ObservationClass,
    ) -> Result<String, WsCaptureError>;
}

/// Drives one WebSocket connection: identity, archive and queue of each inbound message.
pub struct WsCaptureCoordinator<'a, A, F, I> {
    archive: &'a mut A,
    fanout: &'a mut F,
    checkpoint: &'a mut WsSessionCheckpoint,
    faults: &'a I,
}

impl<'a, A: WsArchive, F: WsFanout, I: WsFaultInjector> WsCaptureCoordinator<'a, A, F, I> {
    pub closed spec fn spec_checkpoint(&self) -> WsSessionCheckpoint {
        *self.checkpoint
    }

    pub fn new(
        archive: &'a mut A,
        fanout: &'a mut F,
        checkpoint: &'a mut WsSessionCheckpoint,
        faults: &'a I,
    ) -> (r: Self)
        ensures
            r.spec_checkpoint() == *old(checkpoint),
    {
        WsCaptureCoordinator { archive, fanout, checkpoint, faults }
    }

    /// Archives an inbound message and queues it for fan-out. `identity` names the
    /// subscription (the digest of `unassigned` for none); `parsed_class` is the class the
    /// message parsed as. A message whose bytes hash to its own request identity, or
    /// that claims the committed lane, is refused before anything is archived.
    pub fn record_inbound(
        &mut self,
        payload: &[u8],
        identity: [u8; 32],
        slot: u8,
        received_at_micros: i64,
        parsed_class: ObservationClass,
    ) -> (r: Result<String, WsCaptureError>)
        ensures
            ({
                let pre = old(self).spec_checkpoint();
                let post = final(self).spec_checkpoint();
                let seq: u64 = if pre.inbound_seq < u64::MAX {
                    (pre.inbound_seq + 1) as u64
                } else {
                    u64::MAX
                };
                let rh = blake3_digest(ws_request_preimage(identity, slot, seq, received_at_micros));
                if rh == blake3_digest(payload@) {
                    r == Err::<String, WsCaptureError>(WsCaptureError::RequestIdentity) && post == pre
                } else {
                    &&& post.schema_version == pre.schema_version
                    &&& post.connection_slot == pre.connection_slot
                    &&& post.inbound_seq == seq
                    &&& parsed_class == ObservationClass::CommittedBlock ==> r == Err::<
                        String,
                        WsCaptureError,
                    >(WsCaptureError::CommittedLane) && post.pending == pre.pending
                    &&& post.pending@.len() == pre.pending@.len() || (post.pending@.len()
                        == pre.pending@.len() + 1 && post.pending@.take(pre.pending@.len() as int)
                        == pre.pending@ && post.pending@.last().request_hash@ == hex_lower(rh)
                        && post.pending@.last().inbound_seq == seq
                        && post.pending@.last().subscription_identity@ == hex_lower(identity@))
                    &&& r matches Ok(a) ==> post.pending@.len() == pre.pending@.len() + 1
                        && post.pending@.last().archive_ref@ == a@
                }
            }),
    {
        let inbound_seq = self.checkpoint.inbound_seq.saturating_add(1);
        let request_hash = ws_request_hash(identity, slot, inbound_seq, received_at_micros);
        let body_hash = blake3_hash(payload);
        if same_hash(&request_hash, &body_hash) {
            return Err(WsCaptureError::RequestIdentity);
        }
        proof {
            broadcast use vstd::array::group_array_axioms;

            if request_hash@ == body_hash@ {
                assert(request_hash =~= body_hash);
            }
        }
        self.checkpoint.inbound_seq = inbound_seq;
        match parsed_class {
            ObservationClass::CommittedBlock => {
                return Err(WsCaptureError::CommittedLane);
            },
            _ => {},
        }
        let archive_ref = self.archive.put(payload, received_at_micros, request_hash, parsed_class)?;
        let ghost before = self.checkpoint.pending@;
        self.checkpoint.pending.push(
            WsPendingItem {
                archive_ref: owned(archive_ref.as_str()),
                request_hash: hex_encode(request_hash.as_slice()),
                inbound_seq,
                subscription_identity: hex_encode(identity.as_slice()),
            },
        );
        assert(self.checkpoint.pending@.take(before.len() as int) =~= before);
        self.faults.check(WsFaultPoint::AfterArchive)?;
        Ok(archive_ref)
    }
}

} // verus!
