//! Capturing official info responses: the content-addressed body archive kept in memory,
//! how an HTTP answer is judged, and the decisions that publish, quarantine or skip an
//! archived body and replay the ones still queued.

use vstd::prelude::*;

use crate::config::{ObservationClass, SourceTrust};
use crate::digest::{blake3_digest, blake3_hash, copy_bytes, digest_from_vec, hex_decode, hex_decoded};
use crate::egress::EgressError;
use crate::info_rest::{
    archive_ref_for, archive_ref_of, InfoCaptureError, InfoCaptureOutcome, InfoJobCheckpoint,
    MemoryInfoPublisher,
};
use crate::strmap::{has_key, lookup, StrMap};
use crate::text::owned;

verus! {

/// Archived info bodies by archive reference, and the references already published.
#[derive(Debug)]
pub struct MemoryInfoArchive {
    bodies: StrMap<Vec<u8>>,
    published: StrMap<()>,
}

pub open spec fn body_view(b: Option<Vec<u8>>) -> Option<Seq<u8>> {
    match b {
        Some(v) => Some(v@),
        None => None,
    }
}

impl MemoryInfoArchive {
    /// The body archived under a reference.
    pub closed spec fn body_of(&self, archive_ref: Seq<char>) -> Option<Seq<u8>> {
        body_view(lookup(self.bodies@, archive_ref))
    }

    /// How many bodies are archived.
    pub closed spec fn spec_len(&self) -> nat {
        self.bodies@.len()
    }

    /// Whether a reference was published.
    pub closed spec fn is_published(&self, archive_ref: Seq<char>) -> bool {
        has_key(self.published@, archive_ref)
    }

    pub fn new() -> (r: Self)
        ensures
            forall|k: Seq<char>| #[trigger] r.body_of(k) is None,
            forall|k: Seq<char>| !#[trigger] r.is_published(k),
            r.spec_len() == 0,
    {
        MemoryInfoArchive { bodies: StrMap::new(), published: StrMap::new() }
    }

    /// Archives a non-empty body under `info-` and the hex of its BLAKE3 digest; a body
    /// already archived under that reference stays.
    pub fn put(&mut self, body: &[u8]) -> (r: Result<String, InfoCaptureError>)
        ensures
            body@.len() == 0 ==> r == Err::<String, InfoCaptureError>(InfoCaptureError::EmptyBody)
                && forall|k: Seq<char>| #[trigger] final(self).body_of(k) == old(self).body_of(k),
            body@.len() > 0 ==> (r matches Ok(a) && a@ == archive_ref_of(body@)) && final(self).body_of(
                archive_ref_of(body@),
            ) == match old(self).body_of(archive_ref_of(body@)) {
                Some(b) => Some(b),
                None => Some(body@),
            },
            forall|k: Seq<char>| k != archive_ref_of(body@) ==> #[trigger] final(self).body_of(k)
                == old(self).body_of(k),
            forall|k: Seq<char>| #[trigger] final(self).is_published(k) == old(self).is_published(k),
    {
        if body.len() == 0 {
            return Err(InfoCaptureError::EmptyBody);
        }
        let archive_ref = archive_ref_for(body);
        if self.bodies.get(archive_ref.as_str()).is_none() {
            self.bodies.insert(owned(archive_ref.as_str()), copy_bytes(body));
        }
        Ok(archive_ref)
    }

    /// The body archived under `archive_ref`.
    pub fn get(&self, archive_ref: &str) -> (r: Option<&Vec<u8>>)
        ensures
            match r {
                Some(b) => self.body_of(archive_ref@) == Some(b@),
                None => self.body_of(archive_ref@) is None,
            },
    {
        self.bodies.get(archive_ref)
    }

    pub fn len(&self) -> (r: usize)
        ensures
            r == self.spec_len(),
    {
        self.bodies.len()
    }

    pub fn is_empty(&self) -> (r: bool)
        ensures
            r == (self.spec_len() == 0),
    {
        self.bodies.len() == 0
    }

    /// Records that `archive_ref` was published.
    pub fn mark_published(&mut self, archive_ref: &str)
        ensures
            final(self).is_published(archive_ref@),
            forall|k: Seq<char>| k != archive_ref@ ==> #[trigger] final(self).is_published(k)
                == old(self).is_published(k),
            forall|k: Seq<char>| #[trigger] final(self).body_of(k) == old(self).body_of(k),
    {
        self.published.insert(owned(archive_ref), ());
        proof {
            assert forall|k: Seq<char>| #[trigger] self.is_published(k) == (k == archive_ref@ || old(
                self,
            ).is_published(k)) by {
                assert((lookup(self.published@, k) is Some) == has_key(self.published@, k));
                assert((lookup(old(self).published@, k) is Some) == has_key(old(self).published@, k));
            }
        }
    }

    /// Whether `archive_ref` was published.
    pub fn was_published(&self, archive_ref: &str) -> (r: bool)
        ensures
            r == self.is_published(archive_ref@),
    {
        self.bodies.len();
        let r = self.published.get(archive_ref).is_some();
        assert((lookup(self.published@, archive_ref@) is Some) == has_key(self.published@, archive_ref@));
        r
    }
}

/// A body read back under the reference its archiving gave is that body, unless another
/// body with the same reference was archived first; archiving it again changes nothing.
pub proof fn law_archive_reads_back_first_write(
    before: MemoryInfoArchive,
    after: MemoryInfoArchive,
    again: MemoryInfoArchive,
    body: Seq<u8>,
)
    requires
        body.len() > 0,
        after.body_of(archive_ref_of(body)) == match before.body_of(archive_ref_of(body)) {
            Some(b) => Some(b),
            None => Some(body),
        },
        again.body_of(archive_ref_of(body)) == match after.body_of(archive_ref_of(body)) {
            Some(b) => Some(b),
            None => Some(body),
        },
    ensures
        before.body_of(archive_ref_of(body)) is None ==> after.body_of(archive_ref_of(body)) == Some(body),
        again.body_of(archive_ref_of(body)) == after.body_of(archive_ref_of(body)),
{
}

/// How an info endpoint's HTTP answer is judged: `200` with a body within the limit is
/// taken, a larger body refused, `429` is rate limiting, any other status refused.
pub fn response_verdict(status: u16, body_len: usize, max_body: usize) -> (r: Result<(), EgressError>)
    ensures
        r == if status == 200 {
            if body_len > max_body {
                Err::<(), EgressError>(EgressError::BodyTooLarge)
            } else {
                Ok(())
            }
        } else if status == 429 {
            Err(EgressError::RateLimited)
        } else {
            Err(EgressError::HttpStatus(status))
        },
{
    if status == 200 {
        if body_len > max_body {
            return Err(EgressError::BodyTooLarge);
        }
        Ok(())
    } else if status == 429 {
        Err(EgressError::RateLimited)
    } else {
        Err(EgressError::HttpStatus(status))
    }
}

/// Official info responses are reconciled snapshots that never move the committed
/// watermark; any other admission would put them on the committed lane.
pub fn reject_committed(trust: SourceTrust, class: ObservationClass, can_advance_committed_watermark: bool) -> (r: Result<
    (),
    InfoCaptureError,
>)
    ensures
        r is Ok <==> (trust == SourceTrust::ReconciledSnapshot && class == ObservationClass::Snapshot
            && !can_advance_committed_watermark),
        r is Err ==> r == Err::<(), InfoCaptureError>(InfoCaptureError::CommittedLane),
{
    let snapshot_trust = match trust {
        SourceTrust::ReconciledSnapshot => true,
        _ => false,
    };
    let snapshot_class = match class {
        ObservationClass::Snapshot => true,
        _ => false,
    };
    if !snapshot_trust || !snapshot_class || can_advance_committed_watermark {
        return Err(InfoCaptureError::CommittedLane);
    }
    Ok(())
}

/// The request hash a replayed body is checked against: the one the checkpoint recorded,
/// when it reads as 32 bytes of hex, else the hash of the body itself.
pub fn replay_request_hash(stored: Option<&str>, body: &[u8]) -> (r: [u8; 32])
    ensures
        r@ == match stored {
            Some(s) => match hex_decoded(s@) {
                Some(b) => if b.len() == 32 {
                    b
                } else {
                    blake3_digest(body@)
                },
                None => blake3_digest(body@),
            },
            None => blake3_digest(body@),
        },
{
    match stored {
        Some(s) => match hex_decode(s) {
            Some(b) => {
                if b.len() == 32 {
                    digest_from_vec(&b)
                } else {
                    blake3_hash(body)
                }
            },
            None => blake3_hash(body),
        },
        None => blake3_hash(body),
    }
}

/// What the info endpoint made of an archived body.
#[derive(Debug, Clone, PartialEq, Eq)]
pub enum ParsedInfo {
    /// Parsed; the request hash the response is bound to.
    Parsed { request_hash: [u8; 32] },
    /// Refused in a way that quarantines the body, with the endpoint's reason code.
    Quarantine { reason_code: String },
    /// Refused otherwise.
    Failed { error: InfoCaptureError },
}

/// What to do with an archived body before its parse, given whether it was published
/// before: take a published one off the queue.
pub open spec fn settle_outcome(was_published: bool, parsed: ParsedInfo, request_hash: Seq<u8>) -> Result<
    InfoCaptureOutcome,
    InfoCaptureError,
> {
    if was_published {
        Ok(InfoCaptureOutcome::Duplicate)
    } else {
        match parsed {
            ParsedInfo::Failed { error } => Err(error),
            ParsedInfo::Quarantine { .. } => Ok(InfoCaptureOutcome::Quarantined),
            ParsedInfo::Parsed { request_hash: h } => if h@ != request_hash {
                Err(InfoCaptureError::Checkpoint)
            } else {
                Ok(InfoCaptureOutcome::Published)
            },
        }
    }
}

/// Settles an archived body: a body published before is taken off the queue as a
/// duplicate; one the endpoint quarantines is taken off with the reason recorded; one
/// bound to another request is refused; otherwise it is published, marked published and
/// taken off the queue.
pub fn settle_archived(
    archive: &mut MemoryInfoArchive,
    publisher: &mut MemoryInfoPublisher,
    checkpoint: &mut InfoJobCheckpoint,
    archive_ref: &str,
    parsed: ParsedInfo,
    request_hash: &[u8; 32],
) -> (r: Result<InfoCaptureOutcome, InfoCaptureError>)
    ensures
        r == settle_outcome(old(archive).is_published(archive_ref@), parsed, request_hash@),
        r == Ok::<InfoCaptureOutcome, InfoCaptureError>(InfoCaptureOutcome::Duplicate) ==> final(checkpoint)@
            == (crate::info_rest::CheckpointModel {
            pending_publish_refs: crate::info_rest::without(old(checkpoint)@.pending_publish_refs, archive_ref@),
            ..old(checkpoint)@
        }),
        r == Ok::<InfoCaptureOutcome, InfoCaptureError>(InfoCaptureOutcome::Quarantined) ==> (parsed matches ParsedInfo::Quarantine { reason_code }
            && final(checkpoint)@ == (crate::info_rest::CheckpointModel {
            quarantine_reason: Some(reason_code@),
            pending_publish_refs: crate::info_rest::without(old(checkpoint)@.pending_publish_refs, archive_ref@),
            ..old(checkpoint)@
        })),
        r == Ok::<InfoCaptureOutcome, InfoCaptureError>(InfoCaptureOutcome::Published) ==> {
            &&& final(checkpoint)@ == (crate::info_rest::CheckpointModel {
                pending_publish_refs: crate::info_rest::without(old(checkpoint)@.pending_publish_refs, archive_ref@),
                ..old(checkpoint)@
            })
            &&& final(publisher)@ == old(publisher)@.push(archive_ref@)
            &&& final(archive).is_published(archive_ref@)
        },
        r is Err ==> final(checkpoint)@ == old(checkpoint)@ && final(publisher)@ == old(publisher)@,
        r != Ok::<InfoCaptureOutcome, InfoCaptureError>(InfoCaptureOutcome::Published) ==> final(publisher)@
            == old(publisher)@,
        forall|k: Seq<char>| #[trigger] final(archive).body_of(k) == old(archive).body_of(k),
{
    if archive.was_published(archive_ref) {
        checkpoint.drop_pending(archive_ref);
        return Ok(InfoCaptureOutcome::Duplicate);
    }
    match parsed {
        ParsedInfo::Failed { error } => Err(error),
        ParsedInfo::Quarantine { reason_code } => {
            checkpoint.record_quarantine(archive_ref, reason_code.as_str());
            Ok(InfoCaptureOutcome::Quarantined)
        },
        ParsedInfo::Parsed { request_hash: h } => {
            if !crate::digest::same_hash(&h, request_hash) {
                proof {
                    if h@ == request_hash@ {
                        assert(h =~= *request_hash);
                    }
                }
                return Err(InfoCaptureError::Checkpoint);
            }
            publisher.publish(archive_ref)?;
            archive.mark_published(archive_ref);
            checkpoint.drop_pending(archive_ref);
            Ok(InfoCaptureOutcome::Published)
        },
    }
}

/// Replays the bodies a checkpoint had queued when the replay started, in order,
/// skipping those no longer queued; published when any of them was published.
#[derive(Debug)]
pub struct ReplayRun {
    refs: Vec<String>,
    next: usize,
    published_any: bool,
}

impl ReplayRun {
    #[verifier::type_invariant]
    closed spec fn inv(self) -> bool {
        self.next <= self.refs@.len()
    }

    pub closed spec fn spec_refs(&self) -> Seq<Seq<char>> {
        self.refs@.map_values(|s: String| s@)
    }

    pub closed spec fn spec_next(&self) -> nat {
        self.next as nat
    }

    pub closed spec fn spec_published_any(&self) -> bool {
        self.published_any
    }

    /// Starts from the checkpoint's queue.
    pub fn start(checkpoint: &InfoJobCheckpoint) -> (r: Self)
        ensures
            r.spec_refs() == checkpoint@.pending_publish_refs,
            r.spec_next() == 0,
            !r.spec_published_any(),
    {
        let mut refs: Vec<String> = Vec::new();
        let mut i: usize = 0;
        while i < checkpoint.pending_publish_refs.len()
            invariant
                i <= checkpoint.pending_publish_refs@.len(),
                refs@.map_values(|s: String| s@) == checkpoint@.pending_publish_refs.take(i as int),
            decreases checkpoint.pending_publish_refs@.len() - i,
        {
            let x = owned(checkpoint.pending_publish_refs[i].as_str());
            let ghost before = refs@;
            let ghost xv = x;
            refs.push(x);
            proof {
                crate::text::lemma_map_values_push(before, xv, |s: String| s@);
                assert(checkpoint@.pending_publish_refs.take(i + 1) =~= checkpoint@.pending_publish_refs.take(
                    i as int,
                ).push(xv@));
            }
            i = i + 1;
        }
        assert(checkpoint@.pending_publish_refs.take(checkpoint@.pending_publish_refs.len() as int)
            =~= checkpoint@.pending_publish_refs);
        ReplayRun { refs, next: 0, published_any: false }
    }

    /// The next reference still queued in the checkpoint, or none when the run is done.
    pub fn next_ref(&mut self, checkpoint: &InfoJobCheckpoint) -> (r: Option<String>)
        ensures
            final(self).spec_refs() == old(self).spec_refs(),
            final(self).spec_published_any() == old(self).spec_published_any(),
            final(self).spec_next() >= old(self).spec_next(),
            forall|i: int| old(self).spec_next() <= i < final(self).spec_next() - (if r is Some { 1int } else { 0 })
                ==> !checkpoint@.pending_publish_refs.contains(#[trigger] old(self).spec_refs()[i]),
            match r {
                Some(x) => final(self).spec_next() > 0 && x@ == old(self).spec_refs()[final(self).spec_next() - 1]
                    && checkpoint@.pending_publish_refs.contains(x@),
                None => final(self).spec_next() == old(self).spec_refs().len(),
            },
    {
        proof {
            use_type_invariant(&*self);
        }
        let n = self.refs.len();
        let mut i = self.next;
        while i < n
            invariant
                old(self).next <= i <= n,
                n == self.refs@.len(),
                self.refs@ == old(self).refs@,
                self.published_any == old(self).published_any,
                self.next == old(self).next,
                forall|j: int| old(self).next <= j < i ==> !checkpoint@.pending_publish_refs.contains(
                    #[trigger] old(self).spec_refs()[j],
                ),
            decreases n - i,
        {
            let candidate = self.refs[i].as_str();
            let mut queued = false;
            let mut k: usize = 0;
            while k < checkpoint.pending_publish_refs.len()
                invariant
                    k <= checkpoint.pending_publish_refs@.len(),
                    queued == checkpoint@.pending_publish_refs.take(k as int).contains(candidate@),
                decreases checkpoint.pending_publish_refs@.len() - k,
            {
                let same = crate::text::same_text(checkpoint.pending_publish_refs[k].as_str(), candidate);
                proof {
                    let t = checkpoint@.pending_publish_refs.take(k + 1);
                    assert(t =~= checkpoint@.pending_publish_refs.take(k as int).push(
                        checkpoint@.pending_publish_refs[k as int],
                    ));
                    if same {
                        assert(t[k as int] == candidate@);
                    }
                    if queued {
                        let w = choose|w: int| 0 <= w < k && checkpoint@.pending_publish_refs.take(k as int)[w]
                            == candidate@;
                        assert(t[w] == candidate@);
                    }
                    if t.contains(candidate@) && !same {
                        let w = choose|w: int| 0 <= w < k + 1 && t[w] == candidate@;
                        assert(checkpoint@.pending_publish_refs.take(k as int)[w] == candidate@);
                    }
                }
                queued = queued || same;
                k = k + 1;
            }
            assert(checkpoint@.pending_publish_refs.take(checkpoint@.pending_publish_refs.len() as int)
                =~= checkpoint@.pending_publish_refs);
            assert(old(self).spec_refs()[i as int] == candidate@);
            if queued {
                let out = owned(candidate);
                self.next = i + 1;
                return Some(out);
            }
            i = i + 1;
        }
        self.next = n;
        None
    }

    /// One body was settled.
    pub fn record(&mut self, outcome: InfoCaptureOutcome)
        ensures
            final(self).spec_published_any() == (old(self).spec_published_any() || outcome
                == InfoCaptureOutcome::Published),
            final(self).spec_refs() == old(self).spec_refs(),
            final(self).spec_next() == old(self).spec_next(),
    {
        proof {
            use_type_invariant(&*self);
        }
        match outcome {
            InfoCaptureOutcome::Published => {
                self.published_any = true;
            },
            _ => {},
        }
    }

    /// Published when any replayed body was published, a duplicate otherwise (an empty
    /// queue included).
    pub fn finish(self) -> (r: InfoCaptureOutcome)
        ensures
            r == if self.spec_published_any() {
                InfoCaptureOutcome::Published
            } else {
                InfoCaptureOutcome::Duplicate
            },
    {
        if self.published_any {
            InfoCaptureOutcome::Published
        } else {
            InfoCaptureOutcome::Duplicate
        }
    }
}

} // verus!
