//! Capture progress kept in memory: per chain, the first height, the archived block
//! plans with their publication acknowledgements, and the committed cursor, which only
//! moves to the next height once every planned publication of that block is acknowledged.

use vstd::prelude::*;

use crate::publication_plan::{PlannedPublication, PublicationAck};
use crate::strmap::{has_key, lookup, StrMap};
use crate::text::{owned, same_text};

verus! {

/// Why the progress store refused an operation.
#[derive(Debug, Clone, Copy, PartialEq, Eq, Structural)]
pub enum CaptureProgressError {
    InvalidInput,
    ChainNotInitialized,
    ConflictingInitialization,
    BelowFirstHeight,
    ConflictingBlock,
    CapacityExceeded { limit: usize },
    UnknownBlock,
    AcknowledgementMismatch,
    ConflictingAcknowledgement,
    CursorOverflow,
    NonContiguousAdvance { expected: u64, actual: u64 },
    PublicationIncomplete,
    InvalidLimit,
}

/// What recording a fact did.
#[derive(Debug, Clone, Copy, PartialEq, Eq, Structural)]
pub enum RecordDisposition {
    New,
    IdenticalDuplicate,
}

pub struct PublicationModel {
    pub ordinal: u32,
    pub message_id: Seq<char>,
    pub subject: Seq<char>,
    pub publication_sha256: Seq<u8>,
}

pub open spec fn publication_model(p: PlannedPublication) -> PublicationModel {
    PublicationModel {
        ordinal: p.ordinal,
        message_id: p.message_id@,
        subject: p.subject@,
        publication_sha256: p.publication_sha256@,
    }
}

/// An archived block and the publications planned for it.
#[derive(Debug)]
pub struct ArchivedBlockPlan {
    pub chain_id: String,
    pub block_height: u64,
    pub canonical_block_hash: [u8; 32],
    pub archive_receipt_id: String,
    pub archive_manifest_sha256: [u8; 32],
    pub publications: Vec<PlannedPublication>,
}

pub struct PlanModel {
    pub chain_id: Seq<char>,
    pub block_height: u64,
    pub canonical_block_hash: Seq<u8>,
    pub archive_receipt_id: Seq<char>,
    pub archive_manifest_sha256: Seq<u8>,
    pub publications: Seq<PublicationModel>,
}

impl View for ArchivedBlockPlan {
    type V = PlanModel;

    open spec fn view(&self) -> PlanModel {
        PlanModel {
            chain_id: self.chain_id@,
            block_height: self.block_height,
            canonical_block_hash: self.canonical_block_hash@,
            archive_receipt_id: self.archive_receipt_id@,
            archive_manifest_sha256: self.archive_manifest_sha256@,
            publications: self.publications@.map_values(|p: PlannedPublication| publication_model(p)),
        }
    }
}

pub struct AckModel {
    pub ordinal: u32,
    pub message_id: Seq<char>,
    pub subject: Seq<char>,
    pub publication_sha256: Seq<u8>,
    pub stream: Seq<char>,
    pub stream_sequence: u64,
    pub acknowledged_at: i64,
}

/// A durable acknowledgement, with where and when the bus acknowledged it.
#[derive(Debug)]
pub struct PublicationAcknowledgement {
    pub ack: PublicationAck,
    pub stream_sequence: u64,
    pub acknowledged_at: i64,
}

impl View for PublicationAcknowledgement {
    type V = AckModel;

    open spec fn view(&self) -> AckModel {
        AckModel {
            ordinal: self.ack.ordinal,
            message_id: self.ack.message_id@,
            subject: self.ack.subject@,
            publication_sha256: self.ack.publication_sha256@,
            stream: self.ack.stream@,
            stream_sequence: self.stream_sequence,
            acknowledged_at: self.acknowledged_at,
        }
    }
}

/// The committed position of a chain: the last block whose publications were all
/// acknowledged.
#[derive(Debug)]
pub struct CaptureCursor {
    pub chain_id: String,
    pub committed_block_height: u64,
    pub canonical_block_hash: [u8; 32],
    pub archive_receipt_id: String,
    pub archive_manifest_sha256: [u8; 32],
    pub cursor_version: u64,
    pub updated_at: i64,
}

pub struct CursorModel {
    pub chain_id: Seq<char>,
    pub committed_block_height: u64,
    pub canonical_block_hash: Seq<u8>,
    pub archive_receipt_id: Seq<char>,
    pub archive_manifest_sha256: Seq<u8>,
    pub cursor_version: u64,
    pub updated_at: i64,
}

impl View for CaptureCursor {
    type V = CursorModel;

    open spec fn view(&self) -> CursorModel {
        CursorModel {
            chain_id: self.chain_id@,
            committed_block_height: self.committed_block_height,
            canonical_block_hash: self.canonical_block_hash@,
            archive_receipt_id: self.archive_receipt_id@,
            archive_manifest_sha256: self.archive_manifest_sha256@,
            cursor_version: self.cursor_version,
            updated_at: self.updated_at,
        }
    }
}

/// One archived block and its acknowledgements by ordinal.
#[derive(Debug)]
pub struct BlockState {
    pub plan: ArchivedBlockPlan,
    pub acknowledgements: Vec<Option<PublicationAcknowledgement>>,
}

/// One chain's progress: blocks kept in strictly increasing height order.
#[derive(Debug)]
pub struct ChainState {
    pub first_block_height: u64,
    pub cursor: Option<CaptureCursor>,
    pub blocks: Vec<BlockState>,
}

pub open spec fn ack_view(a: Option<PublicationAcknowledgement>) -> Option<AckModel> {
    match a {
        Some(a) => Some(a@),
        None => None,
    }
}

/// The acknowledgements recorded for a block, by ordinal.
pub open spec fn acks_of(b: BlockState) -> Seq<Option<AckModel>> {
    b.acknowledgements@.map_values(|a: Option<PublicationAcknowledgement>| ack_view(a))
}

/// A block state is well formed: one acknowledgement slot per planned publication, each
/// filled one matching its publication.
pub open spec fn block_ok(b: BlockState) -> bool {
    &&& b.acknowledgements@.len() == b.plan.publications@.len()
    &&& forall|o: int| 0 <= o < b.acknowledgements@.len() ==> match #[trigger] b.acknowledgements@[o] {
        Some(a) => a.ack.ordinal == o && publication_acked(a@, publication_model(b.plan.publications@[o])),
        None => true,
    }
}

/// An acknowledgement matches the publication it acknowledges.
pub open spec fn publication_acked(a: AckModel, p: PublicationModel) -> bool {
    &&& a.ordinal == p.ordinal
    &&& a.message_id == p.message_id
    &&& a.subject == p.subject
    &&& a.publication_sha256 == p.publication_sha256
}

/// A chain's blocks are in strictly increasing height order and well formed.
pub open spec fn chain_ok(c: ChainState) -> bool {
    &&& forall|i: int, j: int| 0 <= i < j < c.blocks@.len() ==> (#[trigger] c.blocks@[i]).plan.block_height
        < (#[trigger] c.blocks@[j]).plan.block_height
    &&& forall|i: int| 0 <= i < c.blocks@.len() ==> block_ok(#[trigger] c.blocks@[i])
}

/// Every publication of a block is acknowledged.
pub open spec fn fully_acknowledged(b: BlockState) -> bool {
    forall|o: int| 0 <= o < acks_of(b).len() ==> (#[trigger] acks_of(b)[o]) is Some
}

/// Every height from a chain's first one up to its committed cursor has an archived block
/// whose publications are all acknowledged.
pub open spec fn committed_complete(c: ChainState) -> bool {
    match c.cursor {
        Some(cur) => c.first_block_height <= cur.committed_block_height && forall|h: u64|
            c.first_block_height <= h <= cur.committed_block_height ==> (#[trigger] block_at(c, h) matches Some(
                b,
            ) && fully_acknowledged(b)),
        None => true,
    }
}

/// The height a chain expects to commit next.
pub open spec fn next_expected(c: ChainState) -> Option<u64> {
    match c.cursor {
        Some(cur) => if cur.committed_block_height < u64::MAX {
            Some((cur.committed_block_height + 1) as u64)
        } else {
            None
        },
        None => Some(c.first_block_height),
    }
}

fn same_publication(a: &PlannedPublication, b: &PlannedPublication) -> (r: bool)
    ensures
        r == (publication_model(*a) == publication_model(*b)),
{
    let h = crate::digest::same_hash(&a.publication_sha256, &b.publication_sha256);
    proof {
        if a.publication_sha256@ == b.publication_sha256@ {
            assert(a.publication_sha256 =~= b.publication_sha256);
        }
    }
    a.ordinal == b.ordinal && same_text(a.message_id.as_str(), b.message_id.as_str()) && same_text(
        a.subject.as_str(),
        b.subject.as_str(),
    ) && h
}

/// Whether two plans hold the same values.
pub fn same_plan(a: &ArchivedBlockPlan, b: &ArchivedBlockPlan) -> (r: bool)
    ensures
        r == (a@ == b@),
{
    let h1 = crate::digest::same_hash(&a.canonical_block_hash, &b.canonical_block_hash);
    let h2 = crate::digest::same_hash(&a.archive_manifest_sha256, &b.archive_manifest_sha256);
    proof {
        if a.canonical_block_hash@ == b.canonical_block_hash@ {
            assert(a.canonical_block_hash =~= b.canonical_block_hash);
        }
        if a.archive_manifest_sha256@ == b.archive_manifest_sha256@ {
            assert(a.archive_manifest_sha256 =~= b.archive_manifest_sha256);
        }
    }
    if !same_text(a.chain_id.as_str(), b.chain_id.as_str()) || a.block_height != b.block_height || !h1
        || !same_text(a.archive_receipt_id.as_str(), b.archive_receipt_id.as_str()) || !h2 {
        return false;
    }
    if a.publications.len() != b.publications.len() {
        assert(a@.publications.len() != b@.publications.len());
        return false;
    }
    let mut i: usize = 0;
    while i < a.publications.len()
        invariant
            i <= a.publications@.len(),
            a.publications@.len() == b.publications@.len(),
            forall|k: int| 0 <= k < i ==> publication_model(#[trigger] a.publications@[k]) == publication_model(
                b.publications@[k],
            ),
        decreases a.publications@.len() - i,
    {
        if !same_publication(&a.publications[i], &b.publications[i]) {
            assert(a@.publications[i as int] != b@.publications[i as int]);
            return false;
        }
        i = i + 1;
    }
    assert(a@.publications =~= b@.publications);
    true
}

/// Position of the block at `height` in a chain's blocks, if any.
pub fn find_block(blocks: &Vec<BlockState>, height: u64) -> (r: Option<usize>)
    ensures
        match r {
            Some(i) => i < blocks@.len() && blocks@[i as int].plan.block_height == height,
            None => forall|i: int| 0 <= i < blocks@.len() ==> (#[trigger] blocks@[i]).plan.block_height != height,
        },
{
    let mut i: usize = 0;
    while i < blocks.len()
        invariant
            i <= blocks@.len(),
            forall|k: int| 0 <= k < i ==> (#[trigger] blocks@[k]).plan.block_height != height,
        decreases blocks@.len() - i,
    {
        if blocks[i].plan.block_height == height {
            return Some(i);
        }
        i = i + 1;
    }
    None
}

/// The block of a chain at `height`.
pub open spec fn block_at(c: ChainState, height: u64) -> Option<BlockState> {
    if exists|i: int| 0 <= i < c.blocks@.len() && (#[trigger] c.blocks@[i]).plan.block_height == height {
        Some(c.blocks@[choose|i: int| 0 <= i < c.blocks@.len() && (#[trigger] c.blocks@[i]).plan.block_height == height])
    } else {
        None
    }
}

proof fn lemma_block_at(c: ChainState, i: int)
    requires
        chain_ok(c),
        0 <= i < c.blocks@.len(),
    ensures
        block_at(c, c.blocks@[i].plan.block_height) == Some(c.blocks@[i]),
{
    let h = c.blocks@[i].plan.block_height;
    let j = choose|j: int| 0 <= j < c.blocks@.len() && (#[trigger] c.blocks@[j]).plan.block_height == h;
    if j != i {
        if j < i {
            assert(c.blocks@[j].plan.block_height < c.blocks@[i].plan.block_height);
        } else {
            assert(c.blocks@[i].plan.block_height < c.blocks@[j].plan.block_height);
        }
    }
}

impl ChainState {
    pub fn new(first_block_height: u64) -> (r: Self)
        ensures
            r.first_block_height == first_block_height,
            r.cursor is None,
            r.blocks@.len() == 0,
            chain_ok(r),
    {
        ChainState { first_block_height, cursor: None, blocks: Vec::new() }
    }

    /// Records an archived block plan: the same plan again is a duplicate; another plan at
    /// a recorded height conflicts; a plan below the first height, or one more block than
    /// `room` allows, is refused.
    pub fn record_archived(&mut self, plan: ArchivedBlockPlan, room: bool, limit: usize) -> (r: Result<RecordDisposition, CaptureProgressError>)
        requires
            chain_ok(*old(self)),
        ensures
            chain_ok(*final(self)),
            final(self).first_block_height == old(self).first_block_height,
            final(self).cursor == old(self).cursor,
            committed_complete(*old(self)) ==> committed_complete(*final(self)),
            plan.block_height < old(self).first_block_height ==> r == Err::<RecordDisposition, CaptureProgressError>(
                CaptureProgressError::BelowFirstHeight,
            ) && *final(self) == *old(self),
            plan.block_height >= old(self).first_block_height ==> match block_at(*old(self), plan.block_height) {
                Some(b) => *final(self) == *old(self) && if b.plan@ == plan@ {
                    r == Ok::<RecordDisposition, CaptureProgressError>(RecordDisposition::IdenticalDuplicate)
                } else {
                    r == Err::<RecordDisposition, CaptureProgressError>(CaptureProgressError::ConflictingBlock)
                },
                None => if !room {
                    r == Err::<RecordDisposition, CaptureProgressError>(
                        CaptureProgressError::CapacityExceeded { limit },
                    ) && *final(self) == *old(self)
                } else {
                    &&& r == Ok::<RecordDisposition, CaptureProgressError>(RecordDisposition::New)
                    &&& block_at(*final(self), plan.block_height) matches Some(b) && b.plan@ == plan@
                        && acks_of(b) == Seq::new(plan@.publications.len(), |o: int| None::<AckModel>)
                    &&& forall|h: u64| h != plan.block_height ==> #[trigger] block_at(*final(self), h)
                        == block_at(*old(self), h)
                },
            },
    {
        if plan.block_height < self.first_block_height {
            return Err(CaptureProgressError::BelowFirstHeight);
        }
        let n = self.blocks.len();
        let mut pos: usize = 0;
        while pos < n && self.blocks[pos].plan.block_height < plan.block_height
            invariant
                pos <= n,
                n == self.blocks@.len(),
                chain_ok(*self),
                forall|k: int| 0 <= k < pos ==> (#[trigger] self.blocks@[k]).plan.block_height < plan.block_height,
            decreases n - pos,
        {
            pos = pos + 1;
        }
        if pos < n && self.blocks[pos].plan.block_height == plan.block_height {
            proof {
                lemma_block_at(*self, pos as int);
            }
            if same_plan(&self.blocks[pos].plan, &plan) {
                return Ok(RecordDisposition::IdenticalDuplicate);
            }
            return Err(CaptureProgressError::ConflictingBlock);
        }
        proof {
            assert forall|i: int| 0 <= i < self.blocks@.len() implies (#[trigger] self.blocks@[i]).plan.block_height
                != plan.block_height by {
                if i >= pos as int && pos < n {
                    if i > pos as int {
                        assert(self.blocks@[pos as int].plan.block_height < self.blocks@[i].plan.block_height);
                    }
                }
            }
        }
        if !room {
            return Err(CaptureProgressError::CapacityExceeded { limit });
        }
        let count = plan.publications.len();
        let mut acks: Vec<Option<PublicationAcknowledgement>> = Vec::new();
        let mut k: usize = 0;
        while k < count
            invariant
                k <= count,
                acks@.len() == k,
                forall|o: int| 0 <= o < k ==> (#[trigger] acks@[o]) is None,
            decreases count - k,
        {
            acks.push(None);
            k = k + 1;
        }
        let ghost pv = plan@;
        let ghost old_blocks = self.blocks@;
        let block = BlockState { plan, acknowledgements: acks };
        assert(block_ok(block));
        assert(acks_of(block) =~= Seq::new(pv.publications.len(), |o: int| None::<AckModel>));
        let mut blocks: Vec<BlockState> = Vec::new();
        std::mem::swap(&mut blocks, &mut self.blocks);
        blocks.insert(pos, block);
        self.blocks = blocks;
        proof {
            let nb = self.blocks@;
            assert(nb.len() == old_blocks.len() + 1);
            assert forall|i: int| 0 <= i < nb.len() implies nb[i] == if i < pos {
                old_blocks[i]
            } else if i == pos {
                block
            } else {
                old_blocks[i - 1]
            } by {}
            assert forall|i: int, j: int| 0 <= i < j < nb.len() implies (#[trigger] nb[i]).plan.block_height
                < (#[trigger] nb[j]).plan.block_height by {
                if i < pos && j > pos as int {
                    assert(old_blocks[i].plan.block_height < pv.block_height);
                    if j - 1 >= pos as int && (pos as int) < old_blocks.len() {
                        if j - 1 > pos as int {
                            assert(old_blocks[pos as int].plan.block_height < old_blocks[j - 1].plan.block_height);
                        }
                        assert(old_blocks[pos as int].plan.block_height >= pv.block_height);
                    }
                } else if i == pos && j > pos as int {
                    if j - 1 > pos as int {
                        assert(old_blocks[pos as int].plan.block_height < old_blocks[j - 1].plan.block_height);
                    }
                    assert(old_blocks[pos as int].plan.block_height >= pv.block_height);
                } else if i < pos && j == pos {
                } else if i > pos as int {
                    assert(old_blocks[i - 1].plan.block_height < old_blocks[j - 1].plan.block_height);
                } else {
                    assert(old_blocks[i].plan.block_height < old_blocks[j].plan.block_height);
                }
            }
            assert(chain_ok(*self));
            lemma_block_at(*self, pos as int);
            assert forall|h: u64| h != pv.block_height implies #[trigger] block_at(*self, h) == block_at(
                ChainState { first_block_height: self.first_block_height, cursor: self.cursor, blocks: old(self).blocks },
                h,
            ) by {
                let oc = *old(self);
                if exists|i: int| 0 <= i < oc.blocks@.len() && (#[trigger] oc.blocks@[i]).plan.block_height == h {
                    let i = choose|i: int| 0 <= i < oc.blocks@.len() && (#[trigger] oc.blocks@[i]).plan.block_height == h;
                    lemma_block_at(oc, i);
                    let ni = if i < pos { i } else { i + 1 };
                    assert(nb[ni] == oc.blocks@[i]);
                    lemma_block_at(*self, ni);
                } else {
                    if exists|i: int| 0 <= i < nb.len() && (#[trigger] nb[i]).plan.block_height == h {
                        let i = choose|i: int| 0 <= i < nb.len() && (#[trigger] nb[i]).plan.block_height == h;
                        if i < pos {
                            assert(oc.blocks@[i].plan.block_height == h);
                        } else if i > pos as int {
                            assert(oc.blocks@[i - 1].plan.block_height == h);
                        }
                    }
                }
            }
        }
        Ok(RecordDisposition::New)
    }
}

/// The latest acknowledgement time among a block's acknowledgements.
pub open spec fn latest_ack(acks: Seq<Option<AckModel>>) -> Option<i64>
    decreases acks.len(),
{
    if acks.len() == 0 {
        None
    } else {
        let rest = latest_ack(acks.drop_last());
        match acks.last() {
            Some(a) => match rest {
                Some(t) => if t > a.acknowledged_at {
                    Some(t)
                } else {
                    Some(a.acknowledged_at)
                },
                None => Some(a.acknowledged_at),
            },
            None => rest,
        }
    }
}

impl ChainState {
    /// Records a publication acknowledgement of the block at `height`: it must match the
    /// planned publication at its ordinal; the same one again is a duplicate, another one
    /// for a filled ordinal conflicts.
    pub fn record_acknowledgement(&mut self, height: u64, ack: PublicationAcknowledgement) -> (r: Result<
        RecordDisposition,
        CaptureProgressError,
    >)
        requires
            chain_ok(*old(self)),
        ensures
            chain_ok(*final(self)),
            final(self).first_block_height == old(self).first_block_height,
            final(self).cursor == old(self).cursor,
            committed_complete(*old(self)) ==> committed_complete(*final(self)),
            forall|h: u64| h != height ==> #[trigger] block_at(*final(self), h) == block_at(*old(self), h),
            match block_at(*old(self), height) {
                None => r == Err::<RecordDisposition, CaptureProgressError>(CaptureProgressError::UnknownBlock)
                    && *final(self) == *old(self),
                Some(b) => if ack@.ordinal >= b.plan@.publications.len() || !publication_acked(
                    ack@,
                    b.plan@.publications[ack@.ordinal as int],
                ) {
                    r == Err::<RecordDisposition, CaptureProgressError>(
                        CaptureProgressError::AcknowledgementMismatch,
                    ) && *final(self) == *old(self)
                } else {
                    match acks_of(b)[ack@.ordinal as int] {
                        None => r == Ok::<RecordDisposition, CaptureProgressError>(RecordDisposition::New)
                            && (block_at(*final(self), height) matches Some(nb) && nb.plan == b.plan
                            && acks_of(nb) == acks_of(b).update(ack@.ordinal as int, Some(ack@))),
                        Some(e) => *final(self) == *old(self) && if e == ack@ {
                            r == Ok::<RecordDisposition, CaptureProgressError>(RecordDisposition::IdenticalDuplicate)
                        } else {
                            r == Err::<RecordDisposition, CaptureProgressError>(
                                CaptureProgressError::ConflictingAcknowledgement,
                            )
                        },
                    }
                },
            },
    {
        let i = match find_block(&self.blocks, height) {
            Some(i) => i,
            None => {
                assert(block_at(*self, height) is None);
                return Err(CaptureProgressError::UnknownBlock);
            },
        };
        proof {
            lemma_block_at(*self, i as int);
        }
        let ordinal = ack.ack.ordinal as usize;
        if ordinal >= self.blocks[i].plan.publications.len() {
            return Err(CaptureProgressError::AcknowledgementMismatch);
        }
        let p = &self.blocks[i].plan.publications[ordinal];
        let h = crate::digest::same_hash(&p.publication_sha256, &ack.ack.publication_sha256);
        proof {
            if p.publication_sha256@ == ack.ack.publication_sha256@ {
                assert(p.publication_sha256 =~= ack.ack.publication_sha256);
            }
        }
        if p.ordinal != ack.ack.ordinal || !same_text(p.message_id.as_str(), ack.ack.message_id.as_str())
            || !same_text(p.subject.as_str(), ack.ack.subject.as_str()) || !h {
            return Err(CaptureProgressError::AcknowledgementMismatch);
        }
        assert(self.blocks@[i as int].acknowledgements@.len() == self.blocks@[i as int].plan.publications@.len());
        match &self.blocks[i].acknowledgements[ordinal] {
            Some(e) => {
                let h2 = crate::digest::same_hash(&e.ack.publication_sha256, &ack.ack.publication_sha256);
                proof {
                    if e.ack.publication_sha256@ == ack.ack.publication_sha256@ {
                        assert(e.ack.publication_sha256 =~= ack.ack.publication_sha256);
                    }
                }
                if e.ack.ordinal == ack.ack.ordinal && same_text(e.ack.message_id.as_str(), ack.ack.message_id.as_str())
                    && same_text(e.ack.subject.as_str(), ack.ack.subject.as_str()) && h2 && same_text(
                    e.ack.stream.as_str(),
                    ack.ack.stream.as_str(),
                ) && e.stream_sequence == ack.stream_sequence && e.acknowledged_at == ack.acknowledged_at {
                    return Ok(RecordDisposition::IdenticalDuplicate);
                }
                return Err(CaptureProgressError::ConflictingAcknowledgement);
            },
            None => {},
        }
        let ghost old_blocks = self.blocks@;
        let ghost av = ack@;
        let mut blocks: Vec<BlockState> = Vec::new();
        std::mem::swap(&mut blocks, &mut self.blocks);
        let mut block = blocks.remove(i);
        let ghost ob = block;
        block.acknowledgements.set(ordinal, Some(ack));
        let ghost nb_block = block;
        blocks.insert(i, block);
        self.blocks = blocks;
        proof {
            let nb = self.blocks@;
            assert(nb.len() == old_blocks.len());
            assert forall|k: int| 0 <= k < nb.len() && k != i implies nb[k] == old_blocks[k] by {}
            assert(nb[i as int] == nb_block);
            assert(nb_block.plan == ob.plan);
            assert(acks_of(nb_block) =~= acks_of(ob).update(av.ordinal as int, Some(av)));
            assert(block_ok(nb_block));
            assert forall|a: int, b: int| 0 <= a < b < nb.len() implies (#[trigger] nb[a]).plan.block_height
                < (#[trigger] nb[b]).plan.block_height by {
                assert(old_blocks[a].plan.block_height < old_blocks[b].plan.block_height);
            }
            assert(chain_ok(*self));
            lemma_block_at(*self, i as int);
            assert forall|hh: u64| hh != height implies #[trigger] block_at(*self, hh) == block_at(*old(self), hh) by {
                let oc = *old(self);
                if exists|k: int| 0 <= k < oc.blocks@.len() && (#[trigger] oc.blocks@[k]).plan.block_height == hh {
                    let k = choose|k: int| 0 <= k < oc.blocks@.len() && (#[trigger] oc.blocks@[k]).plan.block_height == hh;
                    lemma_block_at(oc, k);
                    assert(k != i);
                    lemma_block_at(*self, k);
                } else {
                    if exists|k: int| 0 <= k < nb.len() && (#[trigger] nb[k]).plan.block_height == hh {
                        let k = choose|k: int| 0 <= k < nb.len() && (#[trigger] nb[k]).plan.block_height == hh;
                        assert(oc.blocks@[k].plan.block_height == hh);
                    }
                }
            }
        }
        Ok(RecordDisposition::New)
    }
}

/// The committed cursor of a chain, by its values.
pub open spec fn cursor_of(c: ChainState) -> Option<CursorModel> {
    match c.cursor {
        Some(cur) => Some(cur@),
        None => None,
    }
}

/// A copy of a cursor.
pub fn copy_cursor(c: &CaptureCursor) -> (r: CaptureCursor)
    ensures
        r@ == c@,
{
    CaptureCursor {
        chain_id: owned(c.chain_id.as_str()),
        committed_block_height: c.committed_block_height,
        canonical_block_hash: c.canonical_block_hash,
        archive_receipt_id: owned(c.archive_receipt_id.as_str()),
        archive_manifest_sha256: c.archive_manifest_sha256,
        cursor_version: c.cursor_version,
        updated_at: c.updated_at,
    }
}

/// A copy of a planned publication.
pub fn copy_publication(p: &PlannedPublication) -> (r: PlannedPublication)
    ensures
        publication_model(r) == publication_model(*p),
{
    PlannedPublication {
        ordinal: p.ordinal,
        message_id: owned(p.message_id.as_str()),
        subject: owned(p.subject.as_str()),
        publication_sha256: p.publication_sha256,
    }
}

/// A copy of an archived block plan.
pub fn copy_plan(p: &ArchivedBlockPlan) -> (r: ArchivedBlockPlan)
    ensures
        r@ == p@,
{
    let mut pubs: Vec<PlannedPublication> = Vec::new();
    let mut i: usize = 0;
    while i < p.publications.len()
        invariant
            i <= p.publications@.len(),
            pubs@.len() == i,
            forall|k: int| 0 <= k < i ==> publication_model(#[trigger] pubs@[k]) == publication_model(
                p.publications@[k],
            ),
        decreases p.publications@.len() - i,
    {
        pubs.push(copy_publication(&p.publications[i]));
        i = i + 1;
    }
    let r = ArchivedBlockPlan {
        chain_id: owned(p.chain_id.as_str()),
        block_height: p.block_height,
        canonical_block_hash: p.canonical_block_hash,
        archive_receipt_id: owned(p.archive_receipt_id.as_str()),
        archive_manifest_sha256: p.archive_manifest_sha256,
        publications: pubs,
    };
    assert(r@.publications =~= p@.publications);
    r
}

/// A copy of an acknowledgement.
pub fn copy_acknowledgement(a: &PublicationAcknowledgement) -> (r: PublicationAcknowledgement)
    ensures
        r@ == a@,
{
    PublicationAcknowledgement {
        ack: PublicationAck {
            ordinal: a.ack.ordinal,
            message_id: owned(a.ack.message_id.as_str()),
            subject: owned(a.ack.subject.as_str()),
            publication_sha256: a.ack.publication_sha256,
            stream: owned(a.ack.stream.as_str()),
        },
        stream_sequence: a.stream_sequence,
        acknowledged_at: a.acknowledged_at,
    }
}

/// Whether every publication of a block is acknowledged.
pub fn all_acknowledged(b: &BlockState) -> (r: bool)
    ensures
        r == fully_acknowledged(*b),
{
    let mut k: usize = 0;
    while k < b.acknowledgements.len()
        invariant
            k <= b.acknowledgements@.len(),
            acks_of(*b).len() == b.acknowledgements@.len(),
            forall|o: int| 0 <= o < k ==> (#[trigger] acks_of(*b)[o]) is Some,
        decreases b.acknowledgements@.len() - k,
    {
        assert(acks_of(*b)[k as int] == ack_view(b.acknowledgements@[k as int]));
        if b.acknowledgements[k].is_none() {
            return false;
        }
        k = k + 1;
    }
    true
}

/// The latest acknowledgement time among a block's acknowledgements.
fn latest_acknowledgement(b: &BlockState) -> (r: Option<i64>)
    ensures
        r == latest_ack(acks_of(*b)),
{
    let ghost acks = acks_of(*b);
    let mut best: Option<i64> = None;
    let mut i: usize = 0;
    assert(acks.take(0) =~= Seq::<Option<AckModel>>::empty());
    while i < b.acknowledgements.len()
        invariant
            i <= b.acknowledgements@.len(),
            acks == acks_of(*b),
            acks.len() == b.acknowledgements@.len(),
            best == latest_ack(acks.take(i as int)),
        decreases b.acknowledgements@.len() - i,
    {
        assert(acks.take(i + 1).drop_last() =~= acks.take(i as int));
        assert(acks.take(i + 1).last() == acks[i as int]);
        match &b.acknowledgements[i] {
            Some(a) => {
                best = match best {
                    Some(t) => if t > a.acknowledged_at {
                        Some(t)
                    } else {
                        Some(a.acknowledged_at)
                    },
                    None => Some(a.acknowledged_at),
                };
            },
            None => {},
        }
        i = i + 1;
    }
    assert(acks.take(i as int) =~= acks);
    best
}

impl ChainState {
    /// Moves the committed cursor to `height`: the cursor already there is returned as
    /// it stands; otherwise `height` must be the next expected one, its block must be
    /// archived and every one of its publications acknowledged. The new cursor carries
    /// the block's hashes, the next version and the latest acknowledgement time.
    pub fn advance_cursor(&mut self, chain_id: &str, height: u64) -> (r: Result<CaptureCursor, CaptureProgressError>)
        requires
            chain_ok(*old(self)),
        ensures
            chain_ok(*final(self)),
            final(self).first_block_height == old(self).first_block_height,
            final(self).blocks == old(self).blocks,
            committed_complete(*old(self)) ==> committed_complete(*final(self)),
            match r {
                Ok(c) => cursor_of(*final(self)) == Some(c@),
                Err(_) => *final(self) == *old(self),
            },
            match old(self).cursor {
                Some(cur) => cur.committed_block_height == height,
                None => false,
            } ==> (r matches Ok(c) && Some(c@) == cursor_of(*old(self))),
            !(match old(self).cursor {
                Some(cur) => cur.committed_block_height == height,
                None => false,
            }) ==> match next_expected(*old(self)) {
                None => r == Err::<CaptureCursor, CaptureProgressError>(CaptureProgressError::CursorOverflow),
                Some(expected) => if height != expected {
                    r == Err::<CaptureCursor, CaptureProgressError>(
                        CaptureProgressError::NonContiguousAdvance { expected, actual: height },
                    )
                } else {
                    match block_at(*old(self), height) {
                        None => r == Err::<CaptureCursor, CaptureProgressError>(CaptureProgressError::UnknownBlock),
                        Some(b) => if !fully_acknowledged(b) {
                            r == Err::<CaptureCursor, CaptureProgressError>(
                                CaptureProgressError::PublicationIncomplete,
                            )
                        } else if old(self).cursor matches Some(cur) && cur.cursor_version == u64::MAX {
                            r == Err::<CaptureCursor, CaptureProgressError>(CaptureProgressError::CursorOverflow)
                        } else if b.plan@.publications.len() == 0 {
                            r == Err::<CaptureCursor, CaptureProgressError>(
                                CaptureProgressError::PublicationIncomplete,
                            )
                        } else {
                            r matches Ok(c) && c@ == (CursorModel {
                                chain_id: chain_id@,
                                committed_block_height: height,
                                canonical_block_hash: b.plan@.canonical_block_hash,
                                archive_receipt_id: b.plan@.archive_receipt_id,
                                archive_manifest_sha256: b.plan@.archive_manifest_sha256,
                                cursor_version: match old(self).cursor {
                                    Some(cur) => (cur.cursor_version + 1) as u64,
                                    None => 1,
                                },
                                updated_at: latest_ack(acks_of(b)).unwrap(),
                            })
                        }
                    }
                }
            },
    {
        match &self.cursor {
            Some(cur) => {
                if cur.committed_block_height == height {
                    return Ok(copy_cursor(cur));
                }
            },
            None => {},
        }
        let expected = match &self.cursor {
            Some(cur) => {
                if cur.committed_block_height == u64::MAX {
                    return Err(CaptureProgressError::CursorOverflow);
                }
                cur.committed_block_height + 1
            },
            None => self.first_block_height,
        };
        if height != expected {
            return Err(CaptureProgressError::NonContiguousAdvance { expected, actual: height });
        }
        let i = match find_block(&self.blocks, height) {
            Some(i) => i,
            None => {
                assert(block_at(*self, height) is None);
                return Err(CaptureProgressError::UnknownBlock);
            },
        };
        proof {
            lemma_block_at(*self, i as int);
        }
        let block = &self.blocks[i];
        if !all_acknowledged(block) {
            return Err(CaptureProgressError::PublicationIncomplete);
        }
        let version = match &self.cursor {
            Some(cur) => {
                if cur.cursor_version == u64::MAX {
                    return Err(CaptureProgressError::CursorOverflow);
                }
                cur.cursor_version + 1
            },
            None => 1,
        };
        let updated_at = match latest_acknowledgement(block) {
            Some(t) => t,
            None => {
                assert(block.plan@.publications.len() == 0) by {
                    if block.acknowledgements@.len() > 0 {
                        lemma_latest_present(acks_of(*block));
                    }
                }
                return Err(CaptureProgressError::PublicationIncomplete);
            },
        };
        proof {
            if block.plan@.publications.len() != 0 {
                lemma_latest_present(acks_of(*block));
            }
        }
        let cursor = CaptureCursor {
            chain_id: owned(chain_id),
            committed_block_height: height,
            canonical_block_hash: block.plan.canonical_block_hash,
            archive_receipt_id: owned(block.plan.archive_receipt_id.as_str()),
            archive_manifest_sha256: block.plan.archive_manifest_sha256,
            cursor_version: version,
            updated_at,
        };
        let out = copy_cursor(&cursor);
        let ghost before = *self;
        self.cursor = Some(cursor);
        proof {
            lemma_block_at(*self, i as int);
            lemma_block_at(before, i as int);
            if committed_complete(before) {
                assert forall|h: u64| self.first_block_height <= h <= height implies (#[trigger] block_at(
                    *self,
                    h,
                ) matches Some(b) && fully_acknowledged(b)) by {
                    assert(block_at(*self, h) == block_at(before, h));
                }
            }
        }
        Ok(out)
    }
}

/// A non-empty sequence of filled acknowledgement slots has a latest time.
proof fn lemma_latest_present(acks: Seq<Option<AckModel>>)
    requires
        acks.len() > 0,
        forall|o: int| 0 <= o < acks.len() ==> (#[trigger] acks[o]) is Some,
    ensures
        latest_ack(acks) is Some,
{
}

/// The filled acknowledgement slots, in ordinal order.
pub open spec fn filled(acks: Seq<Option<AckModel>>) -> Seq<AckModel>
    decreases acks.len(),
{
    if acks.len() == 0 {
        Seq::empty()
    } else {
        let rest = filled(acks.drop_last());
        match acks.last() {
            Some(a) => rest.push(a),
            None => rest,
        }
    }
}

/// The committed height of a chain, if it has a cursor.
pub open spec fn committed_height(c: ChainState) -> Option<u64> {
    match c.cursor {
        Some(cur) => Some(cur.committed_block_height),
        None => None,
    }
}

/// The plans of the blocks above `committed`, in the order the blocks are kept.
pub open spec fn pending_plans(blocks: Seq<BlockState>, committed: Option<u64>) -> Seq<PlanModel>
    decreases blocks.len(),
{
    if blocks.len() == 0 {
        Seq::empty()
    } else {
        let rest = pending_plans(blocks.drop_last(), committed);
        let b = blocks.last();
        if committed matches Some(h) && b.plan.block_height <= h {
            rest
        } else {
            rest.push(b.plan@)
        }
    }
}

proof fn lemma_pending_prefix(blocks: Seq<BlockState>, committed: Option<u64>, i: int, j: int)
    requires
        0 <= i <= j <= blocks.len(),
    ensures
        pending_plans(blocks.take(i), committed).len() <= pending_plans(blocks.take(j), committed).len(),
        pending_plans(blocks.take(i), committed) == pending_plans(blocks.take(j), committed).take(
            pending_plans(blocks.take(i), committed).len() as int,
        ),
    decreases j - i,
{
    if i < j {
        lemma_pending_prefix(blocks, committed, i, j - 1);
        assert(blocks.take(j).drop_last() =~= blocks.take(j - 1));
        let a = pending_plans(blocks.take(i), committed);
        let b = pending_plans(blocks.take(j - 1), committed);
        let c = pending_plans(blocks.take(j), committed);
        assert(c == b || c == b.push(blocks[j - 1].plan@));
        if c != b {
            assert(a =~= c.take(a.len() as int));
        }
    } else {
        let a = pending_plans(blocks.take(i), committed);
        assert(a =~= a.take(a.len() as int));
    }
}

/// A chain, where there is one, is well formed and its committed heights complete.
pub open spec fn chain_valid(c: Option<ChainState>) -> bool {
    match c {
        Some(c) => chain_ok(c) && committed_complete(c),
        None => true,
    }
}

/// Capture progress of every chain, held in memory, with a bound on the number of
/// archived blocks it keeps.
#[derive(Debug)]
pub struct InMemoryProgressStore {
    capacity: usize,
    chains: StrMap<ChainState>,
    block_count: usize,
}

impl InMemoryProgressStore {
    /// The store is well formed: a positive capacity that the recorded blocks stay within,
    /// and every chain well formed with its committed heights complete.
    pub closed spec fn wf(&self) -> bool {
        &&& 0 < self.capacity
        &&& self.block_count <= self.capacity
        &&& forall|k: Seq<char>| #[trigger] chain_valid(lookup(self.chains@, k))
    }

    /// The progress of chain `id`, if it was initialized.
    pub closed spec fn chain_state(&self, id: Seq<char>) -> Option<ChainState> {
        lookup(self.chains@, id)
    }

    /// How many archived blocks the store may hold.
    pub closed spec fn capacity_limit(&self) -> usize {
        self.capacity
    }

    /// How many archived blocks the store holds.
    pub closed spec fn blocks_recorded(&self) -> usize {
        self.block_count
    }

    /// An empty store for at most `capacity` archived blocks; a zero capacity is refused.
    pub fn new(capacity: usize) -> (r: Result<Self, CaptureProgressError>)
        ensures
            capacity == 0 <==> r == Err::<Self, CaptureProgressError>(CaptureProgressError::InvalidInput),
            r matches Ok(st) ==> st.wf() && st.capacity_limit() == capacity && st.blocks_recorded() == 0
                && forall|id: Seq<char>| #[trigger] st.chain_state(id) is None,
    {
        if capacity == 0 {
            return Err(CaptureProgressError::InvalidInput);
        }
        let st = InMemoryProgressStore { capacity, chains: StrMap::new(), block_count: 0 };
        Ok(st)
    }

    /// Starts a chain at `first_block_height`; starting it again at the same height is a
    /// duplicate, at another height a conflict.
    pub fn initialize_chain(&mut self, chain_id: &str, first_block_height: u64) -> (r: Result<
        RecordDisposition,
        CaptureProgressError,
    >)
        requires
            old(self).wf(),
        ensures
            final(self).wf(),
            final(self).capacity_limit() == old(self).capacity_limit(),
            final(self).blocks_recorded() == old(self).blocks_recorded(),
            forall|id: Seq<char>| id != chain_id@ ==> #[trigger] final(self).chain_state(id) == old(
                self,
            ).chain_state(id),
            match old(self).chain_state(chain_id@) {
                None => r == Ok::<RecordDisposition, CaptureProgressError>(RecordDisposition::New)
                    && (final(self).chain_state(chain_id@) matches Some(c) && c.first_block_height
                    == first_block_height && c.cursor is None && c.blocks@.len() == 0),
                Some(c) => final(self).chain_state(chain_id@) == Some(c) && if c.first_block_height
                    == first_block_height {
                    r == Ok::<RecordDisposition, CaptureProgressError>(RecordDisposition::IdenticalDuplicate)
                } else {
                    r == Err::<RecordDisposition, CaptureProgressError>(
                        CaptureProgressError::ConflictingInitialization,
                    )
                },
            },
    {
        match self.chains.get(chain_id) {
            Some(c) => {
                if c.first_block_height == first_block_height {
                    return Ok(RecordDisposition::IdenticalDuplicate);
                }
                return Err(CaptureProgressError::ConflictingInitialization);
            },
            None => {},
        }
        let c = ChainState::new(first_block_height);
        self.chains.insert(owned(chain_id), c);
        Ok(RecordDisposition::New)
    }

    /// Records an archived block plan of an initialized chain (see
    /// [`ChainState::record_archived`]); a new block counts against the capacity.
    pub fn record_archived(&mut self, plan: &ArchivedBlockPlan) -> (r: Result<RecordDisposition, CaptureProgressError>)
        requires
            old(self).wf(),
        ensures
            final(self).wf(),
            final(self).capacity_limit() == old(self).capacity_limit(),
            forall|id: Seq<char>| id != plan@.chain_id ==> #[trigger] final(self).chain_state(id) == old(
                self,
            ).chain_state(id),
            final(self).blocks_recorded() == if r == Ok::<RecordDisposition, CaptureProgressError>(
                RecordDisposition::New,
            ) {
                old(self).blocks_recorded() + 1
            } else {
                old(self).blocks_recorded() as int
            },
            match old(self).chain_state(plan@.chain_id) {
                None => r == Err::<RecordDisposition, CaptureProgressError>(
                    CaptureProgressError::ChainNotInitialized,
                ) && final(self).chain_state(plan@.chain_id) is None,
                Some(c) => final(self).chain_state(plan@.chain_id) matches Some(nc) && {
                    &&& nc.first_block_height == c.first_block_height
                    &&& nc.cursor == c.cursor
                    &&& plan.block_height < c.first_block_height ==> r == Err::<
                        RecordDisposition,
                        CaptureProgressError,
                    >(CaptureProgressError::BelowFirstHeight) && nc == c
                    &&& plan.block_height >= c.first_block_height ==> match block_at(c, plan.block_height) {
                        Some(b) => nc == c && if b.plan@ == plan@ {
                            r == Ok::<RecordDisposition, CaptureProgressError>(
                                RecordDisposition::IdenticalDuplicate,
                            )
                        } else {
                            r == Err::<RecordDisposition, CaptureProgressError>(
                                CaptureProgressError::ConflictingBlock,
                            )
                        },
                        None => if old(self).blocks_recorded() >= old(self).capacity_limit() {
                            r == Err::<RecordDisposition, CaptureProgressError>(
                                CaptureProgressError::CapacityExceeded { limit: old(self).capacity_limit() },
                            ) && nc == c
                        } else {
                            &&& r == Ok::<RecordDisposition, CaptureProgressError>(RecordDisposition::New)
                            &&& block_at(nc, plan.block_height) matches Some(b) && b.plan@ == plan@
                                && acks_of(b) == Seq::new(plan@.publications.len(), |o: int| None::<AckModel>)
                            &&& forall|h: u64| h != plan.block_height ==> #[trigger] block_at(nc, h)
                                == block_at(c, h)
                        },
                    }
                },
            },
    {
        let mut chain = match self.chains.remove(plan.chain_id.as_str()) {
            Some(c) => c,
            None => {
                return Err(CaptureProgressError::ChainNotInitialized);
            },
        };
        let ghost c0 = chain;
        assert(lookup(old(self).chains@, plan@.chain_id) == Some(c0));
        assert(chain_valid(lookup(old(self).chains@, plan@.chain_id)));
        let room = self.block_count < self.capacity;
        let r = chain.record_archived(copy_plan(plan), room, self.capacity);
        self.chains.insert(owned(plan.chain_id.as_str()), chain);
        match r {
            Ok(RecordDisposition::New) => {
                self.block_count = self.block_count + 1;
            },
            _ => {},
        }
        proof {
            assert forall|k: Seq<char>| #[trigger] chain_valid(lookup(self.chains@, k)) by {
                if k != plan@.chain_id {
                    assert(lookup(self.chains@, k) == lookup(old(self).chains@, k));
                    assert(chain_valid(lookup(old(self).chains@, k)));
                }
            }
        }
        r
    }

    /// Records a publication acknowledgement of an initialized chain (see
    /// [`ChainState::record_acknowledgement`]).
    pub fn record_acknowledgement(
        &mut self,
        chain_id: &str,
        block_height: u64,
        acknowledgement: &PublicationAcknowledgement,
    ) -> (r: Result<RecordDisposition, CaptureProgressError>)
        requires
            old(self).wf(),
        ensures
            final(self).wf(),
            final(self).capacity_limit() == old(self).capacity_limit(),
            final(self).blocks_recorded() == old(self).blocks_recorded(),
            forall|id: Seq<char>| id != chain_id@ ==> #[trigger] final(self).chain_state(id) == old(
                self,
            ).chain_state(id),
            match old(self).chain_state(chain_id@) {
                None => r == Err::<RecordDisposition, CaptureProgressError>(
                    CaptureProgressError::ChainNotInitialized,
                ) && final(self).chain_state(chain_id@) is None,
                Some(c) => final(self).chain_state(chain_id@) matches Some(nc) && {
                    let ack = acknowledgement@;
                    &&& nc.first_block_height == c.first_block_height
                    &&& nc.cursor == c.cursor
                    &&& forall|h: u64| h != block_height ==> #[trigger] block_at(nc, h) == block_at(c, h)
                    &&& match block_at(c, block_height) {
                        None => r == Err::<RecordDisposition, CaptureProgressError>(
                            CaptureProgressError::UnknownBlock,
                        ) && nc == c,
                        Some(b) => if ack.ordinal >= b.plan@.publications.len() || !publication_acked(
                            ack,
                            b.plan@.publications[ack.ordinal as int],
                        ) {
                            r == Err::<RecordDisposition, CaptureProgressError>(
                                CaptureProgressError::AcknowledgementMismatch,
                            ) && nc == c
                        } else {
                            match acks_of(b)[ack.ordinal as int] {
                                None => r == Ok::<RecordDisposition, CaptureProgressError>(RecordDisposition::New)
                                    && (block_at(nc, block_height) matches Some(nb) && nb.plan == b.plan
                                    && acks_of(nb) == acks_of(b).update(ack.ordinal as int, Some(ack))),
                                Some(e) => nc == c && if e == ack {
                                    r == Ok::<RecordDisposition, CaptureProgressError>(
                                        RecordDisposition::IdenticalDuplicate,
                                    )
                                } else {
                                    r == Err::<RecordDisposition, CaptureProgressError>(
                                        CaptureProgressError::ConflictingAcknowledgement,
                                    )
                                },
                            }
                        },
                    }
                },
            },
    {
        let mut chain = match self.chains.remove(chain_id) {
            Some(c) => c,
            None => {
                return Err(CaptureProgressError::ChainNotInitialized);
            },
        };
        assert(lookup(old(self).chains@, chain_id@) == Some(chain));
        assert(chain_valid(lookup(old(self).chains@, chain_id@)));
        let r = chain.record_acknowledgement(block_height, copy_acknowledgement(acknowledgement));
        self.chains.insert(owned(chain_id), chain);
        proof {
            assert forall|k: Seq<char>| #[trigger] chain_valid(lookup(self.chains@, k)) by {
                if k != chain_id@ {
                    assert(lookup(self.chains@, k) == lookup(old(self).chains@, k));
                    assert(chain_valid(lookup(old(self).chains@, k)));
                }
            }
        }
        r
    }

    /// Moves the committed cursor of an initialized chain (see
    /// [`ChainState::advance_cursor`]).
    pub fn advance_cursor(&mut self, chain_id: &str, block_height: u64) -> (r: Result<
        CaptureCursor,
        CaptureProgressError,
    >)
        requires
            old(self).wf(),
        ensures
            final(self).wf(),
            final(self).capacity_limit() == old(self).capacity_limit(),
            final(self).blocks_recorded() == old(self).blocks_recorded(),
            forall|id: Seq<char>| id != chain_id@ ==> #[trigger] final(self).chain_state(id) == old(
                self,
            ).chain_state(id),
            match old(self).chain_state(chain_id@) {
                None => r == Err::<CaptureCursor, CaptureProgressError>(
                    CaptureProgressError::ChainNotInitialized,
                ) && final(self).chain_state(chain_id@) is None,
                Some(c) => final(self).chain_state(chain_id@) matches Some(nc) && {
                    &&& nc.first_block_height == c.first_block_height
                    &&& nc.blocks == c.blocks
                    &&& match r {
                        Ok(cur) => cursor_of(nc) == Some(cur@),
                        Err(_) => nc == c,
                    }
                    &&& committed_height(c) == Some(block_height) ==> (r matches Ok(cur) && Some(cur@)
                        == cursor_of(c))
                    &&& committed_height(c) != Some(block_height) ==> match next_expected(c) {
                        None => r == Err::<CaptureCursor, CaptureProgressError>(
                            CaptureProgressError::CursorOverflow,
                        ),
                        Some(expected) => if block_height != expected {
                            r == Err::<CaptureCursor, CaptureProgressError>(
                                CaptureProgressError::NonContiguousAdvance { expected, actual: block_height },
                            )
                        } else {
                            match block_at(c, block_height) {
                                None => r == Err::<CaptureCursor, CaptureProgressError>(
                                    CaptureProgressError::UnknownBlock,
                                ),
                                Some(b) => if !fully_acknowledged(b) {
                                    r == Err::<CaptureCursor, CaptureProgressError>(
                                        CaptureProgressError::PublicationIncomplete,
                                    )
                                } else if c.cursor matches Some(cur) && cur.cursor_version == u64::MAX {
                                    r == Err::<CaptureCursor, CaptureProgressError>(
                                        CaptureProgressError::CursorOverflow,
                                    )
                                } else if b.plan@.publications.len() == 0 {
                                    r == Err::<CaptureCursor, CaptureProgressError>(
                                        CaptureProgressError::PublicationIncomplete,
                                    )
                                } else {
                                    r matches Ok(cur) && cur@ == (CursorModel {
                                        chain_id: chain_id@,
                                        committed_block_height: block_height,
                                        canonical_block_hash: b.plan@.canonical_block_hash,
                                        archive_receipt_id: b.plan@.archive_receipt_id,
                                        archive_manifest_sha256: b.plan@.archive_manifest_sha256,
                                        cursor_version: match c.cursor {
                                            Some(old_cur) => (old_cur.cursor_version + 1) as u64,
                                            None => 1,
                                        },
                                        updated_at: latest_ack(acks_of(b)).unwrap(),
                                    })
                                },
                            }
                        },
                    }
                },
            },
    {
        let mut chain = match self.chains.remove(chain_id) {
            Some(c) => c,
            None => {
                return Err(CaptureProgressError::ChainNotInitialized);
            },
        };
        assert(lookup(old(self).chains@, chain_id@) == Some(chain));
        assert(chain_valid(lookup(old(self).chains@, chain_id@)));
        let r = chain.advance_cursor(chain_id, block_height);
        self.chains.insert(owned(chain_id), chain);
        proof {
            assert forall|k: Seq<char>| #[trigger] chain_valid(lookup(self.chains@, k)) by {
                if k != chain_id@ {
                    assert(lookup(self.chains@, k) == lookup(old(self).chains@, k));
                    assert(chain_valid(lookup(old(self).chains@, k)));
                }
            }
        }
        r
    }

    /// The committed cursor of an initialized chain.
    pub fn load_cursor(&self, chain_id: &str) -> (r: Result<Option<CaptureCursor>, CaptureProgressError>)
        ensures
            match self.chain_state(chain_id@) {
                None => r == Err::<Option<CaptureCursor>, CaptureProgressError>(
                    CaptureProgressError::ChainNotInitialized,
                ),
                Some(c) => r matches Ok(o) && match o {
                    Some(cur) => cursor_of(c) == Some(cur@),
                    None => cursor_of(c) is None,
                },
            },
    {
        match self.chains.get(chain_id) {
            Some(c) => match &c.cursor {
                Some(cur) => Ok(Some(copy_cursor(cur))),
                None => Ok(None),
            },
            None => Err(CaptureProgressError::ChainNotInitialized),
        }
    }

    /// The height an initialized chain expects to commit next: the one after its cursor,
    /// or its first height while it has none.
    pub fn next_expected_height(&self, chain_id: &str) -> (r: Result<u64, CaptureProgressError>)
        ensures
            match self.chain_state(chain_id@) {
                None => r == Err::<u64, CaptureProgressError>(CaptureProgressError::ChainNotInitialized),
                Some(c) => match next_expected(c) {
                    Some(h) => r == Ok::<u64, CaptureProgressError>(h),
                    None => r == Err::<u64, CaptureProgressError>(CaptureProgressError::CursorOverflow),
                },
            },
    {
        match self.chains.get(chain_id) {
            Some(c) => match &c.cursor {
                Some(cur) => {
                    if cur.committed_block_height == u64::MAX {
                        Err(CaptureProgressError::CursorOverflow)
                    } else {
                        Ok(cur.committed_block_height + 1)
                    }
                },
                None => Ok(c.first_block_height),
            },
            None => Err(CaptureProgressError::ChainNotInitialized),
        }
    }

    /// The archived plan of an initialized chain at `block_height`, if recorded.
    pub fn load_archived_block(&self, chain_id: &str, block_height: u64) -> (r: Result<
        Option<ArchivedBlockPlan>,
        CaptureProgressError,
    >)
        requires
            self.wf(),
        ensures
            match self.chain_state(chain_id@) {
                None => r == Err::<Option<ArchivedBlockPlan>, CaptureProgressError>(
                    CaptureProgressError::ChainNotInitialized,
                ),
                Some(c) => r matches Ok(o) && match block_at(c, block_height) {
                    Some(b) => o matches Some(p) && p@ == b.plan@,
                    None => o is None,
                },
            },
    {
        match self.chains.get(chain_id) {
            Some(c) => {
                assert(chain_valid(lookup(self.chains@, chain_id@)));
                match find_block(&c.blocks, block_height) {
                    Some(i) => {
                        proof {
                            lemma_block_at(*c, i as int);
                        }
                        Ok(Some(copy_plan(&c.blocks[i].plan)))
                    },
                    None => Ok(None),
                }
            },
            None => Err(CaptureProgressError::ChainNotInitialized),
        }
    }

    /// The acknowledgements recorded for a block of an initialized chain, in ordinal
    /// order; an unrecorded block is refused.
    pub fn load_acknowledgements(&self, chain_id: &str, block_height: u64) -> (r: Result<
        Vec<PublicationAcknowledgement>,
        CaptureProgressError,
    >)
        requires
            self.wf(),
        ensures
            match self.chain_state(chain_id@) {
                None => r == Err::<Vec<PublicationAcknowledgement>, CaptureProgressError>(
                    CaptureProgressError::ChainNotInitialized,
                ),
                Some(c) => match block_at(c, block_height) {
                    None => r == Err::<Vec<PublicationAcknowledgement>, CaptureProgressError>(
                        CaptureProgressError::UnknownBlock,
                    ),
                    Some(b) => r matches Ok(v) && v@.map_values(|a: PublicationAcknowledgement| a@) == filled(
                        acks_of(b),
                    ),
                },
            },
    {
        let c = match self.chains.get(chain_id) {
            Some(c) => c,
            None => {
                return Err(CaptureProgressError::ChainNotInitialized);
            },
        };
        assert(chain_valid(lookup(self.chains@, chain_id@)));
        let i = match find_block(&c.blocks, block_height) {
            Some(i) => i,
            None => {
                return Err(CaptureProgressError::UnknownBlock);
            },
        };
        proof {
            lemma_block_at(*c, i as int);
        }
        let b = &c.blocks[i];
        let ghost acks = acks_of(*b);
        let mut out: Vec<PublicationAcknowledgement> = Vec::new();
        let mut k: usize = 0;
        assert(acks.take(0) =~= Seq::<Option<AckModel>>::empty());
        assert(out@.map_values(|a: PublicationAcknowledgement| a@) =~= Seq::<AckModel>::empty());
        while k < b.acknowledgements.len()
            invariant
                k <= b.acknowledgements@.len(),
                acks == acks_of(*b),
                acks.len() == b.acknowledgements@.len(),
                out@.map_values(|a: PublicationAcknowledgement| a@) == filled(acks.take(k as int)),
            decreases b.acknowledgements@.len() - k,
        {
            assert(acks.take(k + 1).drop_last() =~= acks.take(k as int));
            assert(acks.take(k + 1).last() == acks[k as int]);
            let ghost before = out@.map_values(|a: PublicationAcknowledgement| a@);
            match &b.acknowledgements[k] {
                Some(a) => {
                    out.push(copy_acknowledgement(a));
                    assert(out@.map_values(|a: PublicationAcknowledgement| a@) =~= before.push(a@));
                },
                None => {},
            }
            k = k + 1;
        }
        assert(acks.take(k as int) =~= acks);
        Ok(out)
    }

    /// Up to `limit` archived plans of an initialized chain above its committed cursor, in
    /// height order; a zero limit is refused.
    pub fn pending_blocks(&self, chain_id: &str, limit: usize) -> (r: Result<
        Vec<ArchivedBlockPlan>,
        CaptureProgressError,
    >)
        requires
            self.wf(),
        ensures
            limit == 0 ==> r == Err::<Vec<ArchivedBlockPlan>, CaptureProgressError>(
                CaptureProgressError::InvalidLimit,
            ),
            limit > 0 ==> match self.chain_state(chain_id@) {
                None => r == Err::<Vec<ArchivedBlockPlan>, CaptureProgressError>(
                    CaptureProgressError::ChainNotInitialized,
                ),
                Some(c) => r matches Ok(v) && {
                    let all = pending_plans(c.blocks@, committed_height(c));
                    v@.map_values(|p: ArchivedBlockPlan| p@) == all.take(
                        if all.len() < limit { all.len() as int } else { limit as int },
                    )
                },
            },
    {
        if limit == 0 {
            return Err(CaptureProgressError::InvalidLimit);
        }
        let c = match self.chains.get(chain_id) {
            Some(c) => c,
            None => {
                return Err(CaptureProgressError::ChainNotInitialized);
            },
        };
        let committed: Option<u64> = match &c.cursor {
            Some(cur) => Some(cur.committed_block_height),
            None => None,
        };
        let ghost blocks = c.blocks@;
        let mut out: Vec<ArchivedBlockPlan> = Vec::new();
        let mut i: usize = 0;
        assert(blocks.take(0) =~= Seq::<BlockState>::empty());
        assert(out@.map_values(|p: ArchivedBlockPlan| p@) =~= Seq::<PlanModel>::empty());
        while i < c.blocks.len() && out.len() < limit
            invariant
                i <= c.blocks@.len(),
                blocks == c.blocks@,
                committed == committed_height(*c),
                out@.len() <= limit,
                out@.map_values(|p: ArchivedBlockPlan| p@) == pending_plans(blocks.take(i as int), committed),
            decreases c.blocks@.len() - i,
        {
            assert(blocks.take(i + 1).drop_last() =~= blocks.take(i as int));
            assert(blocks.take(i + 1).last() == blocks[i as int]);
            let ghost before = out@.map_values(|p: ArchivedBlockPlan| p@);
            let h = c.blocks[i].plan.block_height;
            let above = match committed {
                Some(ch) => h > ch,
                None => true,
            };
            if above {
                let p = copy_plan(&c.blocks[i].plan);
                out.push(p);
                assert(out@.map_values(|p: ArchivedBlockPlan| p@) =~= before.push(blocks[i as int].plan@));
            }
            i = i + 1;
        }
        proof {
            let all = pending_plans(blocks, committed);
            assert(blocks.take(blocks.len() as int) =~= blocks);
            lemma_pending_prefix(blocks, committed, i as int, blocks.len() as int);
            let got = pending_plans(blocks.take(i as int), committed);
            if out@.len() < limit {
                assert(i == blocks.len());
                assert(got =~= all.take(all.len() as int));
            }
        }
        Ok(out)
    }
}

/// Every height of a chain from its first one up to its committed cursor has an archived
/// block whose planned publications were all acknowledged: the cursor never passes a
/// block that is missing or not fully published.
pub proof fn law_committed_heights_are_acknowledged(
    store: InMemoryProgressStore,
    chain_id: Seq<char>,
    chain: ChainState,
    cursor: CaptureCursor,
    height: u64,
)
    requires
        store.wf(),
        store.chain_state(chain_id) == Some(chain),
        chain.cursor == Some(cursor),
        chain.first_block_height <= height <= cursor.committed_block_height,
    ensures
        block_at(chain, height) matches Some(b) && fully_acknowledged(b),
{
    assert(chain_valid(lookup(store.chains@, chain_id)));
}

} // verus!
