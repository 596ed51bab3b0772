//! The publication plan of an archived block: each message of the block's batch under
//! its ordinal, the checks that a plan read back still matches the batch, and which
//! messages a resumed batch still has to publish.

use vstd::prelude::*;

use crate::text::same_text;

verus! {

/// Where a test may make the capture coordinator fail.
#[derive(Debug, Clone, Copy, PartialEq, Eq, Structural)]
pub enum CoordinatorFaultPoint {
    AfterArchive,
    AfterJournal,
    AfterPublish { ordinal: u32 },
    AfterAcknowledgement { ordinal: u32 },
    AfterCursor,
}

/// Why the capture coordinator failed.
#[derive(Debug, Clone, Copy, PartialEq, Eq, Structural)]
pub enum CoordinatorError {
    Archive,
    Publication,
    Progress,
    Clock,
    PublicationPlanOverflow,
    RecoveryMismatch,
    InvalidRecoveryLimit,
    InjectedFault(CoordinatorFaultPoint),
}

pub open spec fn coordinator_reason(e: CoordinatorError) -> Seq<char> {
    match e {
        CoordinatorError::Archive => "capture_coordinator.archive"@,
        CoordinatorError::Publication => "capture_coordinator.publication"@,
        CoordinatorError::Progress => "capture_coordinator.progress"@,
        CoordinatorError::Clock => "capture_coordinator.clock"@,
        CoordinatorError::PublicationPlanOverflow => "capture_coordinator.publication_plan_overflow"@,
        CoordinatorError::RecoveryMismatch => "capture_coordinator.recovery_mismatch"@,
        CoordinatorError::InvalidRecoveryLimit => "capture_coordinator.invalid_recovery_limit"@,
        CoordinatorError::InjectedFault(_) => "capture_coordinator.injected_fault"@,
    }
}

impl CoordinatorError {
    pub fn reason_code(self) -> (r: &'static str)
        ensures
            r@ == coordinator_reason(self),
    {
        match self {
            CoordinatorError::Archive => "capture_coordinator.archive",
            CoordinatorError::Publication => "capture_coordinator.publication",
            CoordinatorError::Progress => "capture_coordinator.progress",
            CoordinatorError::Clock => "capture_coordinator.clock",
            CoordinatorError::PublicationPlanOverflow => "capture_coordinator.publication_plan_overflow",
            CoordinatorError::RecoveryMismatch => "capture_coordinator.recovery_mismatch",
            CoordinatorError::InvalidRecoveryLimit => "capture_coordinator.invalid_recovery_limit",
            CoordinatorError::InjectedFault(_) => "capture_coordinator.injected_fault",
        }
    }
}

/// A place where a test can make a coordinator step fail.
pub trait CoordinatorFaultInjector {
    fn check(&self, point: CoordinatorFaultPoint) -> Result<(), CoordinatorError>;
}

/// Injects nothing.
#[derive(Debug, Clone, Copy, Default)]
pub struct NoCoordinatorFaults;

impl CoordinatorFaultInjector for NoCoordinatorFaults {
    fn check(&self, point: CoordinatorFaultPoint) -> (r: Result<(), CoordinatorError>)
        ensures
            r is Ok,
    {
        Ok(())
    }
}

/// The block and archive receipt a message or plan is bound to.
#[derive(Debug)]
pub struct PlanBinding {
    pub chain_id: String,
    pub block_height: u64,
    pub canonical_block_hash: [u8; 32],
    pub archive_receipt_id: String,
    pub archive_manifest_sha256: [u8; 32],
}

pub open spec fn same_binding(a: PlanBinding, b: PlanBinding) -> bool {
    &&& a.chain_id@ == b.chain_id@
    &&& a.block_height == b.block_height
    &&& a.canonical_block_hash@ == b.canonical_block_hash@
    &&& a.archive_receipt_id@ == b.archive_receipt_id@
    &&& a.archive_manifest_sha256@ == b.archive_manifest_sha256@
}

fn bindings_equal(a: &PlanBinding, b: &PlanBinding) -> (r: bool)
    ensures
        r == same_binding(*a, *b),
{
    let h1 = crate::digest::same_hash(&a.canonical_block_hash, &b.canonical_block_hash);
    let h2 = crate::digest::same_hash(&a.archive_manifest_sha256, &b.archive_manifest_sha256);
    proof {
        if a.canonical_block_hash@ == b.canonical_block_hash@ {
            assert(a.canonical_block_hash =~= b.canonical_block_hash);
        }
        if a.archive_manifest_sha256@ == b.archive_manifest_sha256@ {
            assert(a.archive_manifest_sha256 =~= b.archive_manifest_sha256);
        }
    }
    same_text(a.chain_id.as_str(), b.chain_id.as_str()) && a.block_height == b.block_height && h1
        && same_text(a.archive_receipt_id.as_str(), b.archive_receipt_id.as_str()) && h2
}

/// What the plan and the batch both say of one message.
#[derive(Debug)]
pub struct MessageFacts {
    pub message_id: String,
    pub subject: String,
    pub publication_sha256: [u8; 32],
    pub stream: String,
    pub binding: PlanBinding,
}

/// One planned publication of an archived block.
#[derive(Debug)]
pub struct PlannedPublication {
    pub ordinal: u32,
    pub message_id: String,
    pub subject: String,
    pub publication_sha256: [u8; 32],
}

/// A durable acknowledgement of one publication.
#[derive(Debug)]
pub struct PublicationAck {
    pub ordinal: u32,
    pub message_id: String,
    pub subject: String,
    pub publication_sha256: [u8; 32],
    pub stream: String,
}

/// A planned publication is the batch message at its ordinal.
pub open spec fn planned_matches(p: PlannedPublication, m: MessageFacts, ordinal: int) -> bool {
    &&& p.ordinal == ordinal
    &&& p.message_id@ == m.message_id@
    &&& p.subject@ == m.subject@
    &&& p.publication_sha256@ == m.publication_sha256@
}

/// An acknowledgement is of the batch message at its ordinal.
pub open spec fn ack_matches(a: PublicationAck, m: MessageFacts, ordinal: u32) -> bool {
    &&& a.ordinal == ordinal
    &&& a.message_id@ == m.message_id@
    &&& a.subject@ == m.subject@
    &&& a.publication_sha256@ == m.publication_sha256@
    &&& a.stream@ == m.stream@
}

/// The plan of a batch: each message under its position as ordinal; refused when a
/// position does not fit a `u32`.
pub fn plan_publications(batch: &Vec<MessageFacts>) -> (r: Result<Vec<PlannedPublication>, CoordinatorError>)
    ensures
        batch@.len() > u32::MAX + 1 ==> r == Err::<Vec<PlannedPublication>, CoordinatorError>(
            CoordinatorError::PublicationPlanOverflow,
        ),
        batch@.len() <= u32::MAX + 1 ==> (r matches Ok(p) && p@.len() == batch@.len() && forall|i: int|
            0 <= i < p@.len() ==> planned_matches(#[trigger] p@[i], batch@[i], i)),
{
    let mut out: Vec<PlannedPublication> = Vec::new();
    let mut i: usize = 0;
    while i < batch.len()
        invariant
            i <= batch@.len(),
            i <= u32::MAX + 1,
            out@.len() == i,
            forall|k: int| 0 <= k < i ==> planned_matches(#[trigger] out@[k], batch@[k], k),
        decreases batch@.len() - i,
    {
        if i as u64 > u32::MAX as u64 {
            return Err(CoordinatorError::PublicationPlanOverflow);
        }
        let m = &batch[i];
        out.push(
            PlannedPublication {
                ordinal: i as u32,
                message_id: crate::text::owned(m.message_id.as_str()),
                subject: crate::text::owned(m.subject.as_str()),
                publication_sha256: m.publication_sha256,
            },
        );
        i = i + 1;
    }
    Ok(out)
}

/// Whether a plan read back matches the batch rebuilt from the archive: as many
/// publications as messages, each the message at its ordinal, every message bound to the
/// plan's block and receipt.
pub fn verify_plan_matches(
    plan: &Vec<PlannedPublication>,
    plan_binding: &PlanBinding,
    batch: &Vec<MessageFacts>,
) -> (r: Result<(), CoordinatorError>)
    ensures
        r is Ok <==> (plan@.len() == batch@.len() && forall|i: int|
            0 <= i < plan@.len() ==> planned_matches(#[trigger] plan@[i], batch@[i], i) && same_binding(
                batch@[i].binding,
                *plan_binding,
            )),
        r is Err ==> r == Err::<(), CoordinatorError>(CoordinatorError::RecoveryMismatch) || r == Err::<
            (),
            CoordinatorError,
        >(CoordinatorError::PublicationPlanOverflow),
{
    if plan.len() != batch.len() {
        return Err(CoordinatorError::RecoveryMismatch);
    }
    let mut i: usize = 0;
    while i < plan.len()
        invariant
            i <= plan@.len(),
            plan@.len() == batch@.len(),
            forall|k: int| 0 <= k < i ==> planned_matches(#[trigger] plan@[k], batch@[k], k) && same_binding(
                batch@[k].binding,
                *plan_binding,
            ),
        decreases plan@.len() - i,
    {
        if i as u64 > u32::MAX as u64 {
            assert(!planned_matches(plan@[i as int], batch@[i as int], i as int));
            return Err(CoordinatorError::PublicationPlanOverflow);
        }
        let p = &plan[i];
        let m = &batch[i];
        if p.ordinal as u64 != i as u64 || !same_text(p.message_id.as_str(), m.message_id.as_str())
            || !same_text(p.subject.as_str(), m.subject.as_str()) || !crate::digest::same_hash(
            &p.publication_sha256,
            &m.publication_sha256,
        ) {
            proof {
                if p.publication_sha256@ == m.publication_sha256@ {
                    assert(p.publication_sha256 =~= m.publication_sha256);
                }
            }
            return Err(CoordinatorError::RecoveryMismatch);
        }
        assert(p.publication_sha256@ == m.publication_sha256@);
        if !bindings_equal(&m.binding, plan_binding) {
            return Err(CoordinatorError::RecoveryMismatch);
        }
        assert(plan@[i as int] == *p && batch@[i as int] == *m);
        assert(planned_matches(plan@[i as int], batch@[i as int], i as int));
        i = i + 1;
    }
    Ok(())
}

/// The acknowledgements of a block by ordinal: position `o` holds the one with ordinal
/// `o`, for ordinals below `n`; refused when two share an ordinal.
pub fn acknowledgements_by_ordinal(acks: &Vec<PublicationAck>, n: usize) -> (r: Result<Vec<Option<usize>>, CoordinatorError>)
    ensures
        r matches Ok(v) ==> {
            &&& v@.len() == n
            &&& forall|o: int| 0 <= o < n ==> match #[trigger] v@[o] {
                Some(k) => k < acks@.len() && acks@[k as int].ordinal == o,
                None => forall|k: int| 0 <= k < acks@.len() ==> acks@[k].ordinal != o,
            }
        },
        r is Err ==> r == Err::<Vec<Option<usize>>, CoordinatorError>(CoordinatorError::RecoveryMismatch)
            && exists|a: int, b: int| 0 <= a < b < acks@.len() && acks@[a].ordinal == acks@[b].ordinal,
{
    let mut v: Vec<Option<usize>> = Vec::new();
    let mut o: usize = 0;
    while o < n
        invariant
            o <= n,
            v@.len() == o,
            forall|x: int| 0 <= x < o ==> v@[x] is None,
        decreases n - o,
    {
        v.push(None);
        o = o + 1;
    }
    let mut k: usize = 0;
    while k < acks.len()
        invariant
            k <= acks@.len(),
            v@.len() == n,
            forall|o: int| 0 <= o < n ==> match #[trigger] v@[o] {
                Some(j) => j < k && acks@[j as int].ordinal == o,
                None => forall|j: int| 0 <= j < k ==> acks@[j].ordinal != o,
            },
            forall|a: int, b: int| 0 <= a < b < k ==> acks@[a].ordinal != acks@[b].ordinal,
        decreases acks@.len() - k,
    {
        let ord = acks[k].ordinal as usize;
        let mut j: usize = 0;
        while j < k
            invariant
                j <= k < acks@.len(),
                forall|x: int| 0 <= x < j ==> acks@[x].ordinal != acks@[k as int].ordinal,
            decreases k - j,
        {
            if acks[j].ordinal == acks[k].ordinal {
                return Err(CoordinatorError::RecoveryMismatch);
            }
            j = j + 1;
        }
        if ord < n {
            v.set(ord, Some(k));
        }
        k = k + 1;
    }
    Ok(v)
}

/// What to do with the message at one ordinal when a batch resumes.
#[derive(Debug, Clone, Copy, PartialEq, Eq, Structural)]
pub enum ResumeStep {
    /// Acknowledged before: skip it.
    AlreadyAcknowledged,
    /// Not acknowledged yet: publish it.
    Publish,
}

/// A message acknowledged before is skipped only when the acknowledgement is for it;
/// one not acknowledged is published.
pub fn resume_step(message: &MessageFacts, ordinal: u32, ack: Option<&PublicationAck>) -> (r: Result<ResumeStep, CoordinatorError>)
    ensures
        match ack {
            None => r == Ok::<ResumeStep, CoordinatorError>(ResumeStep::Publish),
            Some(a) => if ack_matches(*a, *message, ordinal) {
                r == Ok::<ResumeStep, CoordinatorError>(ResumeStep::AlreadyAcknowledged)
            } else {
                r == Err::<ResumeStep, CoordinatorError>(CoordinatorError::RecoveryMismatch)
            },
        },
{
    match ack {
        None => Ok(ResumeStep::Publish),
        Some(a) => {
            if a.ordinal != ordinal || !same_text(a.message_id.as_str(), message.message_id.as_str())
                || !same_text(a.subject.as_str(), message.subject.as_str()) || !crate::digest::same_hash(
                &a.publication_sha256,
                &message.publication_sha256,
            ) || !same_text(a.stream.as_str(), message.stream.as_str()) {
                proof {
                    if a.publication_sha256@ == message.publication_sha256@ {
                        assert(a.publication_sha256 =~= message.publication_sha256);
                    }
                }
                return Err(CoordinatorError::RecoveryMismatch);
            }
            assert(a.publication_sha256@ == message.publication_sha256@);
            Ok(ResumeStep::AlreadyAcknowledged)
        },
    }
}

} // verus!
