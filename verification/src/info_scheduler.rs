//! Priority scheduler for `/info` jobs over a [`RequestBudget`].
//!
//! Jobs are kept in schedule-key order: priority, then earliest deadline, then highest
//! risk, then oldest success, then cheapest, then job id. Dispatch starts the first job in
//! that order that the budget can afford.

use vstd::prelude::*;

use crate::egress::EgressError;
use crate::request_budget::{
    BudgetError, BudgetLease, BudgetModel, RequestBudget, RequestCost, SchedulePriority,
    sat_add_u32,
};
use crate::text::{
    chars_of, is_trimmed, lemma_seq_lt_asymmetric, lemma_seq_lt_irreflexive,
    lemma_seq_lt_total, lemma_seq_lt_transitive, owned, seq_less, seq_lt, trimmed,
};

verus! {

pub const MAX_TIME_PAGES: usize = 1_024;

/// Plain values of an [`InfoJob`].
pub struct JobModel {
    pub id: Seq<char>,
    pub priority: SchedulePriority,
    pub deadline_millis: u64,
    pub risk_score: u32,
    pub last_success_millis: u64,
    pub estimated_cost: u32,
    pub capability_id: Seq<char>,
}

/// Ids are nonempty and unpadded, and the cost is positive.
pub open spec fn valid_job(j: JobModel) -> bool {
    &&& j.id.len() > 0
    &&& trimmed(j.id)
    &&& j.capability_id.len() > 0
    &&& trimmed(j.capability_id)
    &&& j.estimated_cost > 0
}

/// Schedule-key order: priority, earliest deadline, highest risk, oldest success, lowest
/// cost, then job id.
pub open spec fn key_lt(a: JobModel, b: JobModel) -> bool {
    if a.priority.spec_rank() != b.priority.spec_rank() {
        a.priority.spec_rank() < b.priority.spec_rank()
    } else if a.deadline_millis != b.deadline_millis {
        a.deadline_millis < b.deadline_millis
    } else if a.risk_score != b.risk_score {
        a.risk_score > b.risk_score
    } else if a.last_success_millis != b.last_success_millis {
        a.last_success_millis < b.last_success_millis
    } else if a.estimated_cost != b.estimated_cost {
        a.estimated_cost < b.estimated_cost
    } else {
        seq_lt(a.id, b.id)
    }
}

pub proof fn lemma_key_lt_transitive(a: JobModel, b: JobModel, c: JobModel)
    requires
        key_lt(a, b),
        key_lt(b, c),
    ensures
        key_lt(a, c),
{
    if a.priority.spec_rank() == b.priority.spec_rank() && b.priority.spec_rank()
        == c.priority.spec_rank() && a.deadline_millis == b.deadline_millis && b.deadline_millis
        == c.deadline_millis && a.risk_score == b.risk_score && b.risk_score == c.risk_score
        && a.last_success_millis == b.last_success_millis && b.last_success_millis
        == c.last_success_millis && a.estimated_cost == b.estimated_cost && b.estimated_cost
        == c.estimated_cost {
        lemma_seq_lt_transitive(a.id, b.id, c.id);
    }
}

pub proof fn lemma_key_lt_total(a: JobModel, b: JobModel)
    requires
        a.id != b.id,
    ensures
        key_lt(a, b) || key_lt(b, a),
{
    lemma_seq_lt_total(a.id, b.id);
}

pub proof fn lemma_key_lt_asymmetric(a: JobModel, b: JobModel)
    requires
        key_lt(a, b),
    ensures
        !key_lt(b, a),
{
    if seq_lt(a.id, b.id) {
        lemma_seq_lt_asymmetric(a.id, b.id);
    }
}

pub proof fn lemma_key_lt_irreflexive(a: JobModel)
    ensures
        !key_lt(a, a),
{
    lemma_seq_lt_irreflexive(a.id);
}

/// One `/info` job awaiting dispatch.
#[derive(Debug, PartialEq, Eq)]
pub struct InfoJob {
    id: String,
    priority: SchedulePriority,
    deadline_millis: u64,
    risk_score: u32,
    last_success_millis: u64,
    estimated_cost: u32,
    capability_id: String,
}

impl View for InfoJob {
    type V = JobModel;

    closed spec fn view(&self) -> JobModel {
        JobModel {
            id: self.id@,
            priority: self.priority,
            deadline_millis: self.deadline_millis,
            risk_score: self.risk_score,
            last_success_millis: self.last_success_millis,
            estimated_cost: self.estimated_cost,
            capability_id: self.capability_id@,
        }
    }
}

impl InfoJob {
    #[verifier::type_invariant]
    closed spec fn inv(self) -> bool {
        valid_job(self@)
    }

    /// A job, if its ids are nonempty and unpadded and its cost positive.
    pub fn try_new(
        id: &str,
        priority: SchedulePriority,
        deadline_millis: u64,
        risk_score: u32,
        last_success_millis: u64,
        estimated_cost: u32,
        capability_id: &str,
    ) -> (r: Result<Self, SchedulerError>)
        ensures
            ({
                let m = JobModel {
                    id: id@,
                    priority,
                    deadline_millis,
                    risk_score,
                    last_success_millis,
                    estimated_cost,
                    capability_id: capability_id@,
                };
                &&& valid_job(m) ==> (r matches Ok(j) && j@ == m)
                &&& !valid_job(m) ==> r == Err::<Self, SchedulerError>(SchedulerError::InvalidJob)
            }),
    {
        if id.is_empty() || !is_trimmed(id) || capability_id.is_empty() || !is_trimmed(
            capability_id,
        ) || estimated_cost == 0 {
            return Err(SchedulerError::InvalidJob);
        }
        Ok(InfoJob {
            id: owned(id),
            priority,
            deadline_millis,
            risk_score,
            last_success_millis,
            estimated_cost,
            capability_id: owned(capability_id),
        })
    }

    pub fn id(&self) -> (r: &str)
        ensures
            r@ == self@.id,
    {
        self.id.as_str()
    }

    pub fn priority(&self) -> (r: SchedulePriority)
        ensures
            r == self@.priority,
    {
        self.priority
    }

    pub fn estimated_cost(&self) -> (r: u32)
        ensures
            r == self@.estimated_cost,
            r > 0,
    {
        proof {
            use_type_invariant(self);
        }
        self.estimated_cost
    }

    pub fn capability_id(&self) -> (r: &str)
        ensures
            r@ == self@.capability_id,
    {
        self.capability_id.as_str()
    }

    /// Whether this job sorts before `other` in schedule-key order.
    pub fn schedules_before(&self, other: &InfoJob) -> (r: bool)
        ensures
            r == key_lt(self@, other@),
    {
        let ra = self.priority.rank();
        let rb = other.priority.rank();
        if ra != rb {
            ra < rb
        } else if self.deadline_millis != other.deadline_millis {
            self.deadline_millis < other.deadline_millis
        } else if self.risk_score != other.risk_score {
            self.risk_score > other.risk_score
        } else if self.last_success_millis != other.last_success_millis {
            self.last_success_millis < other.last_success_millis
        } else if self.estimated_cost != other.estimated_cost {
            self.estimated_cost < other.estimated_cost
        } else {
            let a = chars_of(self.id.as_str());
            let b = chars_of(other.id.as_str());
            seq_less(&a, &b)
        }
    }
}

/// A dispatched job with the budget lease that pays for it.
#[derive(Debug)]
pub struct InFlight {
    job: InfoJob,
    lease: BudgetLease,
}

impl InFlight {
    pub closed spec fn spec_job(&self) -> JobModel {
        self.job@
    }

    pub closed spec fn spec_lease(&self) -> BudgetLease {
        self.lease
    }

    pub fn job(&self) -> (r: &InfoJob)
        ensures
            r@ == self.spec_job(),
    {
        &self.job
    }

    pub fn lease(&self) -> (r: &BudgetLease)
        ensures
            *r == self.spec_lease(),
    {
        &self.lease
    }
}

/// Strictly increasing in schedule-key order.
pub open spec fn jobs_sorted(s: Seq<JobModel>) -> bool {
    forall|i: int, j: int| 0 <= i < j < s.len() ==> key_lt(#[trigger] s[i], #[trigger] s[j])
}

/// No two jobs share an id.
pub open spec fn ids_distinct(s: Seq<JobModel>) -> bool {
    forall|i: int, j: int| 0 <= i < j < s.len() ==> (#[trigger] s[i]).id != (#[trigger] s[j]).id
}

pub open spec fn has_id(s: Seq<JobModel>, id: Seq<char>) -> bool {
    exists|i: int| 0 <= i < s.len() && (#[trigger] s[i]).id == id
}

/// The budget can reserve this job's cost.
pub open spec fn affordable(m: BudgetModel, j: JobModel) -> bool {
    m.reserve_split(j.priority, j.estimated_cost) is Some
}

/// Queue of jobs awaiting dispatch, in schedule-key order.
#[derive(Debug)]
pub struct InfoScheduler {
    jobs: Vec<InfoJob>,
}

impl View for InfoScheduler {
    type V = Seq<JobModel>;

    closed spec fn view(&self) -> Seq<JobModel> {
        self.jobs@.map_values(|j: InfoJob| j@)
    }
}

impl InfoScheduler {
    #[verifier::type_invariant]
    closed spec fn inv(self) -> bool {
        &&& jobs_sorted(self@)
        &&& ids_distinct(self@)
        &&& forall|i: int| 0 <= i < self@.len() ==> valid_job(#[trigger] self@[i])
    }

    pub fn new() -> (r: Self)
        ensures
            r@ == Seq::<JobModel>::empty(),
    {
        let r = InfoScheduler { jobs: Vec::new() };
        assert(r@ =~= Seq::<JobModel>::empty());
        r
    }

    pub fn len(&self) -> (r: usize)
        ensures
            r == self@.len(),
    {
        self.jobs.len()
    }

    pub fn is_empty(&self) -> (r: bool)
        ensures
            r == (self@.len() == 0),
    {
        self.jobs.len() == 0
    }

    /// Queues `job`, refusing a job whose id is already queued.
    pub fn enqueue(&mut self, job: InfoJob) -> (r: Result<(), SchedulerError>)
        ensures
            has_id(old(self)@, job@.id) ==> r == Err::<(), SchedulerError>(
                SchedulerError::DuplicateJob,
            ) && final(self)@ == old(self)@,
            !has_id(old(self)@, job@.id) ==> {
                &&& r == Ok::<(), SchedulerError>(())
                &&& final(self)@.len() == old(self)@.len() + 1
                &&& forall|x: JobModel| #[trigger]
                    final(self)@.contains(x) <==> (old(self)@.contains(x) || x == job@)
            },
            jobs_sorted(final(self)@),
            ids_distinct(final(self)@),
    {
        proof {
            use_type_invariant(&*self);
            use_type_invariant(&job);
        }
        let ghost s = self@;
        let n = self.jobs.len();
        let mut i: usize = 0;
        while i < n
            invariant
                n == self.jobs.len(),
                s == self@,
                i <= n,
                jobs_sorted(s),
                ids_distinct(s),
                forall|k: int| 0 <= k < i ==> (#[trigger] s[k]).id != job@.id,
            decreases n - i,
        {
            let same = {
                let a = chars_of(self.jobs[i].id.as_str());
                let b = chars_of(job.id.as_str());
                crate::text::seq_eq(&a, &b)
            };
            assert(s[i as int] == self.jobs@[i as int]@);
            if same {
                assert(s[i as int].id == job@.id);
                return Err(SchedulerError::DuplicateJob);
            }
            i = i + 1;
        }
        let mut pos: usize = 0;
        while pos < n && self.jobs[pos].schedules_before(&job)
            invariant
                n == self.jobs.len(),
                s == self@,
                pos <= n,
                forall|k: int| 0 <= k < pos ==> key_lt(#[trigger] s[k], job@),
            decreases n - pos,
        {
            assert(s[pos as int] == self.jobs@[pos as int]@);
            pos = pos + 1;
        }
        proof {
            if pos < n {
                assert(s[pos as int] == self.jobs@[pos as int]@);
                assert(!key_lt(s[pos as int], job@));
                lemma_key_lt_total(s[pos as int], job@);
                assert forall|k: int| pos <= k < n implies key_lt(job@, #[trigger] s[k]) by {
                    if k > pos {
                        lemma_key_lt_transitive(job@, s[pos as int], s[k]);
                    }
                }
            }
        }
        let ghost jm = job@;
        let mut jobs: Vec<InfoJob> = Vec::new();
        std::mem::swap(&mut jobs, &mut self.jobs);
        jobs.insert(pos, job);
        let ghost t = jobs@.map_values(|j: InfoJob| j@);
        proof {
            assert(t =~= s.insert(pos as int, jm));
            assert forall|a: int, b: int| 0 <= a < b < t.len() implies key_lt(
                #[trigger] t[a],
                #[trigger] t[b],
            ) by {
                if b < pos {
                } else if b == pos {
                } else if a < pos {
                    assert(t[b] == s[b - 1]);
                } else if a == pos {
                    assert(t[b] == s[b - 1]);
                } else {
                    assert(t[a] == s[a - 1]);
                    assert(t[b] == s[b - 1]);
                }
            }
            assert forall|a: int, b: int| 0 <= a < b < t.len() implies (#[trigger] t[a]).id != (
            #[trigger] t[b]).id by {
                if a < pos && b == pos {
                } else if a == pos {
                    assert(t[b] == s[b - 1]);
                } else if b == pos {
                } else if a < pos && b > pos {
                    assert(t[b] == s[b - 1]);
                } else if a > pos {
                    assert(t[a] == s[a - 1]);
                    assert(t[b] == s[b - 1]);
                }
            }
            assert forall|x: JobModel| #[trigger] t.contains(x) <==> (s.contains(x) || x == jm) by {
                if t.contains(x) {
                    let k = choose|k: int| 0 <= k < t.len() && t[k] == x;
                    if k < pos {
                        assert(s[k] == x);
                    } else if k > pos {
                        assert(s[k - 1] == x);
                    }
                }
                if s.contains(x) {
                    let k = choose|k: int| 0 <= k < s.len() && s[k] == x;
                    if k < pos {
                        assert(t[k] == x);
                    } else {
                        assert(t[k + 1] == x);
                    }
                }
                if x == jm {
                    assert(t[pos as int] == x);
                }
            }
            assert(!has_id(s, jm.id));
        }
        self.jobs = jobs;
        Ok(())
    }

    /// Starts the first queued job, in schedule-key order, that the budget can afford at
    /// `now_millis`. An open circuit stops dispatch; an empty queue leaves the budget alone.
    pub fn dispatch(&mut self, budget: &mut RequestBudget, now_millis: u64) -> (r: Result<
        Option<InFlight>,
        SchedulerError,
    >)
        ensures
            jobs_sorted(final(self)@),
            ids_distinct(final(self)@),
            old(self)@.len() == 0 ==> {
                &&& r matches Ok(None)
                &&& final(budget)@ == old(budget)@
                &&& final(self)@ == old(self)@
            },
            old(self)@.len() > 0 ==> ({
                let s = old(self)@;
                let m = old(budget)@.refilled(now_millis);
                if m.circuit_open_at(now_millis) {
                    &&& r == Err::<Option<InFlight>, SchedulerError>(SchedulerError::CircuitOpen)
                    &&& final(budget)@ == m
                    &&& final(self)@ == s
                } else if forall|k: int| 0 <= k < s.len() ==> !affordable(m, #[trigger] s[k]) {
                    &&& r matches Ok(None)
                    &&& final(budget)@ == m
                    &&& final(self)@ == s
                } else {
                    exists|i: int|
                        0 <= i < s.len() && affordable(m, #[trigger] s[i]) && (forall|k: int|
                            0 <= k < i ==> !affordable(m, #[trigger] s[k])) && (r matches Ok(
                            Some(f),
                        ) && f.spec_job() == s[i] && f.spec_lease().spec_job_id() == s[i].id
                            && f.spec_lease().spec_reserved() == s[i].estimated_cost
                            && f.spec_lease().spec_egress_id() == m.egress_id)
                            && final(self)@ == s.remove(i) && final(budget)@ == m.drawn(
                            m.reserve_split(s[i].priority, s[i].estimated_cost)->Some_0,
                        )
                }
            }),
    {
        proof {
            use_type_invariant(&*self);
            crate::request_budget::law_refill_idempotent(old(budget)@, now_millis);
        }
        let ghost s = self@;
        let ghost m = old(budget)@.refilled(now_millis);
        let n = self.jobs.len();
        let mut i: usize = 0;
        while i < n
            invariant
                n == self.jobs.len(),
                s == self@,
                s == old(self)@,
                jobs_sorted(s),
                ids_distinct(s),
                forall|k: int| 0 <= k < s.len() ==> valid_job(#[trigger] s[k]),
                m == old(budget)@.refilled(now_millis),
                m.refilled(now_millis) == m,
                i <= n,
                i == 0 ==> budget@ == old(budget)@,
                i > 0 ==> budget@ == m && !m.circuit_open_at(now_millis),
                forall|k: int| 0 <= k < i ==> !affordable(m, #[trigger] s[k]),
            decreases n - i,
        {
            assert(s[i as int] == self.jobs@[i as int]@);
            assert(valid_job(s[i as int]));
            let outcome = budget.reserve(
                now_millis,
                self.jobs[i].id.as_str(),
                self.jobs[i].priority,
                self.jobs[i].estimated_cost,
            );
            match outcome {
                Ok(lease) => {
                    let mut jobs: Vec<InfoJob> = Vec::new();
                    std::mem::swap(&mut jobs, &mut self.jobs);
                    let job = jobs.remove(i);
                    assert(job@ == s[i as int]);
                    assert(affordable(m, s[i as int]));
                    proof {
                        let t = jobs@.map_values(|j: InfoJob| j@);
                        assert(t =~= s.remove(i as int));
                        assert forall|a: int, b: int| 0 <= a < b < t.len() implies key_lt(
                            #[trigger] t[a],
                            #[trigger] t[b],
                        ) by {
                            if a >= i {
                                assert(t[a] == s[a + 1]);
                            }
                            if b >= i {
                                assert(t[b] == s[b + 1]);
                            }
                        }
                        assert forall|a: int, b: int| 0 <= a < b < t.len() implies (
                        #[trigger] t[a]).id != (#[trigger] t[b]).id by {
                            if a >= i {
                                assert(t[a] == s[a + 1]);
                            }
                            if b >= i {
                                assert(t[b] == s[b + 1]);
                            }
                        }
                        assert forall|k: int| 0 <= k < t.len() implies valid_job(#[trigger] t[k]) by {
                            if k >= i {
                                assert(t[k] == s[k + 1]);
                            }
                        }
                    }
                    self.jobs = jobs;
                    return Ok(Some(InFlight { job, lease }));
                },
                Err(BudgetError::Insufficient) => {},
                Err(BudgetError::CircuitOpen) => {
                    return Err(SchedulerError::CircuitOpen);
                },
                Err(e) => {
                    return Err(SchedulerError::Budget(e));
                },
            }
            i = i + 1;
        }
        Ok(None)
    }

    /// Settles a finished job's lease at its actual cost and hands the job back.
    pub fn complete(
        &mut self,
        budget: &mut RequestBudget,
        inflight: InFlight,
        actual_cost: u32,
        now_millis: u64,
    ) -> (r: Result<InfoJob, SchedulerError>)
        ensures
            final(self)@ == old(self)@,
            ({
                let m = old(budget)@.refilled(now_millis);
                let lease = inflight.spec_lease();
                if lease.spec_egress_id() != m.egress_id {
                    &&& r == Err::<InfoJob, SchedulerError>(
                        SchedulerError::Budget(BudgetError::LeaseMismatch),
                    )
                    &&& final(budget)@ == m
                } else if actual_cost <= lease.spec_reserved() {
                    &&& r matches Ok(j) && j@ == inflight.spec_job()
                    &&& final(budget)@ == m.refunded(
                        lease.spec_from_priority(),
                        lease.spec_from_general(),
                        (lease.spec_reserved() - actual_cost) as u32,
                    ).succeeded()
                } else {
                    match m.charged_extra(
                        lease.spec_protected(),
                        (actual_cost - lease.spec_reserved()) as u32,
                    ) {
                        None => {
                            &&& r == Err::<InfoJob, SchedulerError>(
                                SchedulerError::Budget(BudgetError::Insufficient),
                            )
                            &&& final(budget)@ == m
                        },
                        Some(charged) => {
                            &&& r matches Ok(j) && j@ == inflight.spec_job()
                            &&& final(budget)@ == charged.succeeded()
                        },
                    }
                }
            }),
    {
        let InFlight { job, lease } = inflight;
        match budget.commit(now_millis, lease, actual_cost) {
            Ok(()) => Ok(job),
            Err(e) => Err(SchedulerError::Budget(e)),
        }
    }

    /// Returns a dispatched job's lease unused and hands the job back.
    pub fn cancel(&mut self, budget: &mut RequestBudget, inflight: InFlight, now_millis: u64) -> (r:
        Result<InfoJob, SchedulerError>)
        ensures
            final(self)@ == old(self)@,
            ({
                let m = old(budget)@.refilled(now_millis);
                let lease = inflight.spec_lease();
                if lease.spec_egress_id() != m.egress_id {
                    &&& r == Err::<InfoJob, SchedulerError>(
                        SchedulerError::Budget(BudgetError::LeaseMismatch),
                    )
                    &&& final(budget)@ == m
                } else {
                    &&& r matches Ok(j) && j@ == inflight.spec_job()
                    &&& final(budget)@ == m.refunded(
                        lease.spec_from_priority(),
                        lease.spec_from_general(),
                        lease.spec_reserved(),
                    )
                }
            }),
    {
        let InFlight { job, lease } = inflight;
        match budget.release(now_millis, lease) {
            Ok(()) => Ok(job),
            Err(e) => Err(SchedulerError::Budget(e)),
        }
    }

    /// Releases every in-flight lease and empties the queue. Stops at the first lease that
    /// does not belong to the budget, leaving the queue as it was.
    pub fn shutdown(
        &mut self,
        budget: &mut RequestBudget,
        inflight: Vec<InFlight>,
        now_millis: u64,
    ) -> (r: Result<(), SchedulerError>)
        ensures
            jobs_sorted(final(self)@),
            ids_distinct(final(self)@),
            match release_all(old(budget)@, now_millis, inflight@) {
                Ok(m) => r == Ok::<(), SchedulerError>(()) && final(budget)@ == m
                    && final(self)@.len() == 0,
                Err(m) => r == Err::<(), SchedulerError>(
                    SchedulerError::Budget(BudgetError::LeaseMismatch),
                ) && final(budget)@ == m && final(self)@ == old(self)@,
            },
    {
        proof {
            use_type_invariant(&*self);
        }
        let ghost all = inflight@;
        let count = inflight.len();
        let mut rest = inflight;
        let ghost total = release_all(old(budget)@, now_millis, all);
        let mut done: usize = 0;
        assert(all.skip(0) =~= all);
        while rest.len() > 0
            invariant
                rest@.len() + done == all.len(),
                all.len() == count,
                all == inflight@,
                total == release_all(old(budget)@, now_millis, all),
                rest@ == all.skip(done as int),
                release_all(budget@, now_millis, all.skip(done as int)) == total,
                jobs_sorted(self@),
                ids_distinct(self@),
                self@ == old(self)@,
            decreases rest@.len(),
        {
            let item = rest.remove(0);
            assert(item == all[done as int]);
            assert(all.skip(done as int).drop_first() =~= all.skip(done + 1));
            let ghost pre = budget@;
            match budget.release(now_millis, item.lease) {
                Ok(()) => {},
                Err(e) => {
                    assert(all.skip(done as int)[0] == item);
                    assert(release_all(pre, now_millis, all.skip(done as int)) == Err::<
                        BudgetModel,
                        BudgetModel,
                    >(pre.refilled(now_millis)));
                    return Err(SchedulerError::Budget(e));
                },
            }
            assert(all.skip(done as int)[0] == item);
            done = done + 1;
        }
        assert(all.skip(done as int) =~= Seq::<InFlight>::empty());
        self.jobs = Vec::new();
        assert(self@ =~= Seq::<JobModel>::empty());
        Ok(())
    }

    /// Records a 429 for a dispatched job; gives the time the circuit reopens.
    pub fn on_429(&mut self, budget: &mut RequestBudget, inflight: InFlight, now_millis: u64) -> (r:
        Result<u64, SchedulerError>)
        ensures
            final(self)@ == old(self)@,
            ({
                let m = old(budget)@.refilled(now_millis);
                if inflight.spec_lease().spec_egress_id() != m.egress_id {
                    &&& r == Err::<u64, SchedulerError>(
                        SchedulerError::Budget(BudgetError::LeaseMismatch),
                    )
                    &&& final(budget)@ == m
                } else {
                    &&& final(budget)@ == m.throttled(now_millis)
                    &&& r == Ok::<u64, SchedulerError>(
                        final(budget)@.circuit_open_until_millis->Some_0,
                    )
                }
            }),
    {
        let InFlight { job: _, lease } = inflight;
        match budget.on_429(now_millis, lease) {
            Ok(until) => Ok(until),
            Err(e) => Err(SchedulerError::Budget(e)),
        }
    }
}


/// The budget after releasing each lease in turn at `now`; `Err` carries the budget at the
/// first lease that belongs to another egress.
pub open spec fn release_all(m: BudgetModel, now: u64, items: Seq<InFlight>) -> Result<
    BudgetModel,
    BudgetModel,
>
    decreases items.len(),
{
    if items.len() == 0 {
        Ok(m)
    } else {
        let r = m.refilled(now);
        let lease = items[0].spec_lease();
        if lease.spec_egress_id() != r.egress_id {
            Err(r)
        } else {
            release_all(
                r.refunded(lease.spec_from_priority(), lease.spec_from_general(), lease.spec_reserved()),
                now,
                items.drop_first(),
            )
        }
    }
}

/// Why a time-page crawl stopped.
#[derive(Debug, Clone, Copy, PartialEq, Eq, Structural)]
pub enum TimePageStopReason {
    Exhausted,
    EmptyVenue,
    EndOfStream,
    SameMillisecondBurst,
    Truncated,
    BudgetExhausted,
    Incomplete,
}

/// One record of a time-paged `/info` response.
#[derive(Debug, Clone, PartialEq, Eq)]
pub struct OwnedPageRecord {
    time_millis: i64,
    stable_id: Option<String>,
    payload: Vec<u8>,
}

impl OwnedPageRecord {
    pub closed spec fn spec_time_millis(&self) -> i64 {
        self.time_millis
    }

    pub closed spec fn spec_stable_id(&self) -> Option<Seq<char>> {
        match self.stable_id {
            Some(id) => Some(id@),
            None => None,
        }
    }

    pub closed spec fn spec_payload(&self) -> Seq<u8> {
        self.payload@
    }

    /// A record from the fields read out of one page item: its time must not be negative
    /// and its encoding must not be empty.
    pub fn try_new(time_millis: i64, stable_id: Option<String>, payload: Vec<u8>) -> (r: Result<
        Self,
        SchedulerError,
    >)
        ensures
            time_millis < 0 || payload@.len() == 0 ==> r == Err::<Self, SchedulerError>(
                SchedulerError::NotAPage,
            ),
            time_millis >= 0 && payload@.len() > 0 ==> (r matches Ok(rec) && rec.spec_time_millis()
                == time_millis && rec.spec_payload() == payload@ && rec.spec_stable_id() == match stable_id {
                Some(id) => Some(id@),
                None => None::<Seq<char>>,
            }),
    {
        if time_millis < 0 || payload.len() == 0 {
            return Err(SchedulerError::NotAPage);
        }
        Ok(OwnedPageRecord { time_millis, stable_id, payload })
    }

    pub fn time_millis(&self) -> (r: i64)
        ensures
            r == self.spec_time_millis(),
    {
        self.time_millis
    }

    pub fn stable_id(&self) -> (r: Option<&str>)
        ensures
            match r {
                Some(s) => self.spec_stable_id() == Some(s@),
                None => self.spec_stable_id() is None,
            },
    {
        match &self.stable_id {
            Some(id) => Some(id.as_str()),
            None => None,
        }
    }

    pub fn payload(&self) -> (r: &[u8])
        ensures
            r@ == self.spec_payload(),
    {
        self.payload.as_slice()
    }
}

/// Weight a priority may still spend: both pools for protected priorities, the general
/// pool otherwise.
pub open spec fn remaining_in(m: BudgetModel, priority: SchedulePriority) -> u32 {
    if priority.spec_is_protected() {
        sat_add_u32(m.available_priority, m.available_general)
    } else {
        m.available_general
    }
}

/// Rows to reserve for one page: none if even the base does not fit; otherwise as many as
/// the page may hold and the remaining weight pays for.
pub open spec fn row_estimate(cost: RequestCost, page_limit: u32, remaining: u32) -> Option<u32> {
    if remaining < cost.spec_base() {
        None
    } else if cost.spec_variable() is None {
        Some(0u32)
    } else if page_limit <= remaining - cost.spec_base() {
        Some(page_limit)
    } else {
        Some((remaining - cost.spec_base()) as u32)
    }
}

/// Spendable weight for `priority` after refilling to `now_millis`.
pub fn remaining_weight(budget: &mut RequestBudget, now_millis: u64, priority: SchedulePriority) -> (r:
    u32)
    ensures
        final(budget)@ == old(budget)@.refilled(now_millis),
        r == remaining_in(old(budget)@.refilled(now_millis), priority),
{
    let snap = budget.snapshot(now_millis);
    if priority.is_protected() {
        snap.available_total()
    } else {
        snap.available_general()
    }
}

pub fn negotiated_row_estimate(cost: RequestCost, page_limit: u32, remaining: u32) -> (r: Option<
    u32,
>)
    ensures
        r == row_estimate(cost, page_limit, remaining),
{
    if remaining < cost.base() {
        return None;
    }
    if cost.variable().is_none() {
        return Some(0);
    }
    let room = remaining - cost.base();
    Some(
        if page_limit <= room {
            page_limit
        } else {
            room
        },
    )
}

/// One attempt to reserve a page at `t`: the budget afterwards, and `None` to try again,
/// or the reserved weight, or the error that ends the attempts.
pub open spec fn page_try(
    m: BudgetModel,
    t: u64,
    job_id: Seq<char>,
    priority: SchedulePriority,
    cost: RequestCost,
    page_limit: u32,
) -> (BudgetModel, Option<Result<u32, BudgetError>>) {
    let a = m.refilled(t);
    match row_estimate(cost, page_limit, remaining_in(a, priority)) {
        None => (a, None),
        Some(rows) => {
            let w = cost.weight_for(rows);
            if a.circuit_open_at(t) {
                (a, Some(Err(BudgetError::CircuitOpen)))
            } else if w == 0 || job_id.len() == 0 {
                (a, Some(Err(BudgetError::InvalidLease)))
            } else {
                match a.reserve_split(priority, w) {
                    None => (a, None),
                    Some(split) => (a.drawn(split), Some(Ok(w))),
                }
            }
        },
    }
}

/// How a finished attempt maps to the crawl's result.
pub open spec fn page_outcome_ok(o: Result<u32, BudgetError>, r: Result<BudgetLease, SchedulerError>) -> bool {
    match o {
        Ok(w) => r matches Ok(lease) && lease.spec_reserved() == w,
        Err(BudgetError::CircuitOpen) => r == Err::<BudgetLease, SchedulerError>(
            SchedulerError::CircuitOpen,
        ),
        Err(e) => r == Err::<BudgetLease, SchedulerError>(SchedulerError::Budget(e)),
    }
}

/// One reservation attempt at `t`; `None` means try again later.
fn try_page_at(
    budget: &mut RequestBudget,
    job_id: &str,
    priority: SchedulePriority,
    cost: RequestCost,
    limit: u32,
    t: u64,
) -> (r: Option<Result<BudgetLease, SchedulerError>>)
    ensures
        ({
            let p = page_try(old(budget)@, t, job_id@, priority, cost, limit);
            &&& final(budget)@ == p.0
            &&& p.1 is None ==> r is None
            &&& p.1 is Some ==> (r matches Some(out) && page_outcome_ok(p.1->Some_0, out))
        }),
{
    proof {
        crate::request_budget::law_refill_idempotent(old(budget)@, t);
    }
    let remaining = remaining_weight(budget, t, priority);
    match negotiated_row_estimate(cost, limit, remaining) {
        None => None,
        Some(rows) => {
            let reserved = cost.estimated_weight(rows);
            match budget.reserve(t, job_id, priority, reserved) {
                Ok(lease) => Some(Ok(lease)),
                Err(BudgetError::Insufficient) => None,
                Err(BudgetError::CircuitOpen) => Some(Err(SchedulerError::CircuitOpen)),
                Err(e) => Some(Err(SchedulerError::Budget(e))),
            }
        },
    }
}

/// Reserves the weight of one page; when it does not fit, waits one refill period and
/// tries once more, moving `now` forward.
pub fn reserve_page(
    budget: &mut RequestBudget,
    job_id: &str,
    priority: SchedulePriority,
    cost: RequestCost,
    page_limit: usize,
    now: &mut u64,
) -> (r: Result<BudgetLease, SchedulerError>)
    ensures
        ({
            let limit: u32 = if page_limit > u32::MAX as usize {
                u32::MAX
            } else {
                page_limit as u32
            };
            let first = page_try(old(budget)@, *old(now), job_id@, priority, cost, limit);
            let later = crate::request_budget::sat_add_u64(*old(now), 60_000);
            let second = page_try(first.0, later, job_id@, priority, cost, limit);
            if first.1 is Some {
                &&& page_outcome_ok(first.1->Some_0, r)
                &&& final(budget)@ == first.0
                &&& *final(now) == *old(now)
            } else if second.1 is Some {
                &&& page_outcome_ok(second.1->Some_0, r)
                &&& final(budget)@ == second.0
                &&& *final(now) == later
            } else {
                &&& r == Err::<BudgetLease, SchedulerError>(
                    SchedulerError::Budget(BudgetError::Insufficient),
                )
                &&& final(budget)@ == second.0
                &&& *final(now) == later
            }
        }),
{
    let limit: u32 = if page_limit > u32::MAX as usize {
        u32::MAX
    } else {
        page_limit as u32
    };
    let first = try_page_at(budget, job_id, priority, cost, limit, *now);
    if let Some(outcome) = first {
        return outcome;
    }
    *now = now.saturating_add(60_000);
    let second = try_page_at(budget, job_id, priority, cost, limit, *now);
    if let Some(outcome) = second {
        return outcome;
    }
    Err(SchedulerError::Budget(BudgetError::Insufficient))
}

#[derive(Debug, Clone, Copy, PartialEq, Eq)]
pub enum SchedulerError {
    InvalidJob,
    DuplicateJob,
    CircuitOpen,
    RateLimited,
    AdvancedByOneMillisecond,
    InvalidCursor,
    NotAPage,
    Budget(BudgetError),
    Egress(EgressError),
}

impl SchedulerError {
    pub open spec fn reason(self) -> Seq<char> {
        match self {
            SchedulerError::InvalidJob => "capture_info.invalid_job"@,
            SchedulerError::DuplicateJob => "capture_info.duplicate_job"@,
            SchedulerError::CircuitOpen => "capture_info.circuit_open"@,
            SchedulerError::RateLimited => "capture_info.rate_limited"@,
            SchedulerError::AdvancedByOneMillisecond => "capture_info.advanced_by_one_ms"@,
            SchedulerError::InvalidCursor => "capture_info.invalid_cursor"@,
            SchedulerError::NotAPage => "capture_info.not_a_page"@,
            SchedulerError::Budget(e) => e.reason(),
            SchedulerError::Egress(e) => e.reason(),
        }
    }

    /// Stable machine-readable code of the error.
    pub fn reason_code(&self) -> (r: &'static str)
        ensures
            r@ == self.reason(),
    {
        match self {
            SchedulerError::InvalidJob => "capture_info.invalid_job",
            SchedulerError::DuplicateJob => "capture_info.duplicate_job",
            SchedulerError::CircuitOpen => "capture_info.circuit_open",
            SchedulerError::RateLimited => "capture_info.rate_limited",
            SchedulerError::AdvancedByOneMillisecond => "capture_info.advanced_by_one_ms",
            SchedulerError::InvalidCursor => "capture_info.invalid_cursor",
            SchedulerError::NotAPage => "capture_info.not_a_page",
            SchedulerError::Budget(e) => e.reason_code(),
            SchedulerError::Egress(e) => e.reason_code(),
        }
    }
}

/// Between two jobs of the same priority and deadline, the one with the higher risk score
/// is scheduled first.
pub proof fn law_riskier_job_first(a: JobModel, b: JobModel)
    requires
        a.priority.spec_rank() == b.priority.spec_rank(),
        a.deadline_millis == b.deadline_millis,
        a.risk_score > b.risk_score,
    ensures
        key_lt(a, b),
        !key_lt(b, a),
{
}

/// In a queue in schedule order, a job of the same priority and deadline as another but
/// with a higher risk score stands before it, so dispatch, which takes the first job it can
/// afford, offers it first.
pub proof fn law_queue_puts_riskier_job_first(s: Seq<JobModel>, i: int, j: int)
    requires
        jobs_sorted(s),
        0 <= i < s.len(),
        0 <= j < s.len(),
        s[i].priority.spec_rank() == s[j].priority.spec_rank(),
        s[i].deadline_millis == s[j].deadline_millis,
        s[i].risk_score > s[j].risk_score,
    ensures
        i < j,
{
    if j < i {
        assert(key_lt(s[j], s[i]));
    }
}

} // verus!
