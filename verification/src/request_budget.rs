//! Per-egress request-weight budget for the official `/info` endpoint.
//!
//! The envelope (70–80 % of the ceiling) is split into a priority pool, used first by
//! protected jobs, and a general pool. Both refill linearly over one minute. A 429 empties
//! both pools and opens a circuit for an exponential, seeded-jitter backoff.

use vstd::prelude::*;

use crate::text::{
    all_digits, chars_of, decimal, parse_digits_u64, same_text, seq_all_digits, seq_eq,
    is_trimmed, owned, seq_starts_with, split_words, starts_with, trimmed, words,
};

verus! {

pub const OFFICIAL_REST_WEIGHT_PER_MINUTE: u32 = 1_200;

pub const REFILL_PERIOD_MILLIS: u64 = 60_000;

/// Scheduling priority; `P0` is the most urgent.
#[derive(Debug, Clone, Copy, PartialEq, Eq, Structural, PartialOrd, Ord)]
pub enum SchedulePriority {
    P0,
    P1,
    P2,
    P3,
    P4,
    P5,
}

impl SchedulePriority {
    /// Position of the priority in urgency order, `P0` first.
    pub open spec fn spec_rank(self) -> u8 {
        match self {
            SchedulePriority::P0 => 0,
            SchedulePriority::P1 => 1,
            SchedulePriority::P2 => 2,
            SchedulePriority::P3 => 3,
            SchedulePriority::P4 => 4,
            SchedulePriority::P5 => 5,
        }
    }

    pub open spec fn spec_is_protected(self) -> bool {
        self is P0 || self is P1
    }

    #[verifier::when_used_as_spec(spec_rank)]
    pub fn rank(self) -> (r: u8)
        ensures
            r == self.spec_rank(),
    {
        match self {
            SchedulePriority::P0 => 0,
            SchedulePriority::P1 => 1,
            SchedulePriority::P2 => 2,
            SchedulePriority::P3 => 3,
            SchedulePriority::P4 => 4,
            SchedulePriority::P5 => 5,
        }
    }

    /// `P0` and `P1` may draw from the priority reserve.
    #[verifier::when_used_as_spec(spec_is_protected)]
    pub fn is_protected(self) -> (r: bool)
        ensures
            r == self.spec_is_protected(),
    {
        match self {
            SchedulePriority::P0 | SchedulePriority::P1 => true,
            _ => false,
        }
    }
}

#[derive(Debug, Clone, Copy, PartialEq, Eq, Structural)]
pub enum VariableCost {
    Window,
}

/// A request's weight: a fixed base plus, for windowed requests, one per returned row.
#[derive(Debug, Clone, Copy, PartialEq, Eq, Structural)]
pub struct RequestCost {
    base: u32,
    variable: Option<VariableCost>,
}

/// `a + b` clamped to `u32::MAX`.
pub open spec fn sat_add_u32(a: u32, b: u32) -> u32 {
    if a + b > u32::MAX {
        u32::MAX
    } else {
        (a + b) as u32
    }
}

/// `a + b` clamped to `u64::MAX`.
pub open spec fn sat_add_u64(a: u64, b: u64) -> u64 {
    if a + b > u64::MAX {
        u64::MAX
    } else {
        (a + b) as u64
    }
}

/// `a * b` clamped to `u64::MAX`.
pub open spec fn sat_mul_u64(a: u64, b: u64) -> u64 {
    if a * b > u64::MAX {
        u64::MAX
    } else {
        (a * b) as u64
    }
}

pub open spec fn min_u32(a: u32, b: u32) -> u32 {
    if a <= b {
        a
    } else {
        b
    }
}

impl RequestCost {
    pub closed spec fn spec_base(self) -> u32 {
        self.base
    }

    pub closed spec fn spec_variable(self) -> Option<VariableCost> {
        self.variable
    }

    /// Weight of a request that returns `rows` rows.
    pub open spec fn weight_for(self, rows: u32) -> u32 {
        match self.spec_variable() {
            None => self.spec_base(),
            Some(VariableCost::Window) => sat_add_u32(self.spec_base(), rows),
        }
    }

    #[verifier::when_used_as_spec(spec_base)]
    pub fn base(self) -> (r: u32)
        ensures
            r == self.spec_base(),
    {
        self.base
    }

    #[verifier::when_used_as_spec(spec_variable)]
    pub fn variable(self) -> (r: Option<VariableCost>)
        ensures
            r == self.spec_variable(),
    {
        self.variable
    }

    pub fn estimated_weight(self, estimated_rows: u32) -> (r: u32)
        ensures
            r == self.weight_for(estimated_rows),
    {
        match self.variable {
            None => self.base,
            Some(VariableCost::Window) => self.base.saturating_add(estimated_rows),
        }
    }

    pub fn actual_weight(self, actual_rows: u32) -> (r: u32)
        ensures
            r == self.weight_for(actual_rows),
    {
        self.estimated_weight(actual_rows)
    }
}

/// The identifiers that weigh 2 in the official rate-limit table.
pub open spec fn is_weight_two_identifier(s: Seq<char>) -> bool {
    ||| s == "allMids"@
    ||| s == "clearinghouseState"@
    ||| s == "exchangeStatus"@
    ||| s == "l2Book"@
    ||| s == "orderStatus"@
    ||| s == "spotClearinghouseState"@
}

/// Base weight of an `/info` request type in the official rate-limit table.
pub open spec fn base_weight_of(s: Seq<char>) -> u32 {
    if is_weight_two_identifier(s) {
        2
    } else if s == "userRole"@ {
        60
    } else {
        20
    }
}

pub fn spec_12_1_base_weight(identifier: &str) -> (r: u32)
    ensures
        r == base_weight_of(identifier@),
{
    if same_text(identifier, "allMids") || same_text(identifier, "clearinghouseState")
        || same_text(identifier, "exchangeStatus") || same_text(identifier, "l2Book")
        || same_text(identifier, "orderStatus") || same_text(identifier, "spotClearinghouseState") {
        2
    } else if same_text(identifier, "userRole") {
        60
    } else {
        20
    }
}

/// The digits of a `base:<digits>` word.
pub open spec fn base_digits(word: Seq<char>) -> Seq<char> {
    word.skip(5)
}

/// What a cost specification `base:<n> [variable:window]` denotes, if it is well formed.
pub open spec fn cost_spec_value(s: Seq<char>) -> Option<(u32, Option<VariableCost>)> {
    let w = words(s);
    if w.len() == 0 || w.len() > 2 || !starts_with(w[0], "base:"@) {
        None
    } else {
        let d = base_digits(w[0]);
        if d.len() == 0 || !all_digits(d) || decimal(d) > u32::MAX || decimal(d) == 0 {
            None
        } else if w.len() == 2 && w[1] != "variable:window"@ {
            None
        } else {
            Some(
                (
                    decimal(d) as u32,
                    if w.len() == 2 {
                        Some(VariableCost::Window)
                    } else {
                        None
                    },
                ),
            )
        }
    }
}

fn literal_chars(s: &str) -> (r: Vec<char>)
    ensures
        r@ == s@,
{
    chars_of(s)
}

/// Parses `base:<n>` optionally followed by `variable:window`.
pub fn parse_request_cost(spec: &str) -> (r: Result<RequestCost, BudgetError>)
    ensures
        match cost_spec_value(spec@) {
            Some((base, variable)) => r matches Ok(c) && c.base() == base && c.variable()
                == variable,
            None => r == Err::<RequestCost, BudgetError>(BudgetError::InvalidCost),
        },
{
    let v = chars_of(spec);
    let w = split_words(&v);
    proof {
        assert(w.deep_view().len() == w@.len());
        assert forall|i: int| 0 <= i < w@.len() implies w.deep_view()[i] == #[trigger] w@[i]@ by {
            assert(w@[i].deep_view() =~= w@[i]@);
        }
    }
    if w.len() == 0 || w.len() > 2 {
        return Err(BudgetError::InvalidCost);
    }
    let prefix = literal_chars("base:");
    if !seq_starts_with(&w[0], &prefix) {
        return Err(BudgetError::InvalidCost);
    }
    let first = &w[0];
    proof {
        reveal_strlit("base:");
    }
    let mut digits: Vec<char> = Vec::new();
    let mut i: usize = 5;
    while i < first.len()
        invariant
            5 <= i <= first.len(),
            digits@ == first@.subrange(5, i as int),
        decreases first.len() - i,
    {
        digits.push(first[i]);
        i = i + 1;
    }
    assert(digits@ =~= base_digits(first@));
    if digits.len() == 0 || !seq_all_digits(&digits) {
        return Err(BudgetError::InvalidCost);
    }
    let base = match parse_digits_u64(&digits) {
        Some(n) => {
            if n > u32::MAX as u64 || n == 0 {
                return Err(BudgetError::InvalidCost);
            }
            n as u32
        },
        None => {
            return Err(BudgetError::InvalidCost);
        },
    };
    let variable = if w.len() == 2 {
        let window = literal_chars("variable:window");
        if !seq_eq(&w[1], &window) {
            return Err(BudgetError::InvalidCost);
        }
        Some(VariableCost::Window)
    } else {
        None
    };
    Ok(RequestCost { base, variable })
}

/// Parses a cost and checks that its base matches the official table for `identifier`.
pub fn request_cost_for_identifier(identifier: &str, spec: &str) -> (r: Result<
    RequestCost,
    BudgetError,
>)
    ensures
        match cost_spec_value(spec@) {
            Some((base, variable)) => if base == base_weight_of(identifier@) {
                r matches Ok(c) && c.base() == base && c.variable() == variable
            } else {
                r == Err::<RequestCost, BudgetError>(BudgetError::CostMismatch)
            },
            None => r == Err::<RequestCost, BudgetError>(BudgetError::InvalidCost),
        },
{
    let cost = match parse_request_cost(spec) {
        Ok(cost) => cost,
        Err(e) => {
            return Err(e);
        },
    };
    if cost.base != spec_12_1_base_weight(identifier) {
        return Err(BudgetError::CostMismatch);
    }
    Ok(cost)
}

#[derive(Debug, Clone, Copy, PartialEq, Eq, Structural)]
pub enum BudgetError {
    InvalidCost,
    CostMismatch,
    InvalidConfig,
    Insufficient,
    CircuitOpen,
    LeaseMismatch,
    InvalidLease,
}

impl BudgetError {
    pub open spec fn reason(self) -> Seq<char> {
        match self {
            BudgetError::InvalidCost => "capture_info.invalid_cost"@,
            BudgetError::CostMismatch => "capture_info.cost_mismatch"@,
            BudgetError::InvalidConfig => "capture_info.invalid_budget"@,
            BudgetError::Insufficient => "capture_info.insufficient_budget"@,
            BudgetError::CircuitOpen => "capture_info.circuit_open"@,
            BudgetError::LeaseMismatch => "capture_info.lease_mismatch"@,
            BudgetError::InvalidLease => "capture_info.invalid_lease"@,
        }
    }

    /// Stable machine-readable code of the error.
    pub fn reason_code(self) -> (r: &'static str)
        ensures
            r@ == self.reason(),
    {
        match self {
            BudgetError::InvalidCost => "capture_info.invalid_cost",
            BudgetError::CostMismatch => "capture_info.cost_mismatch",
            BudgetError::InvalidConfig => "capture_info.invalid_budget",
            BudgetError::Insufficient => "capture_info.insufficient_budget",
            BudgetError::CircuitOpen => "capture_info.circuit_open",
            BudgetError::LeaseMismatch => "capture_info.lease_mismatch",
            BudgetError::InvalidLease => "capture_info.invalid_lease",
        }
    }
}

/// Weight reserved for one in-flight request, and where it was drawn from.
#[derive(Debug, Clone, PartialEq, Eq)]
pub struct BudgetLease {
    egress_id: String,
    job_id: String,
    reserved: u32,
    from_priority: u32,
    from_general: u32,
    protected: bool,
}

impl BudgetLease {
    pub closed spec fn spec_egress_id(&self) -> Seq<char> {
        self.egress_id@
    }

    pub closed spec fn spec_job_id(&self) -> Seq<char> {
        self.job_id@
    }

    pub closed spec fn spec_reserved(&self) -> u32 {
        self.reserved
    }

    /// Part of the reservation drawn from the priority pool.
    pub closed spec fn spec_from_priority(&self) -> u32 {
        self.from_priority
    }

    /// Part of the reservation drawn from the general pool.
    pub closed spec fn spec_from_general(&self) -> u32 {
        self.from_general
    }

    /// Whether the lease was taken for a protected priority.
    pub closed spec fn spec_protected(&self) -> bool {
        self.protected
    }

    pub fn egress_id(&self) -> (r: &str)
        ensures
            r@ == self.spec_egress_id(),
    {
        self.egress_id.as_str()
    }

    pub fn job_id(&self) -> (r: &str)
        ensures
            r@ == self.spec_job_id(),
    {
        self.job_id.as_str()
    }

    #[verifier::when_used_as_spec(spec_reserved)]
    pub fn reserved(&self) -> (r: u32)
        ensures
            r == self.spec_reserved(),
    {
        self.reserved
    }
}

/// Point-in-time view of one egress budget, for operator status.
#[derive(Debug, Clone, PartialEq, Eq)]
pub struct EgressBudgetSnapshot {
    egress_id: String,
    ceiling_weight_per_minute: u32,
    envelope_weight_per_minute: u32,
    available_priority: u32,
    available_general: u32,
    circuit_open_until_millis: Option<u64>,
    http_429_count: u64,
    requests_ok: u64,
}

/// Plain values of an [`EgressBudgetSnapshot`].
pub struct SnapshotModel {
    pub egress_id: Seq<char>,
    pub ceiling_weight_per_minute: u32,
    pub envelope_weight_per_minute: u32,
    pub available_priority: u32,
    pub available_general: u32,
    pub circuit_open_until_millis: Option<u64>,
    pub http_429_count: u64,
    pub requests_ok: u64,
}

impl View for EgressBudgetSnapshot {
    type V = SnapshotModel;

    closed spec fn view(&self) -> SnapshotModel {
        SnapshotModel {
            egress_id: self.egress_id@,
            ceiling_weight_per_minute: self.ceiling_weight_per_minute,
            envelope_weight_per_minute: self.envelope_weight_per_minute,
            available_priority: self.available_priority,
            available_general: self.available_general,
            circuit_open_until_millis: self.circuit_open_until_millis,
            http_429_count: self.http_429_count,
            requests_ok: self.requests_ok,
        }
    }
}

impl EgressBudgetSnapshot {
    /// Builds a snapshot from its values.
    pub fn from_parts(
        egress_id: String,
        ceiling_weight_per_minute: u32,
        envelope_weight_per_minute: u32,
        available_priority: u32,
        available_general: u32,
        circuit_open_until_millis: Option<u64>,
        http_429_count: u64,
        requests_ok: u64,
    ) -> (r: Self)
        ensures
            r@ == (SnapshotModel {
                egress_id: egress_id@,
                ceiling_weight_per_minute,
                envelope_weight_per_minute,
                available_priority,
                available_general,
                circuit_open_until_millis,
                http_429_count,
                requests_ok,
            }),
    {
        EgressBudgetSnapshot {
            egress_id,
            ceiling_weight_per_minute,
            envelope_weight_per_minute,
            available_priority,
            available_general,
            circuit_open_until_millis,
            http_429_count,
            requests_ok,
        }
    }

    pub fn egress_id(&self) -> (r: &str)
        ensures
            r@ == self@.egress_id,
    {
        self.egress_id.as_str()
    }

    pub fn ceiling_weight_per_minute(&self) -> (r: u32)
        ensures
            r == self@.ceiling_weight_per_minute,
    {
        self.ceiling_weight_per_minute
    }

    pub fn envelope_weight_per_minute(&self) -> (r: u32)
        ensures
            r == self@.envelope_weight_per_minute,
    {
        self.envelope_weight_per_minute
    }

    pub fn available_priority(&self) -> (r: u32)
        ensures
            r == self@.available_priority,
    {
        self.available_priority
    }

    pub fn available_general(&self) -> (r: u32)
        ensures
            r == self@.available_general,
    {
        self.available_general
    }

    /// Both pools together, clamped to `u32::MAX`.
    pub fn available_total(&self) -> (r: u32)
        ensures
            r == sat_add_u32(self@.available_priority, self@.available_general),
    {
        self.available_priority.saturating_add(self.available_general)
    }

    pub fn circuit_open_until_millis(&self) -> (r: Option<u64>)
        ensures
            r == self@.circuit_open_until_millis,
    {
        self.circuit_open_until_millis
    }

    pub fn http_429_count(&self) -> (r: u64)
        ensures
            r == self@.http_429_count,
    {
        self.http_429_count
    }

    pub fn requests_ok(&self) -> (r: u64)
        ensures
            r == self@.requests_ok,
    {
        self.requests_ok
    }
}

/// Plain values of a [`RequestBudget`].
pub struct BudgetModel {
    pub egress_id: Seq<char>,
    pub ceiling: u32,
    pub envelope: u32,
    pub priority_cap: u32,
    pub general_cap: u32,
    pub available_priority: u32,
    pub available_general: u32,
    pub priority_remainder: u64,
    pub general_remainder: u64,
    pub last_refill_millis: u64,
    pub circuit_open_until_millis: Option<u64>,
    pub consecutive_429: u32,
    pub http_429_count: u64,
    pub requests_ok: u64,
    pub seed: u64,
}

/// One pool's linear refill: `cap` weight per minute, sub-unit credit carried in the
/// remainder, never above `cap`. Gives the new level and remainder.
pub open spec fn refill_pool(available: u32, cap: u32, elapsed: u64, remainder: u64) -> (u32, u64) {
    if cap == 0 {
        (0, 0)
    } else if available >= cap {
        (cap, 0)
    } else {
        let credit = sat_add_u64(sat_mul_u64(cap as u64, elapsed), remainder);
        let add: u32 = if credit / 60_000 > u32::MAX {
            u32::MAX
        } else {
            (credit / 60_000) as u32
        };
        let next = min_u32(cap, sat_add_u32(available, add));
        (next, if next >= cap {
            0
        } else {
            (credit % 60_000) as u64
        })
    }
}

/// `2^min(attempt, 5)`.
pub open spec fn backoff_factor(attempt: u32) -> u64 {
    if attempt == 0 {
        1
    } else if attempt == 1 {
        2
    } else if attempt == 2 {
        4
    } else if attempt == 3 {
        8
    } else if attempt == 4 {
        16
    } else {
        32
    }
}

/// Backoff after the `attempt`-th consecutive 429: one second doubled per attempt (capped
/// at 32 s), plus a seeded jitter below a quarter of that.
pub open spec fn backoff_millis(seed: u64, attempt: u32) -> u64 {
    let base = (1000 * backoff_factor(attempt)) as u64;
    let jitter = seed.wrapping_add(attempt as u64).wrapping_mul(0x9E37_79B9_7F4A_7C15u64);
    (base + (jitter % ((base / 4 + 1) as u64))) as u64
}

impl BudgetModel {
    /// Caps are positive, split the envelope, and bound the pools.
    pub open spec fn wf(self) -> bool {
        &&& self.priority_cap > 0
        &&& self.general_cap > 0
        &&& self.priority_cap + self.general_cap == self.envelope
        &&& self.envelope <= self.ceiling
        &&& self.available_priority <= self.priority_cap
        &&& self.available_general <= self.general_cap
    }

    /// The budget as seen at `now`: pools refilled for the elapsed time and an expired
    /// circuit closed. A clock that went backwards only restarts the refill.
    pub open spec fn refilled(self, now: u64) -> BudgetModel {
        if now < self.last_refill_millis {
            BudgetModel {
                last_refill_millis: now,
                priority_remainder: 0,
                general_remainder: 0,
                ..self
            }
        } else if now == self.last_refill_millis {
            self
        } else {
            let elapsed = (now - self.last_refill_millis) as u64;
            let p = refill_pool(
                self.available_priority,
                self.priority_cap,
                elapsed,
                self.priority_remainder,
            );
            let g = refill_pool(
                self.available_general,
                self.general_cap,
                elapsed,
                self.general_remainder,
            );
            BudgetModel {
                available_priority: p.0,
                priority_remainder: p.1,
                available_general: g.0,
                general_remainder: g.1,
                last_refill_millis: now,
                circuit_open_until_millis: match self.circuit_open_until_millis {
                    Some(until) => if now >= until {
                        None
                    } else {
                        Some(until)
                    },
                    None => None,
                },
                ..self
            }
        }
    }

    /// The circuit refuses reservations at `now`.
    pub open spec fn circuit_open_at(self, now: u64) -> bool {
        match self.circuit_open_until_millis {
            Some(until) => now < until,
            None => false,
        }
    }

    /// Where a reservation of `cost` is drawn from: protected priorities use the priority
    /// pool first, then the general pool; others use the general pool only.
    pub open spec fn reserve_split(self, priority: SchedulePriority, cost: u32) -> Option<
        (u32, u32),
    > {
        if priority.spec_is_protected() {
            let from_priority = min_u32(cost, self.available_priority);
            let from_general = (cost - from_priority) as u32;
            if from_general > self.available_general {
                None
            } else {
                Some((from_priority, from_general))
            }
        } else if cost > self.available_general {
            None
        } else {
            Some((0u32, cost))
        }
    }

    /// The pools after drawing `split`.
    pub open spec fn drawn(self, split: (u32, u32)) -> BudgetModel {
        BudgetModel {
            available_priority: (self.available_priority - split.0) as u32,
            available_general: (self.available_general - split.1) as u32,
            ..self
        }
    }

    /// Returns `amount` to the pools it came from, general first, never above the caps.
    pub open spec fn refunded(self, from_priority: u32, from_general: u32, amount: u32) -> BudgetModel {
        if amount == 0 {
            self
        } else {
            let to_general = min_u32(amount, from_general);
            let to_priority = min_u32((amount - to_general) as u32, from_priority);
            BudgetModel {
                available_general: min_u32(
                    self.general_cap,
                    sat_add_u32(self.available_general, to_general),
                ),
                available_priority: min_u32(
                    self.priority_cap,
                    sat_add_u32(self.available_priority, to_priority),
                ),
                ..self
            }
        }
    }

    /// The pools after charging `extra` weight beyond a lease, if they can cover it.
    pub open spec fn charged_extra(self, protected: bool, extra: u32) -> Option<BudgetModel> {
        if extra == 0 {
            Some(self)
        } else if protected {
            let from_priority = min_u32(extra, self.available_priority);
            let from_general = (extra - from_priority) as u32;
            if from_general > self.available_general {
                None
            } else {
                Some(self.drawn((from_priority, from_general)))
            }
        } else if extra > self.available_general {
            None
        } else {
            Some(self.drawn((0u32, extra)))
        }
    }

    /// Bookkeeping after a request completed normally.
    pub open spec fn succeeded(self) -> BudgetModel {
        BudgetModel {
            consecutive_429: 0,
            requests_ok: sat_add_u64(self.requests_ok, 1),
            ..self
        }
    }

    /// The budget after a 429 at `now`: pools emptied, circuit open for the backoff.
    pub open spec fn throttled(self, now: u64) -> BudgetModel {
        let attempts = sat_add_u32(self.consecutive_429, 1);
        BudgetModel {
            http_429_count: sat_add_u64(self.http_429_count, 1),
            consecutive_429: attempts,
            available_priority: 0,
            available_general: 0,
            priority_remainder: 0,
            general_remainder: 0,
            circuit_open_until_millis: Some(
                sat_add_u64(now, backoff_millis(self.seed, attempts)),
            ),
            ..self
        }
    }

    /// The values a snapshot reports.
    pub open spec fn snapshot_model(self) -> SnapshotModel {
        SnapshotModel {
            egress_id: self.egress_id,
            ceiling_weight_per_minute: self.ceiling,
            envelope_weight_per_minute: self.envelope,
            available_priority: self.available_priority,
            available_general: self.available_general,
            circuit_open_until_millis: self.circuit_open_until_millis,
            http_429_count: self.http_429_count,
            requests_ok: self.requests_ok,
        }
    }
}

/// An identity string that is nonempty and equal to its trim.
pub open spec fn padded_or_empty(s: Seq<char>) -> bool {
    s.len() == 0 || !trimmed(s)
}

/// The caps a budget of `ceiling` gets at the given percentages, if they are valid.
pub open spec fn budget_caps(ceiling: u32, envelope_percent: u8, priority_reserve_percent: u8) -> Option<
    (u32, u32, u32),
> {
    if ceiling == 0 || !(70 <= envelope_percent <= 80) || !(1 <= priority_reserve_percent <= 90) {
        None
    } else {
        let envelope = ceiling * envelope_percent / 100;
        let priority_cap = envelope * priority_reserve_percent / 100;
        if envelope == 0 || priority_cap == 0 || priority_cap >= envelope {
            None
        } else {
            Some((envelope as u32, priority_cap as u32, (envelope - priority_cap) as u32))
        }
    }
}

/// Request-weight budget of one egress.
#[derive(Debug, Clone, PartialEq, Eq)]
pub struct RequestBudget {
    egress_id: String,
    ceiling: u32,
    envelope: u32,
    priority_cap: u32,
    general_cap: u32,
    available_priority: u32,
    available_general: u32,
    priority_remainder: u64,
    general_remainder: u64,
    last_refill_millis: u64,
    circuit_open_until_millis: Option<u64>,
    consecutive_429: u32,
    http_429_count: u64,
    requests_ok: u64,
    seed: u64,
}

impl View for RequestBudget {
    type V = BudgetModel;

    closed spec fn view(&self) -> BudgetModel {
        BudgetModel {
            egress_id: self.egress_id@,
            ceiling: self.ceiling,
            envelope: self.envelope,
            priority_cap: self.priority_cap,
            general_cap: self.general_cap,
            available_priority: self.available_priority,
            available_general: self.available_general,
            priority_remainder: self.priority_remainder,
            general_remainder: self.general_remainder,
            last_refill_millis: self.last_refill_millis,
            circuit_open_until_millis: self.circuit_open_until_millis,
            consecutive_429: self.consecutive_429,
            http_429_count: self.http_429_count,
            requests_ok: self.requests_ok,
            seed: self.seed,
        }
    }
}

proof fn lemma_refill_pool_bounds(available: u32, cap: u32, elapsed: u64, remainder: u64)
    requires
        available <= cap,
    ensures
        refill_pool(available, cap, elapsed, remainder).0 <= cap,
        refill_pool(available, cap, elapsed, remainder).0 >= available,
{
}

proof fn lemma_refilled_wf(m: BudgetModel, now: u64)
    ensures
        m.wf() ==> m.refilled(now).wf(),
        m.refilled(now).egress_id == m.egress_id,
        m.refilled(now).seed == m.seed,
{
    if m.wf() && now > m.last_refill_millis {
        let elapsed = (now - m.last_refill_millis) as u64;
        lemma_refill_pool_bounds(m.available_priority, m.priority_cap, elapsed, m.priority_remainder);
        lemma_refill_pool_bounds(m.available_general, m.general_cap, elapsed, m.general_remainder);
    }
}

/// Every step a budget takes from a well-formed state keeps it well-formed.
proof fn lemma_ops_wf(m: BudgetModel, now: u64)
    ensures
        m.wf() ==> m.succeeded().wf(),
        m.wf() ==> m.throttled(now).wf(),
        forall|p: SchedulePriority, cost: u32|
            m.wf() && #[trigger] m.reserve_split(p, cost) is Some ==> m.drawn(
                m.reserve_split(p, cost)->Some_0,
            ).wf(),
        forall|fp: u32, fg: u32, amount: u32|
            m.wf() ==> #[trigger] m.refunded(fp, fg, amount).wf(),
        forall|protected: bool, extra: u32|
            m.wf() && #[trigger] m.charged_extra(protected, extra) is Some ==> m.charged_extra(
                protected,
                extra,
            )->Some_0.wf(),
        forall|fp: u32, fg: u32, amount: u32|
            m.wf() ==> #[trigger] m.refunded(fp, fg, amount).succeeded().wf(),
        forall|protected: bool, extra: u32|
            m.wf() && #[trigger] m.charged_extra(protected, extra) is Some ==> m.charged_extra(
                protected,
                extra,
            )->Some_0.succeeded().wf(),
{
}

fn exec_refill_pool(available: u32, cap: u32, elapsed: u64, remainder: u64) -> (r: (u32, u64))
    ensures
        r == refill_pool(available, cap, elapsed, remainder),
{
    if cap == 0 {
        return (0, 0);
    }
    if available >= cap {
        return (cap, 0);
    }
    let product = match (cap as u64).checked_mul(elapsed) {
        Some(p) => p,
        None => u64::MAX,
    };
    let credit = product.saturating_add(remainder);
    let quotient = credit / 60_000;
    let add: u32 = if quotient > u32::MAX as u64 {
        u32::MAX
    } else {
        quotient as u32
    };
    let summed = available.saturating_add(add);
    let next = if cap <= summed {
        cap
    } else {
        summed
    };
    let rem = if next >= cap {
        0
    } else {
        credit % 60_000
    };
    (next, rem)
}

impl RequestBudget {
    /// A budget of `ceiling` weight per minute, with an envelope of `envelope_percent` of it
    /// (70–80) split into a priority reserve of `priority_reserve_percent` (1–90) and a
    /// general pool. Both pools start full.
    pub fn try_new(
        egress_id: &str,
        ceiling: u32,
        envelope_percent: u8,
        priority_reserve_percent: u8,
        now_millis: u64,
        seed: u64,
    ) -> (r: Result<Self, BudgetError>)
        ensures
            padded_or_empty(egress_id@) ==> r == Err::<Self, BudgetError>(BudgetError::InvalidConfig),
            !padded_or_empty(egress_id@) ==> match budget_caps(
                ceiling,
                envelope_percent,
                priority_reserve_percent,
            ) {
                None => r == Err::<Self, BudgetError>(BudgetError::InvalidConfig),
                Some((envelope, priority_cap, general_cap)) => r matches Ok(b) && b@ == (
                BudgetModel {
                    egress_id: egress_id@,
                    ceiling,
                    envelope,
                    priority_cap,
                    general_cap,
                    available_priority: priority_cap,
                    available_general: general_cap,
                    priority_remainder: 0,
                    general_remainder: 0,
                    last_refill_millis: now_millis,
                    circuit_open_until_millis: None,
                    consecutive_429: 0,
                    http_429_count: 0,
                    requests_ok: 0,
                    seed,
                }) && b@.wf(),
            },
    {
        let trimmed_ok = is_trimmed(egress_id);
        if egress_id.is_empty() || !trimmed_ok {
            return Err(BudgetError::InvalidConfig);
        }
        if ceiling == 0 || !(70 <= envelope_percent && envelope_percent <= 80) || !(1
            <= priority_reserve_percent && priority_reserve_percent <= 90) {
            return Err(BudgetError::InvalidConfig);
        }
        assert((ceiling as u64) * (envelope_percent as u64) <= 0xFFFF_FFFFu64 * 80) by (
        nonlinear_arith)
            requires
                envelope_percent <= 80,
        ;
        let envelope_wide = (ceiling as u64) * (envelope_percent as u64) / 100;
        assert(envelope_wide <= ceiling) by (nonlinear_arith)
            requires
                envelope_wide == (ceiling as u64) * (envelope_percent as u64) / 100,
                envelope_percent <= 80,
        ;
        let envelope = envelope_wide as u32;
        if envelope == 0 {
            return Err(BudgetError::InvalidConfig);
        }
        assert((envelope as u64) * (priority_reserve_percent as u64) <= 0xFFFF_FFFFu64 * 90) by (
        nonlinear_arith)
            requires
                priority_reserve_percent <= 90,
        ;
        let priority_wide = (envelope as u64) * (priority_reserve_percent as u64) / 100;
        assert(priority_wide <= envelope) by (nonlinear_arith)
            requires
                priority_wide == (envelope as u64) * (priority_reserve_percent as u64) / 100,
                priority_reserve_percent <= 90,
        ;
        let priority_cap = priority_wide as u32;
        if priority_cap == 0 || priority_cap >= envelope {
            return Err(BudgetError::InvalidConfig);
        }
        let general_cap = envelope - priority_cap;
        Ok(RequestBudget {
            egress_id: owned(egress_id),
            ceiling,
            envelope,
            priority_cap,
            general_cap,
            available_priority: priority_cap,
            available_general: general_cap,
            priority_remainder: 0,
            general_remainder: 0,
            last_refill_millis: now_millis,
            circuit_open_until_millis: None,
            consecutive_429: 0,
            http_429_count: 0,
            requests_ok: 0,
            seed,
        })
    }

    /// The official `/info` budget: 1200 weight per minute with a 40 % priority reserve.
    pub fn official(egress_id: &str, envelope_percent: u8, now_millis: u64, seed: u64) -> (r: Result<
        Self,
        BudgetError,
    >)
        ensures
            padded_or_empty(egress_id@) ==> r == Err::<Self, BudgetError>(BudgetError::InvalidConfig),
            !padded_or_empty(egress_id@) ==> match budget_caps(
                OFFICIAL_REST_WEIGHT_PER_MINUTE,
                envelope_percent,
                40,
            ) {
                None => r == Err::<Self, BudgetError>(BudgetError::InvalidConfig),
                Some((envelope, priority_cap, general_cap)) => r matches Ok(b) && b@ == (
                BudgetModel {
                    egress_id: egress_id@,
                    ceiling: OFFICIAL_REST_WEIGHT_PER_MINUTE,
                    envelope,
                    priority_cap,
                    general_cap,
                    available_priority: priority_cap,
                    available_general: general_cap,
                    priority_remainder: 0,
                    general_remainder: 0,
                    last_refill_millis: now_millis,
                    circuit_open_until_millis: None,
                    consecutive_429: 0,
                    http_429_count: 0,
                    requests_ok: 0,
                    seed,
                }) && b@.wf(),
            },
    {
        Self::try_new(
            egress_id,
            OFFICIAL_REST_WEIGHT_PER_MINUTE,
            envelope_percent,
            40,
            now_millis,
            seed,
        )
    }

    pub fn egress_id(&self) -> (r: &str)
        ensures
            r@ == self@.egress_id,
    {
        self.egress_id.as_str()
    }

    pub fn envelope(&self) -> (r: u32)
        ensures
            r == self@.envelope,
    {
        self.envelope
    }

    pub fn ceiling(&self) -> (r: u32)
        ensures
            r == self@.ceiling,
    {
        self.ceiling
    }

    /// Refills the pools to `now_millis` and reports the result.
    pub fn snapshot(&mut self, now_millis: u64) -> (r: EgressBudgetSnapshot)
        ensures
            final(self)@ == old(self)@.refilled(now_millis),
            r@ == old(self)@.refilled(now_millis).snapshot_model(),
        old(self)@.wf() ==> final(self)@.wf(),
    {
        proof {
            lemma_refilled_wf(old(self)@, now_millis);
        }
        self.refill(now_millis);
        EgressBudgetSnapshot {
            egress_id: self.egress_id.clone(),
            ceiling_weight_per_minute: self.ceiling,
            envelope_weight_per_minute: self.envelope,
            available_priority: self.available_priority,
            available_general: self.available_general,
            circuit_open_until_millis: self.circuit_open_until_millis,
            http_429_count: self.http_429_count,
            requests_ok: self.requests_ok,
        }
    }

    /// Reserves `cost` weight for `job_id` at `now_millis`.
    pub fn reserve(
        &mut self,
        now_millis: u64,
        job_id: &str,
        priority: SchedulePriority,
        cost: u32,
    ) -> (r: Result<BudgetLease, BudgetError>)
        ensures
            ({
                let m = old(self)@.refilled(now_millis);
                if m.circuit_open_at(now_millis) {
                    &&& r == Err::<BudgetLease, BudgetError>(BudgetError::CircuitOpen)
                    &&& final(self)@ == m
                } else if cost == 0 || job_id@.len() == 0 {
                    &&& r == Err::<BudgetLease, BudgetError>(BudgetError::InvalidLease)
                    &&& final(self)@ == m
                } else {
                    match m.reserve_split(priority, cost) {
                        None => {
                            &&& r == Err::<BudgetLease, BudgetError>(BudgetError::Insufficient)
                            &&& final(self)@ == m
                        },
                        Some(split) => {
                            &&& r matches Ok(lease) && {
                                &&& lease.spec_egress_id() == m.egress_id
                                &&& lease.spec_job_id() == job_id@
                                &&& lease.spec_reserved() == cost
                                &&& lease.spec_from_priority() == split.0
                                &&& lease.spec_from_general() == split.1
                                &&& lease.spec_protected() == priority.spec_is_protected()
                            }
                            &&& final(self)@ == m.drawn(split)
                        },
                    }
                }
            }),
        old(self)@.wf() ==> final(self)@.wf(),
    {
        proof {
            lemma_refilled_wf(old(self)@, now_millis);
            lemma_ops_wf(old(self)@.refilled(now_millis), now_millis);
        }
        self.refill(now_millis);
        if let Some(until) = self.circuit_open_until_millis {
            if now_millis < until {
                return Err(BudgetError::CircuitOpen);
            }
        }
        if cost == 0 || job_id.is_empty() {
            return Err(BudgetError::InvalidLease);
        }
        let protected = priority.is_protected();
        let (from_priority, from_general) = if protected {
            let from_priority = if cost <= self.available_priority {
                cost
            } else {
                self.available_priority
            };
            let from_general = cost - from_priority;
            if from_general > self.available_general {
                return Err(BudgetError::Insufficient);
            }
            (from_priority, from_general)
        } else {
            if cost > self.available_general {
                return Err(BudgetError::Insufficient);
            }
            (0, cost)
        };
        self.available_priority = self.available_priority - from_priority;
        self.available_general = self.available_general - from_general;
        Ok(BudgetLease {
            egress_id: self.egress_id.clone(),
            job_id: owned(job_id),
            reserved: cost,
            from_priority,
            from_general,
            protected,
        })
    }

    /// Settles a lease with the weight the request actually cost: the unused part is
    /// refunded, an overrun is charged if the pools can cover it.
    pub fn commit(&mut self, now_millis: u64, lease: BudgetLease, actual: u32) -> (r: Result<
        (),
        BudgetError,
    >)
        ensures
            ({
                let m = old(self)@.refilled(now_millis);
                if lease.spec_egress_id() != m.egress_id {
                    &&& r == Err::<(), BudgetError>(BudgetError::LeaseMismatch)
                    &&& final(self)@ == m
                } else if actual <= lease.spec_reserved() {
                    &&& r == Ok::<(), BudgetError>(())
                    &&& final(self)@ == m.refunded(
                        lease.spec_from_priority(),
                        lease.spec_from_general(),
                        (lease.spec_reserved() - actual) as u32,
                    ).succeeded()
                } else {
                    match m.charged_extra(
                        lease.spec_protected(),
                        (actual - lease.spec_reserved()) as u32,
                    ) {
                        None => {
                            &&& r == Err::<(), BudgetError>(BudgetError::Insufficient)
                            &&& final(self)@ == m
                        },
                        Some(charged) => {
                            &&& r == Ok::<(), BudgetError>(())
                            &&& final(self)@ == charged.succeeded()
                        },
                    }
                }
            }),
        old(self)@.wf() ==> final(self)@.wf(),
    {
        proof {
            lemma_refilled_wf(old(self)@, now_millis);
            lemma_ops_wf(old(self)@.refilled(now_millis), now_millis);
        }
        self.refill(now_millis);
        if !lease.egress_id.eq(&self.egress_id) {
            return Err(BudgetError::LeaseMismatch);
        }
        if actual <= lease.reserved {
            let refund = lease.reserved - actual;
            self.refund(lease.from_priority, lease.from_general, refund);
        } else {
            let extra = actual - lease.reserved;
            match self.charge_extra(lease.protected, extra) {
                Ok(()) => {},
                Err(e) => {
                    return Err(e);
                },
            }
        }
        self.consecutive_429 = 0;
        self.requests_ok = self.requests_ok.saturating_add(1);
        Ok(())
    }

    /// Returns a lease unused.
    pub fn release(&mut self, now_millis: u64, lease: BudgetLease) -> (r: Result<(), BudgetError>)
        ensures
            ({
                let m = old(self)@.refilled(now_millis);
                if lease.spec_egress_id() != m.egress_id {
                    &&& r == Err::<(), BudgetError>(BudgetError::LeaseMismatch)
                    &&& final(self)@ == m
                } else {
                    &&& r == Ok::<(), BudgetError>(())
                    &&& final(self)@ == m.refunded(
                        lease.spec_from_priority(),
                        lease.spec_from_general(),
                        lease.spec_reserved(),
                    )
                }
            }),
        old(self)@.wf() ==> final(self)@.wf(),
    {
        proof {
            lemma_refilled_wf(old(self)@, now_millis);
            lemma_ops_wf(old(self)@.refilled(now_millis), now_millis);
        }
        self.refill(now_millis);
        if !lease.egress_id.eq(&self.egress_id) {
            return Err(BudgetError::LeaseMismatch);
        }
        self.refund(lease.from_priority, lease.from_general, lease.reserved);
        Ok(())
    }

    /// Records a 429 for a lease: both pools are emptied and the circuit opens until the
    /// returned time.
    pub fn on_429(&mut self, now_millis: u64, lease: BudgetLease) -> (r: Result<u64, BudgetError>)
        ensures
            ({
                let m = old(self)@.refilled(now_millis);
                if lease.spec_egress_id() != m.egress_id {
                    &&& r == Err::<u64, BudgetError>(BudgetError::LeaseMismatch)
                    &&& final(self)@ == m
                } else {
                    &&& final(self)@ == m.throttled(now_millis)
                    &&& r == Ok::<u64, BudgetError>(
                        final(self)@.circuit_open_until_millis->Some_0,
                    )
                }
            }),
        old(self)@.wf() ==> final(self)@.wf(),
    {
        proof {
            lemma_refilled_wf(old(self)@, now_millis);
            lemma_ops_wf(old(self)@.refilled(now_millis), now_millis);
        }
        self.refill(now_millis);
        if !lease.egress_id.eq(&self.egress_id) {
            return Err(BudgetError::LeaseMismatch);
        }
        self.http_429_count = self.http_429_count.saturating_add(1);
        self.consecutive_429 = self.consecutive_429.saturating_add(1);
        self.available_priority = 0;
        self.available_general = 0;
        self.priority_remainder = 0;
        self.general_remainder = 0;
        let backoff = exec_backoff_millis(self.seed, self.consecutive_429);
        let open_until = now_millis.saturating_add(backoff);
        self.circuit_open_until_millis = Some(open_until);
        Ok(open_until)
    }

    fn refund(&mut self, from_priority: u32, from_general: u32, amount: u32)
        ensures
            final(self)@ == old(self)@.refunded(from_priority, from_general, amount),
    {
        if amount == 0 {
            return;
        }
        let to_general = if amount <= from_general {
            amount
        } else {
            from_general
        };
        let rest = amount - to_general;
        let to_priority = if rest <= from_priority {
            rest
        } else {
            from_priority
        };
        let g = self.available_general.saturating_add(to_general);
        self.available_general = if self.general_cap <= g {
            self.general_cap
        } else {
            g
        };
        let p = self.available_priority.saturating_add(to_priority);
        self.available_priority = if self.priority_cap <= p {
            self.priority_cap
        } else {
            p
        };
    }

    fn charge_extra(&mut self, protected: bool, extra: u32) -> (r: Result<(), BudgetError>)
        ensures
            match old(self)@.charged_extra(protected, extra) {
                None => r == Err::<(), BudgetError>(BudgetError::Insufficient) && final(self)@
                    == old(self)@,
                Some(m) => r == Ok::<(), BudgetError>(()) && final(self)@ == m,
            },
    {
        if extra == 0 {
            return Ok(());
        }
        if protected {
            let from_priority = if extra <= self.available_priority {
                extra
            } else {
                self.available_priority
            };
            let from_general = extra - from_priority;
            if from_general > self.available_general {
                return Err(BudgetError::Insufficient);
            }
            self.available_priority = self.available_priority - from_priority;
            self.available_general = self.available_general - from_general;
            Ok(())
        } else if extra > self.available_general {
            Err(BudgetError::Insufficient)
        } else {
            self.available_general = self.available_general - extra;
            Ok(())
        }
    }

    fn refill(&mut self, now_millis: u64)
        ensures
            final(self)@ == old(self)@.refilled(now_millis),
    {
        if now_millis < self.last_refill_millis {
            self.last_refill_millis = now_millis;
            self.priority_remainder = 0;
            self.general_remainder = 0;
            return;
        }
        let elapsed = now_millis - self.last_refill_millis;
        if elapsed == 0 {
            return;
        }
        let p = exec_refill_pool(
            self.available_priority,
            self.priority_cap,
            elapsed,
            self.priority_remainder,
        );
        let g = exec_refill_pool(
            self.available_general,
            self.general_cap,
            elapsed,
            self.general_remainder,
        );
        self.available_priority = p.0;
        self.priority_remainder = p.1;
        self.available_general = g.0;
        self.general_remainder = g.1;
        self.last_refill_millis = now_millis;
        if let Some(until) = self.circuit_open_until_millis {
            if now_millis >= until {
                self.circuit_open_until_millis = None;
            }
        }
    }
}

/// A budget that was just refilled to `now` is unchanged by refilling to `now` again.
pub proof fn law_refill_idempotent(m: BudgetModel, now: u64)
    ensures
        m.refilled(now).refilled(now) == m.refilled(now),
{
}

/// Refilling never lowers a pool and never lifts it above its cap; a full minute (or
/// more) after the last refill both pools are at their caps.
pub proof fn law_refill_bounded_and_complete(m: BudgetModel, now: u64)
    requires
        m.wf(),
    ensures
        m.refilled(now).wf(),
        now >= m.last_refill_millis ==> m.refilled(now).available_priority
            >= m.available_priority && m.refilled(now).available_general >= m.available_general,
        now >= m.last_refill_millis + REFILL_PERIOD_MILLIS ==> m.refilled(now).available_priority
            == m.priority_cap && m.refilled(now).available_general == m.general_cap,
{
    lemma_refilled_wf(m, now);
    if now > m.last_refill_millis {
        let elapsed = (now - m.last_refill_millis) as u64;
        lemma_refill_pool_bounds(m.available_priority, m.priority_cap, elapsed, m.priority_remainder);
        lemma_refill_pool_bounds(m.available_general, m.general_cap, elapsed, m.general_remainder);
        if elapsed >= 60_000 {
            lemma_refill_pool_full(m.available_priority, m.priority_cap, elapsed, m.priority_remainder);
            lemma_refill_pool_full(m.available_general, m.general_cap, elapsed, m.general_remainder);
        }
    }
}

proof fn lemma_refill_pool_full(available: u32, cap: u32, elapsed: u64, remainder: u64)
    requires
        elapsed >= 60_000,
        available <= cap,
    ensures
        refill_pool(available, cap, elapsed, remainder).0 == cap,
{
    if cap > 0 && available < cap {
        let prod = sat_mul_u64(cap as u64, elapsed);
        assert(prod >= (cap as u64) * 60_000) by (nonlinear_arith)
            requires
                prod == (if (cap as u64) * elapsed > u64::MAX {
                    u64::MAX as int
                } else {
                    (cap as u64) * elapsed
                }),
                elapsed >= 60_000,
                cap <= u32::MAX,
        ;
        let credit = sat_add_u64(prod, remainder);
        assert(credit / 60_000 >= cap) by (nonlinear_arith)
            requires
                credit >= (cap as u64) * 60_000,
        ;
    }
}

/// A reservation draws exactly its cost, never more than a pool holds, and only protected
/// priorities touch the priority reserve.
pub proof fn law_reservation_within_pools(m: BudgetModel, priority: SchedulePriority, cost: u32)
    requires
        m.reserve_split(priority, cost) is Some,
    ensures
        ({
            let split = m.reserve_split(priority, cost)->Some_0;
            &&& split.0 + split.1 == cost
            &&& split.0 <= m.available_priority
            &&& split.1 <= m.available_general
            &&& !priority.spec_is_protected() ==> split.0 == 0
        }),
{
}

/// A protected priority is refused only when both pools together cannot cover the cost;
/// any other priority only when the general pool cannot.
pub proof fn law_reservation_refused_only_when_short(
    m: BudgetModel,
    priority: SchedulePriority,
    cost: u32,
)
    ensures
        (m.reserve_split(priority, cost) is None) <==> (if priority.spec_is_protected() {
            cost > m.available_priority + m.available_general
        } else {
            cost > m.available_general
        }),
{
}

/// Releasing a lease at the instant it was reserved gives back exactly what it took.
pub proof fn law_release_undoes_reserve(
    m: BudgetModel,
    now: u64,
    priority: SchedulePriority,
    cost: u32,
)
    requires
        m.wf(),
        m.refilled(now).reserve_split(priority, cost) is Some,
    ensures
        ({
            let r = m.refilled(now);
            let split = r.reserve_split(priority, cost)->Some_0;
            r.drawn(split).refilled(now).refunded(split.0, split.1, cost) == r
        }),
{
    lemma_refilled_wf(m, now);
}

/// Committing a lease at its reserved weight refunds and charges nothing: the pools stay as
/// the reservation left them, and the request counts as a success.
pub proof fn law_commit_at_reserved_weight(m: BudgetModel, fp: u32, fg: u32)
    ensures
        m.refunded(fp, fg, 0).succeeded() == m.succeeded(),
        m.succeeded().available_priority == m.available_priority,
        m.succeeded().available_general == m.available_general,
        m.succeeded().consecutive_429 == 0,
{
}

/// The backoff after the `attempt`-th consecutive 429 is one second doubled per attempt
/// (capped at 32 s), with less than a quarter of that added as jitter.
pub proof fn law_backoff_bounds(seed: u64, attempt: u32)
    ensures
        1000 * backoff_factor(attempt) <= backoff_millis(seed, attempt),
        backoff_millis(seed, attempt) <= 1000 * backoff_factor(attempt) + 1000 * backoff_factor(
            attempt,
        ) / 4,
        attempt < 5 ==> backoff_factor((attempt + 1) as u32) == 2 * backoff_factor(attempt),
{
    let base = (1000 * backoff_factor(attempt)) as u64;
    let jitter = seed.wrapping_add(attempt as u64).wrapping_mul(0x9E37_79B9_7F4A_7C15u64);
    assert(jitter % ((base / 4 + 1) as u64) <= base / 4);
}

/// After a 429 both pools are empty and the circuit refuses reservations at every instant
/// before the time it reports, however the clock moves in between.
pub proof fn law_throttle_blocks_until_expiry(m: BudgetModel, now: u64, t: u64)
    requires
        t < m.throttled(now).circuit_open_until_millis->Some_0,
    ensures
        m.throttled(now).available_priority == 0,
        m.throttled(now).available_general == 0,
        m.throttled(now).refilled(t).circuit_open_at(t),
        m.throttled(now).circuit_open_until_millis->Some_0 >= now,
{
}

/// A circuit that has expired never refuses: once `t` reaches the reopening time, refilling
/// to `t` closes it.
pub proof fn law_circuit_closes_after_expiry(m: BudgetModel, t: u64)
    requires
        t > m.last_refill_millis,
        m.circuit_open_until_millis matches Some(until) && t >= until,
    ensures
        !m.refilled(t).circuit_open_at(t),
        m.refilled(t).circuit_open_until_millis is None,
{
}

fn exec_backoff_millis(seed: u64, attempt: u32) -> (r: u64)
    ensures
        r == backoff_millis(seed, attempt),
{
    let capped = if attempt <= 5 {
        attempt
    } else {
        5
    };
    let factor: u64 = if capped == 0 {
        1
    } else if capped == 1 {
        2
    } else if capped == 2 {
        4
    } else if capped == 3 {
        8
    } else if capped == 4 {
        16
    } else {
        32
    };
    let base: u64 = 1000 * factor;
    let jitter = seed.wrapping_add(attempt as u64).wrapping_mul(0x9E37_79B9_7F4A_7C15);
    let modulus = base / 4 + 1;
    let spread = jitter % modulus;
    assert(spread < modulus);
    base.saturating_add(spread)
}

} // verus!
