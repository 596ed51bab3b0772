//! The capture runtime's health: which committed source is active, how healthy each
//! source is, the capture backlog, and the readiness and colour derived from them.

use vstd::prelude::*;

use crate::failover::{FailoverDecision, FailoverReason};

verus! {

/// Overall health colour.
#[derive(Debug, Clone, Copy, PartialEq, Eq, Structural)]
pub enum CaptureHealth {
    Green,
    Yellow,
    Red,
}

/// How a committed source is doing.
#[derive(Debug, Clone, Copy, PartialEq, Eq, Structural)]
pub enum CaptureSourceHealth {
    Starting,
    Healthy,
    RangeUnavailable,
}

/// Which committed source blocks are taken from.
#[derive(Debug, Clone, Copy, PartialEq, Eq, Structural)]
pub enum CommittedSourceClass {
    LocallyVerifiedCommitted,
    IndependentCommitted,
}

/// Free disk below this many basis points makes a ready runtime yellow.
pub const DISK_HEALTHY_BASIS_POINTS: u16 = 2000;

pub const RECOVERING_REASON: &'static str = "capture_runtime.recovering";
pub const LOW_DISK_REASON: &'static str = "capture_disk.low_space";
pub const ACTIVE_STARTING_REASON: &'static str = "capture_source.active_starting";
pub const PRIMARY_RANGE_UNAVAILABLE_REASON: &'static str = "capture_source.primary_range_unavailable";
pub const INDEPENDENT_RANGE_UNAVAILABLE_REASON: &'static str = "capture_failover.independent_range_unavailable";
pub const INDEPENDENT_ACTIVE_REASON: &'static str = "capture_failover.independent_source_active";

/// What the runtime reports of its health.
#[derive(Debug, Clone, Copy, PartialEq, Eq)]
pub struct RuntimeHealthSnapshot {
    pub health: CaptureHealth,
    pub ready: bool,
    pub reason_code: Option<&'static str>,
    pub active_committed_source: CommittedSourceClass,
    pub primary_source_health: CaptureSourceHealth,
    pub independent_source_health: Option<CaptureSourceHealth>,
    pub failover_height: Option<u64>,
    pub failover_reason: Option<FailoverReason>,
    pub latest_primary_height: Option<u64>,
    pub latest_independent_height: Option<u64>,
    pub next_expected_capture_height: Option<u64>,
    pub capture_backlog_records: u64,
    pub oldest_pending_capture_height: Option<u64>,
    pub disk_free_basis_points: Option<u16>,
}

pub open spec fn reason_view(r: Option<&'static str>) -> Option<Seq<char>> {
    match r {
        Some(s) => Some(s@),
        None => None,
    }
}

/// The health of the active committed source (an independent source not yet configured
/// counts as starting).
pub open spec fn active_health(s: RuntimeHealthSnapshot) -> CaptureSourceHealth {
    match s.active_committed_source {
        CommittedSourceClass::LocallyVerifiedCommitted => s.primary_source_health,
        CommittedSourceClass::IndependentCommitted => match s.independent_source_health {
            Some(h) => h,
            None => CaptureSourceHealth::Starting,
        },
    }
}

/// The capture backlog: the records from the next expected height up to the latest one
/// captured from the active source, and the oldest of them.
pub open spec fn backlog_of(s: RuntimeHealthSnapshot) -> (u64, Option<u64>) {
    let latest = match s.active_committed_source {
        CommittedSourceClass::LocallyVerifiedCommitted => s.latest_primary_height,
        CommittedSourceClass::IndependentCommitted => s.latest_independent_height,
    };
    match (latest, s.next_expected_capture_height) {
        (Some(l), Some(n)) => if l < n {
            (0, None)
        } else if l - n + 1 > u64::MAX {
            (u64::MAX, Some(n))
        } else {
            ((l - n + 1) as u64, Some(n))
        },
        _ => (0, None),
    }
}

pub open spec fn with_backlog(s: RuntimeHealthSnapshot) -> RuntimeHealthSnapshot {
    RuntimeHealthSnapshot {
        capture_backlog_records: backlog_of(s).0,
        oldest_pending_capture_height: backlog_of(s).1,
        ..s
    }
}

/// Health, readiness and reason once recovery is done: not ready while the active source
/// starts or is missing a range; ready otherwise, yellow while the independent source is
/// active or free disk is below twenty percent, green else.
pub open spec fn readied(s: RuntimeHealthSnapshot) -> (CaptureHealth, bool, Option<Seq<char>>) {
    match active_health(s) {
        CaptureSourceHealth::Starting => (CaptureHealth::Yellow, false, Some(ACTIVE_STARTING_REASON@)),
        CaptureSourceHealth::RangeUnavailable => (
            CaptureHealth::Red,
            false,
            Some(
                match s.active_committed_source {
                    CommittedSourceClass::LocallyVerifiedCommitted => PRIMARY_RANGE_UNAVAILABLE_REASON@,
                    CommittedSourceClass::IndependentCommitted => INDEPENDENT_RANGE_UNAVAILABLE_REASON@,
                },
            ),
        ),
        CaptureSourceHealth::Healthy => if s.active_committed_source == CommittedSourceClass::IndependentCommitted {
            (CaptureHealth::Yellow, true, Some(INDEPENDENT_ACTIVE_REASON@))
        } else if s.disk_free_basis_points matches Some(b) && b < DISK_HEALTHY_BASIS_POINTS {
            (CaptureHealth::Yellow, true, Some(LOW_DISK_REASON@))
        } else {
            (CaptureHealth::Green, true, None)
        },
    }
}

/// Everything but health, readiness and reason is as in `other`.
pub open spec fn same_sources(a: RuntimeHealthSnapshot, b: RuntimeHealthSnapshot) -> bool {
    a == RuntimeHealthSnapshot { health: a.health, ready: a.ready, reason_code: a.reason_code, ..b }
}

impl RuntimeHealthSnapshot {
    /// Recovering: red, not ready, the primary source active.
    pub fn new() -> (r: Self)
        ensures
            r.health == CaptureHealth::Red,
            !r.ready,
            reason_view(r.reason_code) == Some(RECOVERING_REASON@),
            r.active_committed_source == CommittedSourceClass::LocallyVerifiedCommitted,
            r.primary_source_health == CaptureSourceHealth::Healthy,
            r.independent_source_health is None,
            r.failover_height is None,
            r.failover_reason is None,
            r.latest_primary_height is None,
            r.latest_independent_height is None,
            r.next_expected_capture_height is None,
            r.capture_backlog_records == 0,
            r.oldest_pending_capture_height is None,
            r.disk_free_basis_points is None,
    {
        RuntimeHealthSnapshot {
            health: CaptureHealth::Red,
            ready: false,
            reason_code: Some(RECOVERING_REASON),
            active_committed_source: CommittedSourceClass::LocallyVerifiedCommitted,
            primary_source_health: CaptureSourceHealth::Healthy,
            independent_source_health: None,
            failover_height: None,
            failover_reason: None,
            latest_primary_height: None,
            latest_independent_height: None,
            next_expected_capture_height: None,
            capture_backlog_records: 0,
            oldest_pending_capture_height: None,
            disk_free_basis_points: None,
        }
    }

    /// Recovery is done: health, readiness and reason follow the active source and disk.
    pub fn set_ready(&mut self)
        ensures
            (final(self).health, final(self).ready, reason_view(final(self).reason_code)) == readied(*old(self)),
            same_sources(*final(self), *old(self)),
    {
        let active = match self.active_committed_source {
            CommittedSourceClass::LocallyVerifiedCommitted => self.primary_source_health,
            CommittedSourceClass::IndependentCommitted => match self.independent_source_health {
                Some(h) => h,
                None => CaptureSourceHealth::Starting,
            },
        };
        match active {
            CaptureSourceHealth::Starting => {
                self.health = CaptureHealth::Yellow;
                self.ready = false;
                self.reason_code = Some(ACTIVE_STARTING_REASON);
                return;
            },
            CaptureSourceHealth::RangeUnavailable => {
                self.health = CaptureHealth::Red;
                self.ready = false;
                self.reason_code = Some(
                    match self.active_committed_source {
                        CommittedSourceClass::LocallyVerifiedCommitted => PRIMARY_RANGE_UNAVAILABLE_REASON,
                        CommittedSourceClass::IndependentCommitted => INDEPENDENT_RANGE_UNAVAILABLE_REASON,
                    },
                );
                return;
            },
            CaptureSourceHealth::Healthy => {},
        }
        let independent = match self.active_committed_source {
            CommittedSourceClass::IndependentCommitted => true,
            _ => false,
        };
        let low_disk = match self.disk_free_basis_points {
            Some(b) => b < DISK_HEALTHY_BASIS_POINTS,
            None => false,
        };
        if independent {
            self.health = CaptureHealth::Yellow;
            self.reason_code = Some(INDEPENDENT_ACTIVE_REASON);
        } else if low_disk {
            self.health = CaptureHealth::Yellow;
            self.reason_code = Some(LOW_DISK_REASON);
        } else {
            self.health = CaptureHealth::Green;
            self.reason_code = None;
        }
        self.ready = true;
    }

    /// A failure that will be retried: yellow, not ready.
    pub fn set_retryable(&mut self, reason_code: &'static str)
        ensures
            *final(self) == (RuntimeHealthSnapshot {
                health: CaptureHealth::Yellow,
                ready: false,
                reason_code: Some(reason_code),
                ..*old(self)
            }),
    {
        self.health = CaptureHealth::Yellow;
        self.ready = false;
        self.reason_code = Some(reason_code);
    }

    /// A failure that needs an operator: red, not ready.
    pub fn set_latched(&mut self, reason_code: &'static str)
        ensures
            *final(self) == (RuntimeHealthSnapshot {
                health: CaptureHealth::Red,
                ready: false,
                reason_code: Some(reason_code),
                ..*old(self)
            }),
    {
        self.health = CaptureHealth::Red;
        self.ready = false;
        self.reason_code = Some(reason_code);
    }

    /// Recomputes the capture backlog.
    pub fn refresh_capture_backlog(&mut self)
        ensures
            *final(self) == with_backlog(*old(self)),
    {
        let latest = match self.active_committed_source {
            CommittedSourceClass::LocallyVerifiedCommitted => self.latest_primary_height,
            CommittedSourceClass::IndependentCommitted => self.latest_independent_height,
        };
        match (latest, self.next_expected_capture_height) {
            (Some(l), Some(n)) => {
                if l < n {
                    self.capture_backlog_records = 0;
                    self.oldest_pending_capture_height = None;
                } else {
                    let d = l - n;
                    self.capture_backlog_records = if d == u64::MAX {
                        u64::MAX
                    } else {
                        d + 1
                    };
                    self.oldest_pending_capture_height = Some(n);
                }
            },
            _ => {
                self.capture_backlog_records = 0;
                self.oldest_pending_capture_height = None;
            },
        }
    }

    /// The committed sources open: each starts; a failover decision made before makes
    /// the independent source active.
    pub fn configure_committed_sources(&mut self, has_independent: bool, failover: Option<&FailoverDecision>)
        ensures
            *final(self) == with_backlog(
                RuntimeHealthSnapshot {
                    primary_source_health: CaptureSourceHealth::Starting,
                    independent_source_health: if has_independent {
                        Some(CaptureSourceHealth::Starting)
                    } else {
                        None
                    },
                    active_committed_source: match failover {
                        Some(_) => CommittedSourceClass::IndependentCommitted,
                        None => old(self).active_committed_source,
                    },
                    failover_height: match failover {
                        Some(d) => Some(d@.failover_height),
                        None => old(self).failover_height,
                    },
                    failover_reason: match failover {
                        Some(d) => Some(d@.reason),
                        None => old(self).failover_reason,
                    },
                    ..*old(self)
                },
            ),
    {
        self.primary_source_health = CaptureSourceHealth::Starting;
        self.independent_source_health = if has_independent {
            Some(CaptureSourceHealth::Starting)
        } else {
            None
        };
        match failover {
            Some(d) => {
                self.active_committed_source = CommittedSourceClass::IndependentCommitted;
                self.failover_height = Some(d.failover_height());
                self.failover_reason = Some(d.reason());
            },
            None => {},
        }
        self.refresh_capture_backlog();
    }

    /// Fails over to the independent source: it is active and healthy, and the runtime
    /// ready but yellow.
    pub fn activate_independent(&mut self, decision: &FailoverDecision)
        ensures
            *final(self) == with_backlog(
                RuntimeHealthSnapshot {
                    active_committed_source: CommittedSourceClass::IndependentCommitted,
                    failover_height: Some(decision@.failover_height),
                    failover_reason: Some(decision@.reason),
                    independent_source_health: Some(CaptureSourceHealth::Healthy),
                    health: CaptureHealth::Yellow,
                    ready: true,
                    reason_code: final(self).reason_code,
                    ..*old(self)
                },
            ),
            reason_view(final(self).reason_code) == Some(INDEPENDENT_ACTIVE_REASON@),
    {
        self.active_committed_source = CommittedSourceClass::IndependentCommitted;
        self.failover_height = Some(decision.failover_height());
        self.failover_reason = Some(decision.reason());
        self.independent_source_health = Some(CaptureSourceHealth::Healthy);
        self.health = CaptureHealth::Yellow;
        self.ready = true;
        self.reason_code = Some(INDEPENDENT_ACTIVE_REASON);
        self.refresh_capture_backlog();
    }

    /// A source is missing a range.
    pub fn record_source_gap(&mut self, source: CommittedSourceClass)
        ensures
            *final(self) == match source {
                CommittedSourceClass::LocallyVerifiedCommitted => RuntimeHealthSnapshot {
                    primary_source_health: CaptureSourceHealth::RangeUnavailable,
                    ..*old(self)
                },
                CommittedSourceClass::IndependentCommitted => RuntimeHealthSnapshot {
                    independent_source_health: Some(CaptureSourceHealth::RangeUnavailable),
                    ..*old(self)
                },
            },
    {
        match source {
            CommittedSourceClass::LocallyVerifiedCommitted => {
                self.primary_source_health = CaptureSourceHealth::RangeUnavailable;
            },
            CommittedSourceClass::IndependentCommitted => {
                self.independent_source_health = Some(CaptureSourceHealth::RangeUnavailable);
            },
        }
    }

    /// A source is healthy.
    pub fn record_source_healthy(&mut self, source: CommittedSourceClass)
        ensures
            *final(self) == match source {
                CommittedSourceClass::LocallyVerifiedCommitted => RuntimeHealthSnapshot {
                    primary_source_health: CaptureSourceHealth::Healthy,
                    ..*old(self)
                },
                CommittedSourceClass::IndependentCommitted => RuntimeHealthSnapshot {
                    independent_source_health: Some(CaptureSourceHealth::Healthy),
                    ..*old(self)
                },
            },
    {
        match source {
            CommittedSourceClass::LocallyVerifiedCommitted => {
                self.primary_source_health = CaptureSourceHealth::Healthy;
            },
            CommittedSourceClass::IndependentCommitted => {
                self.independent_source_health = Some(CaptureSourceHealth::Healthy);
            },
        }
    }

    /// A block at `captured_height` was captured from `source`: the source is healthy,
    /// its latest height is the larger one, the disk reading is current.
    pub fn record_capture(&mut self, source: CommittedSourceClass, captured_height: u64, disk_free_basis_points: u16)
        ensures
            *final(self) == with_backlog(
                match source {
                    CommittedSourceClass::LocallyVerifiedCommitted => RuntimeHealthSnapshot {
                        latest_primary_height: Some(
                            match old(self).latest_primary_height {
                                Some(c) => if c > captured_height {
                                    c
                                } else {
                                    captured_height
                                },
                                None => captured_height,
                            },
                        ),
                        primary_source_health: CaptureSourceHealth::Healthy,
                        disk_free_basis_points: Some(disk_free_basis_points),
                        ..*old(self)
                    },
                    CommittedSourceClass::IndependentCommitted => RuntimeHealthSnapshot {
                        latest_independent_height: Some(
                            match old(self).latest_independent_height {
                                Some(c) => if c > captured_height {
                                    c
                                } else {
                                    captured_height
                                },
                                None => captured_height,
                            },
                        ),
                        independent_source_health: Some(CaptureSourceHealth::Healthy),
                        disk_free_basis_points: Some(disk_free_basis_points),
                        ..*old(self)
                    },
                },
            ),
    {
        match source {
            CommittedSourceClass::LocallyVerifiedCommitted => {
                self.latest_primary_height = Some(
                    match self.latest_primary_height {
                        Some(c) => if c > captured_height {
                            c
                        } else {
                            captured_height
                        },
                        None => captured_height,
                    },
                );
                self.primary_source_health = CaptureSourceHealth::Healthy;
            },
            CommittedSourceClass::IndependentCommitted => {
                self.latest_independent_height = Some(
                    match self.latest_independent_height {
                        Some(c) => if c > captured_height {
                            c
                        } else {
                            captured_height
                        },
                        None => captured_height,
                    },
                );
                self.independent_source_health = Some(CaptureSourceHealth::Healthy);
            },
        }
        self.disk_free_basis_points = Some(disk_free_basis_points);
        self.refresh_capture_backlog();
    }

    /// The current free-disk reading.
    pub fn record_disk_capacity(&mut self, disk_free_basis_points: u16)
        ensures
            *final(self) == (RuntimeHealthSnapshot {
                disk_free_basis_points: Some(disk_free_basis_points),
                ..*old(self)
            }),
    {
        self.disk_free_basis_points = Some(disk_free_basis_points);
    }

    /// The next height the runtime expects to capture.
    pub fn record_next_expected(&mut self, next_expected: u64)
        ensures
            *final(self) == with_backlog(
                RuntimeHealthSnapshot { next_expected_capture_height: Some(next_expected), ..*old(self) },
            ),
    {
        self.next_expected_capture_height = Some(next_expected);
        self.refresh_capture_backlog();
    }
}

/// Readiness never outruns the active source: a ready runtime's active source is
/// healthy, a runtime whose independent source is active is never green, and a runtime
/// on its primary source with less than twenty percent of its disk free is not green.
pub proof fn law_readiness_follows_active_source(s: RuntimeHealthSnapshot)
    ensures
        readied(s).1 ==> active_health(s) == CaptureSourceHealth::Healthy,
        s.active_committed_source == CommittedSourceClass::IndependentCommitted ==> readied(s).0 != CaptureHealth::Green,
        (s.disk_free_basis_points matches Some(b) && b < DISK_HEALTHY_BASIS_POINTS) ==> readied(s).0
            != CaptureHealth::Green,
        active_health(s) == CaptureSourceHealth::Starting ==> !readied(s).1,
{
}

/// The backlog counts every height from the next expected one to the latest captured,
/// both included (saturating at the largest count), and is empty once the next expected
/// height passes the latest.
pub proof fn law_backlog_counts_pending_heights(s: RuntimeHealthSnapshot, latest: u64, next: u64)
    requires
        s.active_committed_source == CommittedSourceClass::LocallyVerifiedCommitted,
        s.latest_primary_height == Some(latest),
        s.next_expected_capture_height == Some(next),
    ensures
        latest >= next && latest - next < u64::MAX ==> backlog_of(s) == ((latest - next + 1) as u64, Some(next)),
        latest < next ==> backlog_of(s) == (0u64, None::<u64>),
{
}

} // verus!
