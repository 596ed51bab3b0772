//! The capture runtime's lifecycle: its settings, the set of tasks it owns, how a task's
//! end is judged, and which error a run reports.

use vstd::prelude::*;

use crate::text::{has_control, trimmed, byte_len};

verus! {

/// Why the runtime's task set failed.
#[derive(Debug, Clone, PartialEq, Eq)]
pub enum AppError {
    TaskFailed { task: &'static str, reason_code: &'static str },
    TaskExited { task: &'static str },
    TaskPanicked { task: &'static str },
    InvalidTaskSet,
    ShutdownTimeout,
}

pub open spec fn app_reason(e: AppError) -> Seq<char> {
    match e {
        AppError::TaskFailed { .. } => "capture_app.task_failed"@,
        AppError::TaskExited { .. } => "capture_app.task_exited"@,
        AppError::TaskPanicked { .. } => "capture_app.task_panicked"@,
        AppError::InvalidTaskSet => "capture_app.invalid_task_set"@,
        AppError::ShutdownTimeout => "capture_app.shutdown_timeout"@,
    }
}

impl AppError {
    pub fn reason_code(&self) -> (r: &'static str)
        ensures
            r@ == app_reason(*self),
    {
        match self {
            AppError::TaskFailed { .. } => "capture_app.task_failed",
            AppError::TaskExited { .. } => "capture_app.task_exited",
            AppError::TaskPanicked { .. } => "capture_app.task_panicked",
            AppError::InvalidTaskSet => "capture_app.invalid_task_set",
            AppError::ShutdownTimeout => "capture_app.shutdown_timeout",
        }
    }
}

/// A task set may run: at least one task, a nonzero grace period, and task names that
/// are nonempty and distinct.
pub open spec fn task_set_ok(grace_nanos: u128, names: Seq<Seq<char>>) -> bool {
    &&& names.len() > 0
    &&& grace_nanos > 0
    &&& forall|i: int| 0 <= i < names.len() ==> (#[trigger] names[i]).len() > 0
    &&& forall|i: int, j: int| 0 <= i < j < names.len() ==> #[trigger] names[i] != #[trigger] names[j]
}

pub fn validate_task_set(grace_nanos: u128, names: &Vec<&'static str>) -> (r: Result<(), AppError>)
    ensures
        r is Ok <==> task_set_ok(grace_nanos, names@.map_values(|n: &'static str| n@)),
        r is Err ==> r == Err::<(), AppError>(AppError::InvalidTaskSet),
{
    let ghost ns = names@.map_values(|n: &'static str| n@);
    if names.len() == 0 || grace_nanos == 0 {
        return Err(AppError::InvalidTaskSet);
    }
    let mut i: usize = 0;
    while i < names.len()
        invariant
            i <= names@.len(),
            ns == names@.map_values(|n: &'static str| n@),
            forall|a: int| 0 <= a < i ==> (#[trigger] ns[a]).len() > 0,
            forall|a: int, b: int| 0 <= a < b < i ==> #[trigger] ns[a] != #[trigger] ns[b],
        decreases names@.len() - i,
    {
        let c = crate::text::chars_of(names[i]);
        if c.len() == 0 {
            assert(ns[i as int].len() == 0);
            return Err(AppError::InvalidTaskSet);
        }
        let mut j: usize = 0;
        while j < i
            invariant
                j <= i < names@.len(),
                ns == names@.map_values(|n: &'static str| n@),
                forall|b: int| 0 <= b < j ==> ns[b] != ns[i as int],
            decreases i - j,
        {
            if crate::text::same_text(names[j], names[i]) {
                assert(ns[j as int] == ns[i as int]);
                return Err(AppError::InvalidTaskSet);
            }
            j = j + 1;
        }
        i = i + 1;
    }
    Ok(())
}

/// How an owned task ended.
#[derive(Debug, PartialEq, Eq)]
pub enum JoinOutcome {
    /// It returned, successfully or with an error.
    Finished { task: &'static str, result: Result<(), AppError> },
    /// It panicked; its name, when it is still known.
    Panicked { task: Option<&'static str> },
    /// No task was left to join.
    NoTask,
}

/// What a task's end means: a task returning before shutdown began exited too early; a
/// task's own error stands; a panic names its task (`unknown` when that is lost).
pub fn classify_join(outcome: JoinOutcome, shutdown_started: bool) -> (r: Result<(), AppError>)
    ensures
        r == match outcome {
            JoinOutcome::Finished { task, result } => match result {
                Ok(()) => if shutdown_started {
                    Ok::<(), AppError>(())
                } else {
                    Err(AppError::TaskExited { task })
                },
                Err(e) => Err(e),
            },
            JoinOutcome::Panicked { task: Some(t) } => Err(AppError::TaskPanicked { task: t }),
            JoinOutcome::Panicked { task: None } => r,
            JoinOutcome::NoTask => Err(AppError::InvalidTaskSet),
        },
        outcome matches JoinOutcome::Panicked { task: None } ==> (r matches Err(AppError::TaskPanicked { task })
            && task@ == "unknown"@),
{
    match outcome {
        JoinOutcome::Finished { task, result } => match result {
            Ok(()) => {
                if shutdown_started {
                    Ok(())
                } else {
                    Err(AppError::TaskExited { task })
                }
            },
            Err(e) => Err(e),
        },
        JoinOutcome::Panicked { task } => {
            let name = match task {
                Some(t) => t,
                None => "unknown",
            };
            proof {
                reveal_strlit("unknown");
            }
            Err(AppError::TaskPanicked { task: name })
        },
        JoinOutcome::NoTask => Err(AppError::InvalidTaskSet),
    }
}

/// The error of a run: the first task to end before cancellation decides, unless it
/// ended cleanly; then the first error while draining, or a drain that overran its grace.
pub fn run_result(primary: Option<Result<(), AppError>>, shutdown: Option<AppError>) -> (r: Result<(), AppError>)
    ensures
        r == match primary {
            Some(Err(e)) => Err::<(), AppError>(e),
            _ => match shutdown {
                Some(e) => Err(e),
                None => Ok(()),
            },
        },
{
    match primary {
        Some(Err(e)) => Err(e),
        _ => match shutdown {
            Some(e) => Err(e),
            None => Ok(()),
        },
    }
}

/// The first error seen while draining tasks.
pub fn keep_first_error(first: Option<AppError>, next: Result<(), AppError>) -> (r: Option<AppError>)
    ensures
        r == match first {
            Some(e) => Some(e),
            None => match next {
                Err(e) => Some(e),
                Ok(()) => None,
            },
        },
{
    match first {
        Some(e) => Some(e),
        None => match next {
            Err(e) => Some(e),
            Ok(()) => None,
        },
    }
}

pub const MAX_RECOVERY_BLOCKS: usize = 10000000;
pub const MAX_HEARTBEAT_INTERVAL_NANOS: u128 = 60000000000;
pub const MAX_SHUTDOWN_GRACE_NANOS: u128 = 300000000000;
pub const MAX_BUILD_ID_BYTES: usize = 256;

/// Why the capture runtime stopped.
#[derive(Debug, Clone, PartialEq, Eq)]
pub enum CaptureRuntimeError {
    InvalidConfig,
    Coordinator,
    Progress,
    Status,
    StatusOverflow,
    Clock,
    Lifecycle(AppError),
}

pub open spec fn runtime_reason(e: CaptureRuntimeError) -> Seq<char> {
    match e {
        CaptureRuntimeError::InvalidConfig => "capture_runtime.invalid_config"@,
        CaptureRuntimeError::Coordinator => "capture_runtime.coordinator"@,
        CaptureRuntimeError::Progress => "capture_runtime.progress"@,
        CaptureRuntimeError::Status => "capture_runtime.status"@,
        CaptureRuntimeError::StatusOverflow => "capture_runtime.status_overflow"@,
        CaptureRuntimeError::Clock => "capture_runtime.clock"@,
        CaptureRuntimeError::Lifecycle(a) => app_reason(a),
    }
}

impl CaptureRuntimeError {
    pub fn reason_code(&self) -> (r: &'static str)
        ensures
            r@ == runtime_reason(*self),
    {
        match self {
            CaptureRuntimeError::InvalidConfig => "capture_runtime.invalid_config",
            CaptureRuntimeError::Coordinator => "capture_runtime.coordinator",
            CaptureRuntimeError::Progress => "capture_runtime.progress",
            CaptureRuntimeError::Status => "capture_runtime.status",
            CaptureRuntimeError::StatusOverflow => "capture_runtime.status_overflow",
            CaptureRuntimeError::Clock => "capture_runtime.clock",
            CaptureRuntimeError::Lifecycle(a) => a.reason_code(),
        }
    }
}

/// The runtime's settings are usable: a recovery limit of one to ten million blocks, a
/// heartbeat of at most a minute and a shutdown grace of at most five minutes (both
/// nonzero), and a nonempty, unpadded, control-free build identifier of at most 256
/// bytes.
pub open spec fn runtime_config_ok(
    recovery_limit: usize,
    heartbeat_nanos: u128,
    shutdown_grace_nanos: u128,
    build_id: Seq<char>,
) -> bool {
    &&& 1 <= recovery_limit <= MAX_RECOVERY_BLOCKS
    &&& 0 < heartbeat_nanos <= MAX_HEARTBEAT_INTERVAL_NANOS
    &&& 0 < shutdown_grace_nanos <= MAX_SHUTDOWN_GRACE_NANOS
    &&& build_id.len() > 0
    &&& trimmed(build_id)
    &&& byte_len(build_id) <= MAX_BUILD_ID_BYTES
    &&& !has_control(build_id)
}

/// The capture runtime's settings; durations are in nanoseconds.
#[derive(Debug, Clone)]
pub struct CaptureRuntimeConfig {
    pub chain_id: String,
    pub first_height: u64,
    pub recovery_limit: usize,
    pub heartbeat_interval_nanos: u128,
    pub shutdown_grace_nanos: u128,
    pub build_id: String,
}

impl CaptureRuntimeConfig {
    pub fn try_new(
        chain_id: String,
        first_height: u64,
        recovery_limit: usize,
        heartbeat_interval_nanos: u128,
        shutdown_grace_nanos: u128,
        build_id: String,
    ) -> (r: Result<Self, CaptureRuntimeError>)
        ensures
            runtime_config_ok(recovery_limit, heartbeat_interval_nanos, shutdown_grace_nanos, build_id@)
                ==> (r matches Ok(c) && c.chain_id@ == chain_id@ && c.first_height == first_height
                && c.recovery_limit == recovery_limit && c.heartbeat_interval_nanos == heartbeat_interval_nanos
                && c.shutdown_grace_nanos == shutdown_grace_nanos && c.build_id@ == build_id@),
            !runtime_config_ok(recovery_limit, heartbeat_interval_nanos, shutdown_grace_nanos, build_id@)
                ==> r == Err::<Self, CaptureRuntimeError>(CaptureRuntimeError::InvalidConfig),
    {
        if recovery_limit == 0 || recovery_limit > MAX_RECOVERY_BLOCKS || heartbeat_interval_nanos == 0
            || heartbeat_interval_nanos > MAX_HEARTBEAT_INTERVAL_NANOS || shutdown_grace_nanos == 0
            || shutdown_grace_nanos > MAX_SHUTDOWN_GRACE_NANOS || !crate::text::valid_identity(
            build_id.as_str(),
            MAX_BUILD_ID_BYTES,
        ) {
            return Err(CaptureRuntimeError::InvalidConfig);
        }
        Ok(CaptureRuntimeConfig {
            chain_id,
            first_height,
            recovery_limit,
            heartbeat_interval_nanos,
            shutdown_grace_nanos,
            build_id,
        })
    }
}

} // verus!
