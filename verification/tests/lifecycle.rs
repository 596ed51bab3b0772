use hl_capture::lifecycle::{
    classify_join, keep_first_error, run_result, validate_task_set, AppError, CaptureRuntimeConfig,
    CaptureRuntimeError, JoinOutcome,
};
use hl_capture::service_errors::{info_budget_status_path, RawSegmentArchiveConfig, RawSegmentArchiveError};

#[test]
fn task_sets_need_distinct_names_and_a_grace_period() {
    assert_eq!(validate_task_set(1, &vec!["capture", "status"]), Ok(()));
    assert_eq!(validate_task_set(1, &vec![]), Err(AppError::InvalidTaskSet));
    assert_eq!(validate_task_set(0, &vec!["capture"]), Err(AppError::InvalidTaskSet));
    assert_eq!(validate_task_set(1, &vec!["capture", "capture"]), Err(AppError::InvalidTaskSet));
    assert_eq!(validate_task_set(1, &vec![""]), Err(AppError::InvalidTaskSet));
    assert_eq!(AppError::InvalidTaskSet.reason_code(), "capture_app.invalid_task_set");
}

#[test]
fn a_task_ending_before_shutdown_is_an_error() {
    assert_eq!(
        classify_join(JoinOutcome::Finished { task: "capture", result: Ok(()) }, false),
        Err(AppError::TaskExited { task: "capture" })
    );
    assert_eq!(classify_join(JoinOutcome::Finished { task: "capture", result: Ok(()) }, true), Ok(()));
    let failed = AppError::TaskFailed { task: "capture", reason_code: "capture_disk.low_space" };
    assert_eq!(
        classify_join(JoinOutcome::Finished { task: "capture", result: Err(failed.clone()) }, true),
        Err(failed)
    );
    assert_eq!(
        classify_join(JoinOutcome::Panicked { task: None }, true),
        Err(AppError::TaskPanicked { task: "unknown" })
    );
    assert_eq!(classify_join(JoinOutcome::NoTask, true), Err(AppError::InvalidTaskSet));
}

#[test]
fn the_first_error_decides_the_run() {
    let exited = AppError::TaskExited { task: "a" };
    assert_eq!(run_result(Some(Err(exited.clone())), Some(AppError::ShutdownTimeout)), Err(exited.clone()));
    assert_eq!(run_result(Some(Ok(())), Some(AppError::ShutdownTimeout)), Err(AppError::ShutdownTimeout));
    assert_eq!(run_result(None, None), Ok(()));
    assert_eq!(keep_first_error(None, Err(exited.clone())), Some(exited.clone()));
    assert_eq!(keep_first_error(Some(exited.clone()), Err(AppError::ShutdownTimeout)), Some(exited));
    assert_eq!(keep_first_error(None, Ok(())), None);
}

#[test]
fn runtime_settings_are_bounded() {
    let ok = CaptureRuntimeConfig::try_new("mainnet".to_string(), 1, 10, 1_000_000_000, 5_000_000_000, "build-1".to_string())
        .expect("config");
    assert_eq!(ok.recovery_limit, 10);
    for (limit, heartbeat, grace, build) in [
        (0, 1, 1, "b"),
        (10_000_001, 1, 1, "b"),
        (1, 0, 1, "b"),
        (1, 60_000_000_001, 1, "b"),
        (1, 1, 300_000_000_001, "b"),
        (1, 1, 1, ""),
        (1, 1, 1, "b "),
    ] {
        assert_eq!(
            CaptureRuntimeConfig::try_new("mainnet".to_string(), 1, limit, heartbeat, grace, build.to_string()).err(),
            Some(CaptureRuntimeError::InvalidConfig)
        );
    }
    assert_eq!(
        CaptureRuntimeError::Lifecycle(AppError::ShutdownTimeout).reason_code(),
        "capture_app.shutdown_timeout"
    );
}

#[test]
fn raw_archive_batches_are_bounded() {
    let config = RawSegmentArchiveConfig::try_new(1024, 10, 4096).expect("config");
    assert_eq!((config.max_payload_bytes(), config.max_batch_records(), config.max_batch_bytes()), (1024, 10, 4096));
    assert_eq!(RawSegmentArchiveConfig::try_new(0, 10, 4096), Err(RawSegmentArchiveError::InvalidConfig));
    assert_eq!(RawSegmentArchiveConfig::try_new(8192, 10, 4096), Err(RawSegmentArchiveError::InvalidConfig));
    assert_eq!(RawSegmentArchiveConfig::try_new(1, 1_000_001, 4096), Err(RawSegmentArchiveError::InvalidConfig));
    assert_eq!(RawSegmentArchiveConfig::try_new(1, 1, 1_073_741_825), Err(RawSegmentArchiveError::InvalidConfig));
}

#[test]
fn status_files_live_side_by_side() {
    assert_eq!(info_budget_status_path("/run/capture/status.json"), "/run/capture/info-budget.json");
    assert_eq!(info_budget_status_path("status.json"), "info-budget.json");
}
