use hl_capture::failover::{FailoverDecision, FailoverReason};
use hl_capture::runtime_health::{CaptureHealth, CaptureSourceHealth, CommittedSourceClass, RuntimeHealthSnapshot};

#[test]
fn capture_telemetry_tracks_backlog_boundary_and_disk_percentage() {
    let mut health = RuntimeHealthSnapshot::new();
    health.record_next_expected(41);
    health.record_capture(CommittedSourceClass::LocallyVerifiedCommitted, 43, 2_345);

    let snapshot = health;
    assert_eq!(snapshot.capture_backlog_records, 3);
    assert_eq!(snapshot.oldest_pending_capture_height, Some(41));
    assert_eq!(snapshot.disk_free_basis_points, Some(2_345));

    health.record_next_expected(44);
    let caught_up = health;
    assert_eq!(caught_up.capture_backlog_records, 0);
    assert_eq!(caught_up.oldest_pending_capture_height, None);
    assert_eq!(caught_up.disk_free_basis_points, Some(2_345));
}

#[test]
fn ready_health_is_yellow_below_twenty_percent_disk_free() {
    let mut health = RuntimeHealthSnapshot::new();
    health.record_disk_capacity(1_500);

    health.set_ready();

    let snapshot = health;
    assert_eq!(snapshot.health, CaptureHealth::Yellow);
    assert!(snapshot.ready);
    assert_eq!(snapshot.reason_code, Some("capture_disk.low_space"));
}

#[test]
fn configured_source_must_open_healthy_before_readiness() {
    let mut health = RuntimeHealthSnapshot::new();
    health.configure_committed_sources(true, None);

    health.set_ready();

    let starting = health;
    assert_eq!(starting.health, CaptureHealth::Yellow);
    assert!(!starting.ready);
    assert_eq!(starting.reason_code, Some("capture_source.active_starting"));

    health.record_source_healthy(CommittedSourceClass::LocallyVerifiedCommitted);
    health.set_ready();
    assert!(health.ready);
}

#[test]
fn recovery_cannot_promote_an_active_independent_source_to_green() {
    let mut health = RuntimeHealthSnapshot::new();
    let decision = FailoverDecision::try_new(
        "mainnet",
        "primary-node",
        "independent-node",
        42,
        FailoverReason::PrimaryRangeUnavailable,
    )
    .unwrap();
    health.configure_committed_sources(true, Some(&decision));
    health.record_source_healthy(CommittedSourceClass::IndependentCommitted);

    health.set_ready();

    let snapshot = health;
    assert_eq!(snapshot.health, CaptureHealth::Yellow);
    assert!(snapshot.ready);
    assert_eq!(snapshot.reason_code, Some("capture_failover.independent_source_active"));
    assert_eq!(snapshot.independent_source_health, Some(CaptureSourceHealth::Healthy));
}

#[test]
fn a_new_runtime_is_recovering() {
    let health = RuntimeHealthSnapshot::new();
    assert_eq!(health.health, CaptureHealth::Red);
    assert!(!health.ready);
    assert_eq!(health.reason_code, Some("capture_runtime.recovering"));
}

#[test]
fn ready_with_a_healthy_primary_and_disk_is_green() {
    let mut health = RuntimeHealthSnapshot::new();
    health.record_disk_capacity(2_000);
    health.set_ready();
    assert_eq!(health.health, CaptureHealth::Green);
    assert!(health.ready);
    assert_eq!(health.reason_code, None);
}

#[test]
fn a_primary_gap_makes_the_runtime_red_and_not_ready() {
    let mut health = RuntimeHealthSnapshot::new();
    health.set_ready();
    health.record_source_gap(CommittedSourceClass::LocallyVerifiedCommitted);
    health.set_ready();
    assert_eq!(health.primary_source_health, CaptureSourceHealth::RangeUnavailable);
    assert_eq!(health.health, CaptureHealth::Red);
    assert!(!health.ready);
    assert_eq!(health.reason_code, Some("capture_source.primary_range_unavailable"));
}

#[test]
fn backlog_counts_every_height_from_next_to_latest() {
    let mut health = RuntimeHealthSnapshot::new();
    health.record_capture(CommittedSourceClass::LocallyVerifiedCommitted, 10, 5_000);
    assert_eq!(health.capture_backlog_records, 0);
    health.record_next_expected(7);
    assert_eq!(health.capture_backlog_records, 4);
    assert_eq!(health.oldest_pending_capture_height, Some(7));
    health.record_next_expected(11);
    assert_eq!(health.capture_backlog_records, 0);
}

#[test]
fn retryable_and_latched_failures_are_not_ready() {
    let mut health = RuntimeHealthSnapshot::new();
    health.set_retryable("capture_progress.storage");
    assert_eq!(health.health, CaptureHealth::Yellow);
    assert!(!health.ready);
    assert_eq!(health.reason_code, Some("capture_progress.storage"));
    health.set_latched("sequencer.conflicting_canonical_block");
    assert_eq!(health.health, CaptureHealth::Red);
    assert!(!health.ready);
}
