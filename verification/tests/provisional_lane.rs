use hl_capture::provisional_pipeline::{CommittedFact, InboundClass, LaneDecision, LaneError, ProvisionalWsLane, WsLaneObservation};

fn observation(key: &str, hash: u8, class: InboundClass, at: u64) -> WsLaneObservation {
    WsLaneObservation::try_new(key, "trades", [hash; 32], class, at).expect("observation")
}

#[test]
fn lane_observations_need_a_key_and_family() {
    assert_eq!(WsLaneObservation::try_new("", "trades", [0; 32], InboundClass::IncrementalEvent, 0).unwrap_err(), LaneError::InvalidIdentity);
    assert_eq!(WsLaneObservation::try_new(" k", "trades", [0; 32], InboundClass::IncrementalEvent, 0).unwrap_err(), LaneError::InvalidIdentity);
    assert_eq!(WsLaneObservation::try_new("k", "", [0; 32], InboundClass::IncrementalEvent, 0).unwrap_err(), LaneError::InvalidIdentity);
}

#[test]
fn committed_fact_confirms_a_matching_provisional_event() {
    let mut lane = ProvisionalWsLane::new(1_000);
    assert!(!lane.advances_committed_watermark());
    let opened = lane.observe_ws(&observation("k1", 1, InboundClass::IncrementalEvent, 0));
    assert!(matches!(opened, LaneDecision::ProvisionalOpen { ref key, .. } if key == "k1"));
    assert_eq!(lane.unmatched_count(), 1);
    let fact = CommittedFact::try_new("k1", [1; 32]).unwrap();
    assert_eq!(lane.observe_committed(&fact, 10), LaneDecision::Confirmed { key: "k1".to_string() });
    assert_eq!(lane.unmatched_count(), 0);
    // A fact nothing is waiting for changes nothing.
    assert_eq!(lane.observe_committed(&fact, 10), LaneDecision::Ignored);
}

#[test]
fn committed_fact_with_another_hash_is_a_conflict() {
    let mut lane = ProvisionalWsLane::new(1_000);
    lane.observe_ws(&observation("k1", 1, InboundClass::IncrementalEvent, 0));
    let fact = CommittedFact::try_new("k1", [2; 32]).unwrap();
    assert!(matches!(lane.observe_committed(&fact, 10), LaneDecision::Conflict { .. }));
    assert_eq!(lane.unmatched_count(), 0);
    assert_eq!(lane.findings().len(), 1);
}

#[test]
fn repeated_snapshot_is_a_duplicate_and_red_source_suppresses() {
    let mut lane = ProvisionalWsLane::new(1_000);
    assert!(matches!(lane.observe_ws(&observation("s", 3, InboundClass::SnapshotReplace, 0)), LaneDecision::SnapshotReplace { .. }));
    assert_eq!(lane.observe_ws(&observation("s", 3, InboundClass::SnapshotReplace, 1)), LaneDecision::DuplicateSnapshot { key: "s".to_string() });
    assert_eq!(lane.observe_ws(&observation("h", 3, InboundClass::Heartbeat, 1)), LaneDecision::Ignored);
    lane.set_source_red(true);
    assert_eq!(lane.observe_ws(&observation("k", 1, InboundClass::IncrementalEvent, 2)), LaneDecision::Suppressed { key: "k".to_string() });
    assert_eq!(lane.unmatched_count(), 0);
}

#[test]
fn unconfirmed_events_expire_after_the_ttl() {
    let mut lane = ProvisionalWsLane::new(100);
    lane.observe_ws(&observation("k1", 1, InboundClass::IncrementalEvent, 0));
    lane.observe_ws(&observation("k2", 1, InboundClass::IncrementalEvent, 90));
    let expired = lane.expire(150);
    assert_eq!(expired, vec![LaneDecision::Expired { key: "k1".to_string() }]);
    assert_eq!(lane.unmatched_count(), 1);
}
