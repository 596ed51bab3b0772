use hl_capture::disk::{
    available_from_statistics, free_basis_points_from_statistics, least_of, DiskReserveError, DiskReserveGuard,
    DiskSpaceProbe,
};
use hl_capture::failover::{
    check_stored, hash_material, is_lowercase_hash, record_outcome, FailoverDecision, FailoverError,
    FailoverReason, FailoverRecordDisposition, FailoverStore, FAILOVER_SCHEMA_VERSION,
};
use hl_capture::jetstream::{
    normalize_secret, secret_file_acceptable, JetStreamAuthentication, JetStreamConfig, JetStreamConfigError,
};

struct FixedProbe {
    available: u64,
    basis_points: u16,
}

impl DiskSpaceProbe for FixedProbe {
    fn minimum_available_bytes(&self) -> Result<u64, DiskReserveError> {
        Ok(self.available)
    }

    fn minimum_free_basis_points(&self) -> Result<u16, DiskReserveError> {
        Ok(self.basis_points)
    }
}

fn decision(height: u64) -> FailoverDecision {
    FailoverDecision::try_new("mainnet", "primary", "independent", height, FailoverReason::PrimaryRangeUnavailable)
        .expect("decision")
}

#[test]
fn failover_decisions_need_two_sources() {
    assert!(matches!(
        FailoverDecision::try_new("mainnet", "same", "same", 1, FailoverReason::PrimaryRangeUnavailable),
        Err(FailoverError::InvalidDecision)
    ));
    let d = decision(42);
    assert_eq!(d.failover_height(), 42);
    assert_eq!(d.independent_source_id(), "independent");
    assert_eq!(d.validate_topology("mainnet", "primary", "independent"), Ok(()));
    assert_eq!(d.validate_topology("mainnet", "independent", "primary"), Err(FailoverError::TopologyMismatch));
}

#[test]
fn a_failover_is_recorded_once() {
    assert_eq!(record_outcome(None, &decision(42)), Ok(None));
    assert_eq!(record_outcome(Some(&decision(42)), &decision(42)), Ok(Some(FailoverRecordDisposition::Identical)));
    assert_eq!(record_outcome(Some(&decision(42)), &decision(43)), Err(FailoverError::ConflictingDecision));
    assert_eq!(FailoverError::ConflictingDecision.reason_code(), "capture_failover.conflicting_decision");
}

#[test]
fn stored_failovers_are_checked_against_their_hash() {
    let material = b"{\"failover_height\":42}";
    let hash = hash_material(material);
    assert!(is_lowercase_hash(&hash));
    let mut pre = b"hyperliquid-alpha-desk/committed-source-failover/v1".to_vec();
    pre.extend_from_slice(material);
    assert_eq!(hash, blake3::hash(&pre).to_hex().to_string());
    assert_eq!(check_stored(FAILOVER_SCHEMA_VERSION, &hash, material), Ok(()));
    assert_eq!(check_stored(FAILOVER_SCHEMA_VERSION, &hash, b"other"), Err(FailoverError::Integrity));
    assert_eq!(check_stored("hl.capture.failover.v0", &hash, material), Err(FailoverError::Integrity));
    assert_eq!(check_stored(FAILOVER_SCHEMA_VERSION, &hash.to_uppercase(), material), Err(FailoverError::Integrity));
    assert!(!is_lowercase_hash("abc"));
}

#[test]
fn failover_files_live_on_safe_paths() {
    assert_eq!(FailoverStore::new("/var/lib/capture/failover.json").expect("store").path(), "/var/lib/capture/failover.json");
    assert!(matches!(FailoverStore::new(""), Err(FailoverError::UnsafePath)));
    assert!(matches!(FailoverStore::new("/"), Err(FailoverError::UnsafePath)));
    assert!(matches!(FailoverStore::new("/var/../etc/x"), Err(FailoverError::UnsafePath)));
}

#[test]
fn disk_readings_from_statistics() {
    assert_eq!(available_from_statistics(4096, 8192, 10), Ok(40_960));
    assert_eq!(available_from_statistics(0, 8192, 10), Ok(81_920));
    assert_eq!(available_from_statistics(u64::MAX, 1, 2), Err(DiskReserveError::SizeOverflow));
    assert_eq!(free_basis_points_from_statistics(25, 100), Ok(2_500));
    assert_eq!(free_basis_points_from_statistics(1, 0), Err(DiskReserveError::Probe));
    assert_eq!(least_of(&vec![Ok(30), Ok(10), Ok(20)]), Ok(10));
    assert_eq!(least_of(&vec![Ok(30), Err(DiskReserveError::Probe)]), Err(DiskReserveError::Probe));
    assert_eq!(least_of(&vec![]), Err(DiskReserveError::InvalidConfig));
}

#[test]
fn writes_keep_the_reserve_and_a_tenth_free() {
    assert!(matches!(DiskReserveGuard::try_new(FixedProbe { available: 1, basis_points: 1 }, 0), Err(DiskReserveError::InvalidConfig)));
    let guard = DiskReserveGuard::try_new(FixedProbe { available: 1_000, basis_points: 2_000 }, 100).expect("guard");
    let capacity = guard.ensure_write(900).expect("fits");
    assert_eq!(capacity.available_bytes(), 1_000);
    assert_eq!(capacity.remaining_after_write_bytes(), 100);
    assert_eq!(capacity.free_basis_points(), 2_000);
    assert_eq!(
        guard.ensure_write(901),
        Err(DiskReserveError::InsufficientSpace { available: 1_000, required: 1_001 })
    );
    let low = DiskReserveGuard::try_new(FixedProbe { available: 1_000, basis_points: 999 }, 100).expect("guard");
    assert_eq!(
        low.ensure_write(1),
        Err(DiskReserveError::InsufficientFreePercentage { available_basis_points: 999, required_basis_points: 1_000 })
    );
    assert_eq!(DiskReserveError::Probe.reason_code(), "capture_disk.probe");
}

#[test]
fn jetstream_settings_are_checked() {
    let config = JetStreamConfig::try_new("nats://127.0.0.1:4222", JetStreamAuthentication::Anonymous, 1_000, 1_000, 10, 100)
        .expect("config");
    assert_eq!(config.server_url(), "nats://127.0.0.1:4222");
    assert_eq!(config.ledger_capacity(), 100);
    let bad_url = |url: &str| JetStreamConfig::try_new(url, JetStreamAuthentication::Anonymous, 1_000, 1_000, 10, 100).err();
    assert_eq!(bad_url("http://127.0.0.1:4222"), Some(JetStreamConfigError::UnsafeServerUrl));
    assert_eq!(bad_url("nats://user@host:4222"), Some(JetStreamConfigError::UnsafeServerUrl));
    assert_eq!(bad_url("nats://host:4222/path"), Some(JetStreamConfigError::UnsafeServerUrl));
    assert_eq!(bad_url("nats://"), Some(JetStreamConfigError::UnsafeServerUrl));
    assert_eq!(
        JetStreamConfig::try_new(
            "tls://host:4222",
            JetStreamAuthentication::CredentialsFile("relative/creds".to_string()),
            1_000,
            1_000,
            10,
            100
        )
        .err(),
        Some(JetStreamConfigError::UnsafeCredentialsPath)
    );
    assert_eq!(
        JetStreamConfig::try_new("tls://host:4222", JetStreamAuthentication::Anonymous, 0, 1_000, 10, 100).err(),
        Some(JetStreamConfigError::InvalidConnectTimeout)
    );
    assert_eq!(
        JetStreamConfig::try_new("tls://host:4222", JetStreamAuthentication::Anonymous, 1_000, 1_000, 10, 0).err(),
        Some(JetStreamConfigError::InvalidLedgerCapacity)
    );
}

#[test]
fn secrets_are_read_from_private_files() {
    assert!(secret_file_acceptable(false, true, 16, 0o600));
    assert!(!secret_file_acceptable(false, true, 16, 0o640));
    assert!(!secret_file_acceptable(true, true, 16, 0o600));
    assert!(!secret_file_acceptable(false, true, 16_385, 0o600));
    assert_eq!(normalize_secret("selected-secret\n").as_deref(), Some("selected-secret"));
    assert_eq!(normalize_secret("selected-secret\r\n").as_deref(), Some("selected-secret"));
    assert_eq!(normalize_secret("\n"), None);
    assert_eq!(normalize_secret("bad\u{7}secret"), None);
}
