use hl_capture::config::{
    is_official_info_url, is_safe_source_path_component, path_has_dot_component, path_is_root, ConfigError,
    DurabilityPolicy, EgressConfig, EgressKind, EgressProxyConfig, SpoolConfig,
};
use hl_capture::egress::EgressPolicy;

fn spool(path: &str) -> SpoolConfig {
    SpoolConfig {
        path: path.to_string(),
        segment_target_bytes: 1_048_576,
        rotation_interval_seconds: 60,
        committed_durability: DurabilityPolicy::FsyncEveryRecord,
        provisional_durability: DurabilityPolicy::Batched { max_records: 10, max_delay_millis: 100 },
    }
}

fn egress() -> EgressConfig {
    EgressConfig {
        id: "official-info".to_string(),
        kind: EgressKind::OfficialInfo,
        base_url: "https://api.hyperliquid.xyz".to_string(),
        weight_per_minute: 1_200,
        safety_envelope_percent: 75,
        priority_reserve_percent: 40,
        proxy: None,
    }
}

#[test]
fn spool_settings_are_checked_in_order() {
    assert_eq!(spool("/var/spool/capture").validate(), Ok(()));
    assert_eq!(spool("/").validate(), Err(ConfigError::InvalidSpoolPath));
    assert_eq!(spool("/var/../spool").validate(), Err(ConfigError::InvalidSpoolPath));
    let mut small = spool("/var/spool");
    small.segment_target_bytes = 1_048_575;
    assert_eq!(small.validate(), Err(ConfigError::InvalidSegmentTarget));
    let mut slow = spool("/var/spool");
    slow.rotation_interval_seconds = 0;
    assert_eq!(slow.validate(), Err(ConfigError::InvalidRotationInterval));
    let mut batched = spool("/var/spool");
    batched.committed_durability = DurabilityPolicy::Batched { max_records: 1, max_delay_millis: 1 };
    assert_eq!(batched.validate(), Err(ConfigError::InvalidDurabilityPolicy));
    let mut bad = spool("/var/spool");
    bad.provisional_durability = DurabilityPolicy::Batched { max_records: 0, max_delay_millis: 1 };
    assert_eq!(bad.validate(), Err(ConfigError::InvalidDurabilityPolicy));
    assert_eq!(ConfigError::InvalidSpoolPath.reason_code(), "capture_config.invalid_spool_path");
}

#[test]
fn egress_paths_are_official_and_unproxied() {
    assert_eq!(egress().validate(), Ok(()));
    let mut proxied = egress();
    proxied.proxy = Some(EgressProxyConfig { mode: "rotating".to_string(), rotate: true, urls: vec![] });
    assert_eq!(proxied.validate(), Err(ConfigError::AnonymousProxyRejected));
    let mut exchange = egress();
    exchange.base_url = "https://api.hyperliquid.xyz/exchange".to_string();
    assert_eq!(exchange.validate(), Err(ConfigError::ExchangeEndpointForbidden));
    let mut heavy = egress();
    heavy.weight_per_minute = 2_400;
    assert_eq!(heavy.validate(), Err(ConfigError::InvalidEgress));
    let mut wide = egress();
    wide.safety_envelope_percent = 90;
    assert_eq!(wide.validate(), Err(ConfigError::InvalidEgress));
    let mut other = egress();
    other.base_url = "https://example.com/info".to_string();
    assert_eq!(other.validate(), Err(ConfigError::InvalidEgress));
    let policy = EgressPolicy::from_config(&egress()).expect("policy");
    assert_eq!(policy.id(), "official-info");
    assert_eq!(policy.base_url(), "https://api.hyperliquid.xyz");
}

#[test]
fn path_and_identity_helpers() {
    assert!(is_official_info_url("https://api.hyperliquid-testnet.xyz/info"));
    assert!(!is_official_info_url("https://api.hyperliquid.xyz/info/"));
    assert!(path_is_root("/"));
    assert!(path_is_root("//"));
    assert!(!path_is_root("/var"));
    assert!(path_has_dot_component("./x"));
    assert!(path_has_dot_component("/a/../b"));
    assert!(!path_has_dot_component("/a/..b"));
    assert!(is_safe_source_path_component("node-fills"));
    assert!(!is_safe_source_path_component("a/b"));
    assert!(!is_safe_source_path_component(".."));
}
