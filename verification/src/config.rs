//! Capture configuration and the rules a configuration must meet.
//!
//! The TOML reading itself belongs to the caller; this module holds the values and checks
//! them. Checks that belong to the source catalog (chain and source identifiers, the
//! admission of a trust for a class, catalog records) come in as the plain outcomes their
//! owners reported.

use vstd::prelude::*;

use crate::text::{
    byte_len, chars_of, char_is_ctl, identity_ok, owned, same_text, starts_with, str_contains,
    str_starts_with, valid_identity,
};

verus! {

pub const MAX_IDENTITY_BYTES: usize = 256;

pub const MAX_QUEUE_CAPACITY: usize = 1_000_000;

pub const MAX_PAYLOAD_BYTES: usize = 268_435_456;

pub const MIN_SEGMENT_TARGET_BYTES: u64 = 1_048_576;

pub const MAX_SEGMENT_TARGET_BYTES: u64 = 536_870_912;

pub const MAX_ROTATION_INTERVAL_SECONDS: u64 = 86_400;

pub const MAX_BATCH_RECORDS: u32 = 100_000;

pub const MAX_BATCH_DELAY_MILLIS: u64 = 60_000;

pub const MAX_SOURCE_POLL_INTERVAL_MILLIS: u64 = 60_000;

pub const MAX_RUNTIME_TIMEOUT_MILLIS: u64 = 300_000;

pub const MAX_RUNTIME_BLOCK_CAPACITY: usize = 10_000_000;

pub const MAX_RUNTIME_PATH_BYTES: usize = 4_096;

pub const MAX_DISK_RESERVE_BYTES: u64 = 17_592_186_044_416;

pub const MAX_NATS_SERVER_BYTES: usize = 2_048;

pub const MAX_NATS_ACK_INFLIGHT: usize = 100_000;

pub const OFFICIAL_REST_WEIGHT_PER_MINUTE: u32 = 1_200;

pub const MIN_SAFETY_ENVELOPE_PERCENT: u8 = 70;

pub const MAX_SAFETY_ENVELOPE_PERCENT: u8 = 80;

pub const DEFAULT_PRIORITY_RESERVE_PERCENT: u8 = 40;

pub const OFFICIAL_INFO_REQUEST_URL: &'static str = "https://api.hyperliquid.xyz/info";

pub const OFFICIAL_INFO_TESTNET_REQUEST_URL: &'static str = "https://api.hyperliquid-testnet.xyz/info";

/// Why a configuration was refused.
#[derive(Debug, Clone, Copy, PartialEq, Eq, Structural)]
pub enum ConfigError {
    InvalidToml,
    InvalidParserVersion,
    InvalidSpoolPath,
    InvalidSegmentTarget,
    InvalidRotationInterval,
    InvalidDurabilityPolicy,
    InvalidSourceId,
    DuplicateSource,
    InvalidSourceVersion,
    InvalidQueueCapacity,
    InvalidPayloadLimit,
    InvalidSourceTrust,
    InvalidSourceAdapter,
    InvalidSourceCatalog,
    IncompatibleSourceRole,
    IncompatibleOperatorKind,
    MissingProviderLicense,
    MissingPrimaryCommittedSource,
    DuplicatePrimaryCommittedSource,
    DuplicateIndependentCommittedSource,
    InvalidCommittedSourceAdapter,
    InvalidCredentialPath,
    MissingSources,
    InvalidChainId,
    InvalidRuntimePath,
    InvalidRuntimeIdentity,
    InvalidNatsServer,
    InvalidNatsStream,
    InvalidRuntimeLimit,
    InvalidStatusListen,
    Serialization,
    DuplicateEgress,
    InvalidEgress,
    AnonymousProxyRejected,
    ExchangeEndpointForbidden,
}

pub open spec fn config_reason(e: ConfigError) -> Seq<char> {
    match e {
        ConfigError::InvalidToml => "capture_config.invalid_toml"@,
        ConfigError::InvalidParserVersion => "capture_config.invalid_parser_version"@,
        ConfigError::InvalidSpoolPath => "capture_config.invalid_spool_path"@,
        ConfigError::InvalidSegmentTarget => "capture_config.invalid_segment_target"@,
        ConfigError::InvalidRotationInterval => "capture_config.invalid_rotation_interval"@,
        ConfigError::InvalidDurabilityPolicy => "capture_config.invalid_durability_policy"@,
        ConfigError::InvalidSourceId => "capture_config.invalid_source_id"@,
        ConfigError::DuplicateSource => "capture_config.duplicate_source"@,
        ConfigError::InvalidSourceVersion => "capture_config.invalid_source_version"@,
        ConfigError::InvalidQueueCapacity => "capture_config.invalid_queue_capacity"@,
        ConfigError::InvalidPayloadLimit => "capture_config.invalid_payload_limit"@,
        ConfigError::InvalidSourceTrust => "capture_config.invalid_source_trust"@,
        ConfigError::InvalidSourceAdapter => "capture_config.invalid_source_adapter"@,
        ConfigError::InvalidSourceCatalog => "capture_config.invalid_source_catalog"@,
        ConfigError::IncompatibleSourceRole => "capture_config.incompatible_source_role"@,
        ConfigError::IncompatibleOperatorKind => "capture_config.incompatible_operator_kind"@,
        ConfigError::MissingProviderLicense => "capture_config.missing_provider_license"@,
        ConfigError::MissingPrimaryCommittedSource => "capture_config.missing_primary_committed_source"@,
        ConfigError::DuplicatePrimaryCommittedSource => "capture_config.duplicate_primary_committed_source"@,
        ConfigError::DuplicateIndependentCommittedSource => "capture_config.duplicate_independent_committed_source"@,
        ConfigError::InvalidCommittedSourceAdapter => "capture_config.invalid_committed_source_adapter"@,
        ConfigError::InvalidCredentialPath => "capture_config.invalid_credential_path"@,
        ConfigError::MissingSources => "capture_config.missing_sources"@,
        ConfigError::InvalidChainId => "capture_config.invalid_chain_id"@,
        ConfigError::InvalidRuntimePath => "capture_config.invalid_runtime_path"@,
        ConfigError::InvalidRuntimeIdentity => "capture_config.invalid_runtime_identity"@,
        ConfigError::InvalidNatsServer => "capture_config.invalid_nats_server"@,
        ConfigError::InvalidNatsStream => "capture_config.invalid_nats_stream"@,
        ConfigError::InvalidRuntimeLimit => "capture_config.invalid_runtime_limit"@,
        ConfigError::InvalidStatusListen => "capture_config.invalid_status_listen"@,
        ConfigError::Serialization => "capture_config.serialization"@,
        ConfigError::DuplicateEgress => "capture_config.duplicate_egress"@,
        ConfigError::InvalidEgress => "capture_config.invalid_egress"@,
        ConfigError::AnonymousProxyRejected => "capture_config.anonymous_proxy"@,
        ConfigError::ExchangeEndpointForbidden => "capture_config.exchange_forbidden"@,
    }
}

impl ConfigError {
    pub fn reason_code(self) -> (r: &'static str)
        ensures
            r@ == config_reason(self),
    {
        match self {
            ConfigError::InvalidToml => "capture_config.invalid_toml",
            ConfigError::InvalidParserVersion => "capture_config.invalid_parser_version",
            ConfigError::InvalidSpoolPath => "capture_config.invalid_spool_path",
            ConfigError::InvalidSegmentTarget => "capture_config.invalid_segment_target",
            ConfigError::InvalidRotationInterval => "capture_config.invalid_rotation_interval",
            ConfigError::InvalidDurabilityPolicy => "capture_config.invalid_durability_policy",
            ConfigError::InvalidSourceId => "capture_config.invalid_source_id",
            ConfigError::DuplicateSource => "capture_config.duplicate_source",
            ConfigError::InvalidSourceVersion => "capture_config.invalid_source_version",
            ConfigError::InvalidQueueCapacity => "capture_config.invalid_queue_capacity",
            ConfigError::InvalidPayloadLimit => "capture_config.invalid_payload_limit",
            ConfigError::InvalidSourceTrust => "capture_config.invalid_source_trust",
            ConfigError::InvalidSourceAdapter => "capture_config.invalid_source_adapter",
            ConfigError::InvalidSourceCatalog => "capture_config.invalid_source_catalog",
            ConfigError::IncompatibleSourceRole => "capture_config.incompatible_source_role",
            ConfigError::IncompatibleOperatorKind => "capture_config.incompatible_operator_kind",
            ConfigError::MissingProviderLicense => "capture_config.missing_provider_license",
            ConfigError::MissingPrimaryCommittedSource => "capture_config.missing_primary_committed_source",
            ConfigError::DuplicatePrimaryCommittedSource => "capture_config.duplicate_primary_committed_source",
            ConfigError::DuplicateIndependentCommittedSource => "capture_config.duplicate_independent_committed_source",
            ConfigError::InvalidCommittedSourceAdapter => "capture_config.invalid_committed_source_adapter",
            ConfigError::InvalidCredentialPath => "capture_config.invalid_credential_path",
            ConfigError::MissingSources => "capture_config.missing_sources",
            ConfigError::InvalidChainId => "capture_config.invalid_chain_id",
            ConfigError::InvalidRuntimePath => "capture_config.invalid_runtime_path",
            ConfigError::InvalidRuntimeIdentity => "capture_config.invalid_runtime_identity",
            ConfigError::InvalidNatsServer => "capture_config.invalid_nats_server",
            ConfigError::InvalidNatsStream => "capture_config.invalid_nats_stream",
            ConfigError::InvalidRuntimeLimit => "capture_config.invalid_runtime_limit",
            ConfigError::InvalidStatusListen => "capture_config.invalid_status_listen",
            ConfigError::Serialization => "capture_config.serialization",
            ConfigError::DuplicateEgress => "capture_config.duplicate_egress",
            ConfigError::InvalidEgress => "capture_config.invalid_egress",
            ConfigError::AnonymousProxyRejected => "capture_config.anonymous_proxy",
            ConfigError::ExchangeEndpointForbidden => "capture_config.exchange_forbidden",
        }
    }
}

/// Some `/`-separated component of the path is `..`.
pub open spec fn has_parent_component(p: Seq<char>) -> bool {
    exists|i: int|
        0 <= i && i + 2 <= p.len() && #[trigger] p[i] == '.' && p[i + 1] == '.' && (i == 0 || p[i
            - 1] == '/') && (i + 2 == p.len() || p[i + 2] == '/')
}

/// A relative path whose first component is `.` (the only place `Path::components`
/// reports the current directory).
pub open spec fn has_leading_cur_dir(p: Seq<char>) -> bool {
    p.len() >= 1 && p[0] == '.' && (p.len() == 1 || p[1] == '/')
}

/// The path is absolute (it starts at the root).
pub open spec fn is_absolute_path(p: Seq<char>) -> bool {
    p.len() >= 1 && p[0] == '/'
}

/// The path names the root directory and nothing under it: slashes, and `.` components.
pub open spec fn is_root_path(p: Seq<char>) -> bool {
    &&& is_absolute_path(p)
    &&& forall|i: int|
        0 <= i < p.len() ==> #[trigger] p[i] == '/' || (p[i] == '.' && p[i - 1] == '/' && (i + 1
            == p.len() || p[i + 1] == '/'))
}

/// Whether the path has a `..` component or starts with a `.` component.
pub fn path_has_dot_component(p: &str) -> (r: bool)
    ensures
        r == (has_parent_component(p@) || has_leading_cur_dir(p@)),
{
    let c = chars_of(p);
    let n = c.len();
    if n >= 1 && c[0] == '.' && (n == 1 || c[1] == '/') {
        return true;
    }
    let mut i: usize = 0;
    while i < n
        invariant
            i <= n,
            n == p@.len(),
            c@ == p@,
            forall|j: int|
                0 <= j < i ==> !(j + 2 <= p@.len() && #[trigger] p@[j] == '.' && p@[j + 1] == '.'
                    && (j == 0 || p@[j - 1] == '/') && (j + 2 == p@.len() || p@[j + 2] == '/')),
        decreases n - i,
    {
        if i + 1 < n && c[i] == '.' && c[i + 1] == '.' && (i == 0 || c[i - 1] == '/') && (i + 2
            == n || c[i + 2] == '/') {
            return true;
        }
        i = i + 1;
    }
    false
}

/// Whether the path is the root directory.
pub fn path_is_root(p: &str) -> (r: bool)
    ensures
        r == is_root_path(p@),
{
    let c = chars_of(p);
    let n = c.len();
    if n == 0 || c[0] != '/' {
        return false;
    }
    let mut i: usize = 0;
    while i < n
        invariant
            n == p@.len(),
            c@ == p@,
            n >= 1 && p@[0] == '/',
            forall|j: int|
                0 <= j < i ==> #[trigger] p@[j] == '/' || (p@[j] == '.' && p@[j - 1] == '/' && (j
                    + 1 == p@.len() || p@[j + 1] == '/')),
        decreases n - i,
    {
        let ok = c[i] == '/' || (c[i] == '.' && i > 0 && c[i - 1] == '/' && (i + 1 == n || c[i
            + 1] == '/'));
        if !ok {
            return false;
        }
        i = i + 1;
    }
    true
}

/// A runtime path: nonempty, not the root, at most 4 KiB, no `.` or `..` component.
pub open spec fn runtime_path_ok(p: Seq<char>) -> bool {
    p.len() > 0 && !is_root_path(p) && byte_len(p) <= MAX_RUNTIME_PATH_BYTES && !has_parent_component(
        p,
    ) && !has_leading_cur_dir(p)
}

/// A spool path: nonempty, not the root, no `.` or `..` component.
pub open spec fn spool_path_ok(p: Seq<char>) -> bool {
    p.len() > 0 && !is_root_path(p) && !has_parent_component(p) && !has_leading_cur_dir(p)
}

/// A protected absolute path: absolute, not the root, no `..` component.
pub open spec fn protected_path_ok(p: Seq<char>) -> bool {
    is_absolute_path(p) && !is_root_path(p) && !has_parent_component(p)
}

fn validate_runtime_path(path: &str) -> (r: Result<(), ConfigError>)
    ensures
        runtime_path_ok(path@) ==> r is Ok,
        !runtime_path_ok(path@) ==> r == Err::<(), ConfigError>(ConfigError::InvalidRuntimePath),
{
    if path.is_empty() || path_is_root(path) || path.len() > MAX_RUNTIME_PATH_BYTES
        || path_has_dot_component(path) {
        Err(ConfigError::InvalidRuntimePath)
    } else {
        Ok(())
    }
}

fn validate_spool_path(path: &str) -> (r: Result<(), ConfigError>)
    ensures
        spool_path_ok(path@) ==> r is Ok,
        !spool_path_ok(path@) ==> r == Err::<(), ConfigError>(ConfigError::InvalidSpoolPath),
{
    if path.is_empty() || path_is_root(path) || path_has_dot_component(path) {
        Err(ConfigError::InvalidSpoolPath)
    } else {
        Ok(())
    }
}

fn is_absolute(path: &str) -> (r: bool)
    ensures
        r == is_absolute_path(path@),
{
    let c = chars_of(path);
    c.len() >= 1 && c[0] == '/'
}

fn validate_credential_path(path: &str) -> (r: Result<(), ConfigError>)
    ensures
        protected_path_ok(path@) ==> r is Ok,
        !protected_path_ok(path@) ==> r == Err::<(), ConfigError>(
            ConfigError::InvalidCredentialPath,
        ),
{
    if !is_absolute(path) || path_is_root(path) || path_has_dot_component(path) {
        Err(ConfigError::InvalidCredentialPath)
    } else {
        Ok(())
    }
}

fn validate_node_source_path(path: &str) -> (r: Result<(), ConfigError>)
    ensures
        protected_path_ok(path@) ==> r is Ok,
        !protected_path_ok(path@) ==> r == Err::<(), ConfigError>(
            ConfigError::InvalidSourceAdapter,
        ),
{
    if !is_absolute(path) || path_is_root(path) || path_has_dot_component(path) {
        Err(ConfigError::InvalidSourceAdapter)
    } else {
        Ok(())
    }
}

/// An ASCII letter or digit.
pub open spec fn is_ascii_alnum(c: char) -> bool {
    ('A' <= c <= 'Z') || ('a' <= c <= 'z') || ('0' <= c <= '9')
}

/// A name that is safe as one path component: 1 to 256 bytes, not `.` or `..`, ASCII
/// letters and digits, with `-`, `_` and `.` allowed after the first character.
pub open spec fn safe_component(s: Seq<char>) -> bool {
    &&& s.len() > 0
    &&& byte_len(s) <= MAX_IDENTITY_BYTES
    &&& s != "."@
    &&& s != ".."@
    &&& forall|i: int|
        0 <= i < s.len() ==> is_ascii_alnum(#[trigger] s[i]) || ((s[i] == '-' || s[i] == '_'
            || s[i] == '.') && i > 0)
}

pub fn is_safe_source_path_component(value: &str) -> (r: bool)
    ensures
        r == safe_component(value@),
{
    if value.is_empty() || value.len() > MAX_IDENTITY_BYTES || same_text(value, ".") || same_text(
        value,
        "..",
    ) {
        return false;
    }
    let c = chars_of(value);
    let mut i: usize = 0;
    while i < c.len()
        invariant
            c@ == value@,
            i <= c@.len(),
            forall|j: int|
                0 <= j < i ==> is_ascii_alnum(#[trigger] value@[j]) || ((value@[j] == '-'
                    || value@[j] == '_' || value@[j] == '.') && j > 0),
        decreases c@.len() - i,
    {
        let ch = c[i];
        let alnum = ('A' <= ch && ch <= 'Z') || ('a' <= ch && ch <= 'z') || ('0' <= ch && ch
            <= '9');
        if !(alnum || ((ch == '-' || ch == '_' || ch == '.') && i > 0)) {
            return false;
        }
        i = i + 1;
    }
    true
}

fn validate_identity(value: &str) -> (r: bool)
    ensures
        r == identity_ok(value@, MAX_IDENTITY_BYTES as nat),
{
    valid_identity(value, MAX_IDENTITY_BYTES)
}

/// How a spool lane makes its records durable.
#[derive(Debug, Clone, Copy, PartialEq, Eq, Structural)]
pub enum DurabilityPolicy {
    FsyncEveryRecord,
    Batched { max_records: u32, max_delay_millis: u64 },
}

pub open spec fn durability_ok(d: DurabilityPolicy) -> bool {
    match d {
        DurabilityPolicy::FsyncEveryRecord => true,
        DurabilityPolicy::Batched { max_records, max_delay_millis } => 1 <= max_records
            <= MAX_BATCH_RECORDS && 1 <= max_delay_millis <= MAX_BATCH_DELAY_MILLIS,
    }
}

impl DurabilityPolicy {
    fn validate(self) -> (r: Result<(), ConfigError>)
        ensures
            durability_ok(self) ==> r is Ok,
            !durability_ok(self) ==> r == Err::<(), ConfigError>(
                ConfigError::InvalidDurabilityPolicy,
            ),
    {
        match self {
            DurabilityPolicy::FsyncEveryRecord => Ok(()),
            DurabilityPolicy::Batched { max_records, max_delay_millis } => {
                if 1 <= max_records && max_records <= MAX_BATCH_RECORDS && 1 <= max_delay_millis
                    && max_delay_millis <= MAX_BATCH_DELAY_MILLIS {
                    Ok(())
                } else {
                    Err(ConfigError::InvalidDurabilityPolicy)
                }
            },
        }
    }
}

/// Where and how the spool writes segments.
#[derive(Debug, Clone)]
pub struct SpoolConfig {
    pub path: String,
    pub segment_target_bytes: u64,
    pub rotation_interval_seconds: u64,
    pub committed_durability: DurabilityPolicy,
    pub provisional_durability: DurabilityPolicy,
}

/// The first rule a spool configuration breaks, if any.
pub open spec fn spool_error(s: SpoolConfig) -> Option<ConfigError> {
    if !spool_path_ok(s.path@) {
        Some(ConfigError::InvalidSpoolPath)
    } else if !(MIN_SEGMENT_TARGET_BYTES <= s.segment_target_bytes <= MAX_SEGMENT_TARGET_BYTES) {
        Some(ConfigError::InvalidSegmentTarget)
    } else if !(1 <= s.rotation_interval_seconds <= MAX_ROTATION_INTERVAL_SECONDS) {
        Some(ConfigError::InvalidRotationInterval)
    } else if !durability_ok(s.committed_durability) || !durability_ok(s.provisional_durability) {
        Some(ConfigError::InvalidDurabilityPolicy)
    } else if s.committed_durability != DurabilityPolicy::FsyncEveryRecord {
        Some(ConfigError::InvalidDurabilityPolicy)
    } else {
        None
    }
}

/// `r` is `Ok` exactly when `e` names no error, and carries that error otherwise.
pub open spec fn verdict(r: Result<(), ConfigError>, e: Option<ConfigError>) -> bool {
    match e {
        None => r is Ok,
        Some(err) => r == Err::<(), ConfigError>(err),
    }
}

impl SpoolConfig {
    pub fn validate(&self) -> (r: Result<(), ConfigError>)
        ensures
            verdict(r, spool_error(*self)),
    {
        validate_spool_path(self.path.as_str())?;
        if !(MIN_SEGMENT_TARGET_BYTES <= self.segment_target_bytes && self.segment_target_bytes
            <= MAX_SEGMENT_TARGET_BYTES) {
            return Err(ConfigError::InvalidSegmentTarget);
        }
        if !(1 <= self.rotation_interval_seconds && self.rotation_interval_seconds
            <= MAX_ROTATION_INTERVAL_SECONDS) {
            return Err(ConfigError::InvalidRotationInterval);
        }
        self.committed_durability.validate()?;
        self.provisional_durability.validate()?;
        match self.committed_durability {
            DurabilityPolicy::FsyncEveryRecord => Ok(()),
            DurabilityPolicy::Batched { .. } => Err(ConfigError::InvalidDurabilityPolicy),
        }
    }

    pub fn path(&self) -> (r: &str)
        ensures
            r@ == self.path@,
    {
        self.path.as_str()
    }

    pub fn segment_target_bytes(&self) -> (r: u64)
        ensures
            r == self.segment_target_bytes,
    {
        self.segment_target_bytes
    }

    pub fn rotation_interval_seconds(&self) -> (r: u64)
        ensures
            r == self.rotation_interval_seconds,
    {
        self.rotation_interval_seconds
    }

    pub fn committed_durability(&self) -> (r: &DurabilityPolicy)
        ensures
            *r == self.committed_durability,
    {
        &self.committed_durability
    }

    pub fn provisional_durability(&self) -> (r: &DurabilityPolicy)
        ensures
            *r == self.provisional_durability,
    {
        &self.provisional_durability
    }
}

/// The kinds of egress the capture service may use.
#[derive(Debug, Clone, Copy, PartialEq, Eq, Structural)]
pub enum EgressKind {
    OfficialInfo,
}

/// Proxy settings; any proxy at all is refused.
#[derive(Debug, Clone)]
pub struct EgressProxyConfig {
    pub mode: String,
    pub rotate: bool,
    pub urls: Vec<String>,
}

/// The official info endpoints an egress may name.
pub open spec fn official_info_url(u: Seq<char>) -> bool {
    u == "https://api.hyperliquid.xyz"@ || u == "https://api.hyperliquid.xyz/info"@ || u
        == "https://api.hyperliquid-testnet.xyz"@ || u == "https://api.hyperliquid-testnet.xyz/info"@
}

/// Whether `u` is one of the official info endpoints.
pub fn is_official_info_url(u: &str) -> (r: bool)
    ensures
        r == official_info_url(u@),
{
    same_text(u, "https://api.hyperliquid.xyz") || same_text(u, "https://api.hyperliquid.xyz/info")
        || same_text(u, "https://api.hyperliquid-testnet.xyz") || same_text(
        u,
        "https://api.hyperliquid-testnet.xyz/info",
    )
}

/// One egress path of the service and its request budget.
#[derive(Debug, Clone)]
pub struct EgressConfig {
    pub id: String,
    pub kind: EgressKind,
    pub base_url: String,
    pub weight_per_minute: u32,
    pub safety_envelope_percent: u8,
    pub priority_reserve_percent: u8,
    pub proxy: Option<EgressProxyConfig>,
}

/// The first rule an egress configuration breaks, if any.
pub open spec fn egress_error(e: EgressConfig) -> Option<ConfigError> {
    if !safe_component(e.id@) {
        Some(ConfigError::InvalidEgress)
    } else if e.proxy is Some {
        Some(ConfigError::AnonymousProxyRejected)
    } else if crate::text::contains(e.base_url@, "/exchange"@) {
        Some(ConfigError::ExchangeEndpointForbidden)
    } else if e.weight_per_minute != OFFICIAL_REST_WEIGHT_PER_MINUTE || !(
    MIN_SAFETY_ENVELOPE_PERCENT <= e.safety_envelope_percent <= MAX_SAFETY_ENVELOPE_PERCENT) || !(1
        <= e.priority_reserve_percent <= 90) || !official_info_url(e.base_url@) {
        Some(ConfigError::InvalidEgress)
    } else {
        None
    }
}

impl EgressConfig {
    pub fn validate(&self) -> (r: Result<(), ConfigError>)
        ensures
            verdict(r, egress_error(*self)),
    {
        if !is_safe_source_path_component(self.id.as_str()) {
            return Err(ConfigError::InvalidEgress);
        }
        if self.proxy.is_some() {
            return Err(ConfigError::AnonymousProxyRejected);
        }
        match self.kind {
            EgressKind::OfficialInfo => {
                if str_contains(self.base_url.as_str(), "/exchange") {
                    return Err(ConfigError::ExchangeEndpointForbidden);
                }
                if self.weight_per_minute != OFFICIAL_REST_WEIGHT_PER_MINUTE || !(
                MIN_SAFETY_ENVELOPE_PERCENT <= self.safety_envelope_percent
                    && self.safety_envelope_percent <= MAX_SAFETY_ENVELOPE_PERCENT) || !(1
                    <= self.priority_reserve_percent && self.priority_reserve_percent <= 90)
                    || !is_official_info_url(self.base_url.as_str()) {
                    return Err(ConfigError::InvalidEgress);
                }
                Ok(())
            },
        }
    }

    pub fn id(&self) -> (r: &str)
        ensures
            r@ == self.id@,
    {
        self.id.as_str()
    }

    pub fn kind(&self) -> (r: EgressKind)
        ensures
            r == self.kind,
    {
        self.kind
    }

    pub fn base_url(&self) -> (r: &str)
        ensures
            r@ == self.base_url@,
    {
        self.base_url.as_str()
    }

    pub fn weight_per_minute(&self) -> (r: u32)
        ensures
            r == self.weight_per_minute,
    {
        self.weight_per_minute
    }

    pub fn safety_envelope_percent(&self) -> (r: u8)
        ensures
            r == self.safety_envelope_percent,
    {
        self.safety_envelope_percent
    }

    pub fn priority_reserve_percent(&self) -> (r: u8)
        ensures
            r == self.priority_reserve_percent,
    {
        self.priority_reserve_percent
    }
}

/// What a NATS server address says, in plain values.
pub struct NatsServerModel {
    pub scheme: Seq<char>,
    pub host: Seq<char>,
    pub port: u16,
    pub has_user_pass: bool,
    pub is_websocket: bool,
    pub path: Seq<char>,
    pub has_query: bool,
    pub has_fragment: bool,
}

/// The parts of a parsed NATS server address that the rules read.
#[derive(Debug, Clone)]
pub struct NatsServerParts {
    pub scheme: String,
    pub host: String,
    pub port: u16,
    pub has_user_pass: bool,
    pub is_websocket: bool,
    pub path: String,
    pub has_query: bool,
    pub has_fragment: bool,
}

impl View for NatsServerParts {
    type V = NatsServerModel;

    open spec fn view(&self) -> NatsServerModel {
        NatsServerModel {
            scheme: self.scheme@,
            host: self.host@,
            port: self.port,
            has_user_pass: self.has_user_pass,
            is_websocket: self.is_websocket,
            path: self.path@,
            has_query: self.has_query,
            has_fragment: self.has_fragment,
        }
    }
}

/// What `async_nats::ServerAddr` parses `value` as (`None` where it refuses it).
pub uninterp spec fn nats_server_address(value: Seq<char>) -> Option<NatsServerModel>;

/// Calls `<async_nats::ServerAddr as FromStr>::from_str`, which parses `value` as a URL
/// (adding `nats://` where no scheme is given) and refuses any scheme but `nats`, `tls`,
/// `ws` and `wss`; a websocket address is one of the last two.
#[verifier::external_body]
fn parse_nats_server(value: &str) -> (r: Option<NatsServerParts>)
    ensures
        match r {
            Some(p) => nats_server_address(value@) == Some(p@),
            None => nats_server_address(value@) is None,
        },
        r matches Some(p) ==> (p@.scheme == "nats"@ || p@.scheme == "tls"@ || p@.scheme == "ws"@
            || p@.scheme == "wss"@) && p@.is_websocket == (p@.scheme == "ws"@ || p@.scheme
            == "wss"@),
{
    let address = match value.parse::<async_nats::ServerAddr>() {
        Ok(address) => address,
        Err(_) => return None,
    };
    let url = address.clone().into_inner();
    Some(NatsServerParts {
        scheme: address.scheme().to_owned(),
        host: address.host().to_owned(),
        port: address.port(),
        has_user_pass: address.has_user_pass(),
        is_websocket: address.is_websocket(),
        path: url.path().to_owned(),
        has_query: url.query().is_some(),
        has_fragment: url.fragment().is_some(),
    })
}

/// A server the capture service may use: `nats` only on loopback, otherwise `tls`; a host,
/// a port, no inline credentials, no websocket, nothing past the authority.
pub open spec fn nats_parts_ok(m: NatsServerModel) -> bool {
    &&& m.scheme == "nats"@ || m.scheme == "tls"@
    &&& m.scheme != "nats"@ || m.host == "127.0.0.1"@ || m.host == "::1"@
    &&& m.host.len() > 0
    &&& m.port != 0
    &&& !m.has_user_pass
    &&& !m.is_websocket
    &&& m.path == ""@ || m.path == "/"@
    &&& !m.has_query
    &&& !m.has_fragment
}

/// Whether a parsed server address meets the rules.
pub fn nats_server_acceptable(parts: &NatsServerParts) -> (r: bool)
    ensures
        r == nats_parts_ok(parts@),
{
    let nats = same_text(parts.scheme.as_str(), "nats");
    let supported = nats || same_text(parts.scheme.as_str(), "tls");
    let loopback_ok = !nats || same_text(parts.host.as_str(), "127.0.0.1") || same_text(
        parts.host.as_str(),
        "::1",
    );
    let authority_only = (same_text(parts.path.as_str(), "") || same_text(parts.path.as_str(), "/"))
        && !parts.has_query && !parts.has_fragment;
    supported && loopback_ok && !parts.host.as_str().is_empty() && parts.port != 0 && !parts.has_user_pass
        && !parts.is_websocket && authority_only
}

/// The server URL rule: at most 2 KiB, unpadded, no control characters, and a parsed
/// address that meets [`nats_parts_ok`].
pub open spec fn nats_server_ok(value: Seq<char>) -> bool {
    &&& byte_len(value) <= MAX_NATS_SERVER_BYTES
    &&& crate::text::trimmed(value)
    &&& !crate::text::has_control(value)
    &&& match nats_server_address(value) {
        Some(m) => nats_parts_ok(m),
        None => false,
    }
}

fn validate_nats_server(value: &str) -> (r: Result<(), ConfigError>)
    ensures
        nats_server_ok(value@) ==> r is Ok,
        !nats_server_ok(value@) ==> r == Err::<(), ConfigError>(ConfigError::InvalidNatsServer),
{
    if value.len() > MAX_NATS_SERVER_BYTES || !crate::text::is_trimmed(value)
        || crate::text::any_control(value) {
        return Err(ConfigError::InvalidNatsServer);
    }
    match parse_nats_server(value) {
        None => Err(ConfigError::InvalidNatsServer),
        Some(parts) => {
            if nats_server_acceptable(&parts) {
                Ok(())
            } else {
                Err(ConfigError::InvalidNatsServer)
            }
        },
    }
}

/// How the caller's socket-address parser read the status listen address.
#[derive(Debug, Clone, Copy, PartialEq, Eq, Structural)]
pub enum ListenCheck {
    Loopback,
    NotLoopback,
    Unparsed,
}

/// Paths, services and limits of the running capture process.
#[derive(Debug, Clone)]
pub struct RuntimeConfig {
    pub chain_id: String,
    pub first_height: u64,
    pub archive_path: String,
    pub status_path: String,
    pub failover_state_path: String,
    pub postgres_url_path: String,
    pub nats_server_url: String,
    pub nats_stream: String,
    pub nats_username: String,
    pub nats_password_path: String,
    pub postgres_operation_timeout_millis: u64,
    pub max_pending_blocks: usize,
    pub retained_committed_blocks: usize,
    pub publisher_ledger_capacity: usize,
    pub nats_max_ack_inflight: usize,
    pub publish_timeout_millis: u64,
    pub backpressure_timeout_millis: u64,
    pub shutdown_grace_millis: u64,
    pub disk_reserve_bytes: u64,
    pub status_listen: Option<String>,
}

/// Every limit lies in its range.
pub open spec fn runtime_limits_ok(c: RuntimeConfig) -> bool {
    &&& 1 <= c.postgres_operation_timeout_millis <= MAX_RUNTIME_TIMEOUT_MILLIS
    &&& 1 <= c.max_pending_blocks <= MAX_RUNTIME_BLOCK_CAPACITY
    &&& 1 <= c.retained_committed_blocks <= MAX_RUNTIME_BLOCK_CAPACITY
    &&& 1 <= c.publisher_ledger_capacity <= MAX_RUNTIME_BLOCK_CAPACITY
    &&& 1 <= c.nats_max_ack_inflight <= MAX_NATS_ACK_INFLIGHT
    &&& 1 <= c.publish_timeout_millis <= MAX_RUNTIME_TIMEOUT_MILLIS
    &&& 1 <= c.backpressure_timeout_millis <= MAX_RUNTIME_TIMEOUT_MILLIS
    &&& 1 <= c.shutdown_grace_millis <= MAX_RUNTIME_TIMEOUT_MILLIS
    &&& 1 <= c.disk_reserve_bytes <= MAX_DISK_RESERVE_BYTES
}

/// The first rule a runtime configuration breaks, if any, given whether the chain
/// identifier was accepted and how the status listen address parsed.
pub open spec fn runtime_error(c: RuntimeConfig, chain_id_accepted: bool, listen: ListenCheck) -> Option<
    ConfigError,
> {
    if !chain_id_accepted {
        Some(ConfigError::InvalidChainId)
    } else if !runtime_path_ok(c.archive_path@) || !runtime_path_ok(c.status_path@)
        || !runtime_path_ok(c.failover_state_path@) {
        Some(ConfigError::InvalidRuntimePath)
    } else if !protected_path_ok(c.postgres_url_path@) {
        Some(ConfigError::InvalidCredentialPath)
    } else if !nats_server_ok(c.nats_server_url@) {
        Some(ConfigError::InvalidNatsServer)
    } else if !identity_ok(c.nats_stream@, MAX_IDENTITY_BYTES as nat) {
        Some(ConfigError::InvalidRuntimeIdentity)
    } else if c.nats_stream@ != crate::subjects::CANONICAL_STREAM@ {
        Some(ConfigError::InvalidNatsStream)
    } else if !identity_ok(c.nats_username@, MAX_IDENTITY_BYTES as nat) {
        Some(ConfigError::InvalidRuntimeIdentity)
    } else if !protected_path_ok(c.nats_password_path@) {
        Some(ConfigError::InvalidCredentialPath)
    } else if !runtime_limits_ok(c) {
        Some(ConfigError::InvalidRuntimeLimit)
    } else if c.status_listen is Some && listen != ListenCheck::Loopback {
        Some(ConfigError::InvalidStatusListen)
    } else {
        None
    }
}

impl RuntimeConfig {
    /// Checks the runtime section. `chain_id_accepted` is what the chain identifier type
    /// said of `chain_id`; `listen` is how `status_listen` parsed as a socket address.
    pub fn validate(&self, chain_id_accepted: bool, listen: ListenCheck) -> (r: Result<(), ConfigError>)
        ensures
            verdict(r, runtime_error(*self, chain_id_accepted, listen)),
    {
        if !chain_id_accepted {
            return Err(ConfigError::InvalidChainId);
        }
        validate_runtime_path(self.archive_path.as_str())?;
        validate_runtime_path(self.status_path.as_str())?;
        validate_runtime_path(self.failover_state_path.as_str())?;
        validate_credential_path(self.postgres_url_path.as_str())?;
        validate_nats_server(self.nats_server_url.as_str())?;
        if !validate_identity(self.nats_stream.as_str()) {
            return Err(ConfigError::InvalidRuntimeIdentity);
        }
        if !same_text(self.nats_stream.as_str(), crate::subjects::CANONICAL_STREAM) {
            return Err(ConfigError::InvalidNatsStream);
        }
        if !validate_identity(self.nats_username.as_str()) {
            return Err(ConfigError::InvalidRuntimeIdentity);
        }
        validate_credential_path(self.nats_password_path.as_str())?;
        if !(1 <= self.postgres_operation_timeout_millis && self.postgres_operation_timeout_millis
            <= MAX_RUNTIME_TIMEOUT_MILLIS) || !(1 <= self.max_pending_blocks
            && self.max_pending_blocks <= MAX_RUNTIME_BLOCK_CAPACITY) || !(1
            <= self.retained_committed_blocks && self.retained_committed_blocks
            <= MAX_RUNTIME_BLOCK_CAPACITY) || !(1 <= self.publisher_ledger_capacity
            && self.publisher_ledger_capacity <= MAX_RUNTIME_BLOCK_CAPACITY) || !(1
            <= self.nats_max_ack_inflight && self.nats_max_ack_inflight <= MAX_NATS_ACK_INFLIGHT)
            || !(1 <= self.publish_timeout_millis && self.publish_timeout_millis
            <= MAX_RUNTIME_TIMEOUT_MILLIS) || !(1 <= self.backpressure_timeout_millis
            && self.backpressure_timeout_millis <= MAX_RUNTIME_TIMEOUT_MILLIS) || !(1
            <= self.shutdown_grace_millis && self.shutdown_grace_millis
            <= MAX_RUNTIME_TIMEOUT_MILLIS) || !(1 <= self.disk_reserve_bytes
            && self.disk_reserve_bytes <= MAX_DISK_RESERVE_BYTES) {
            return Err(ConfigError::InvalidRuntimeLimit);
        }
        if self.status_listen.is_some() {
            match listen {
                ListenCheck::Loopback => {},
                _ => {
                    return Err(ConfigError::InvalidStatusListen);
                },
            }
        }
        Ok(())
    }

    pub fn first_height(&self) -> (r: u64)
        ensures
            r == self.first_height,
    {
        self.first_height
    }

    pub fn archive_path(&self) -> (r: &str)
        ensures
            r@ == self.archive_path@,
    {
        self.archive_path.as_str()
    }

    pub fn status_path(&self) -> (r: &str)
        ensures
            r@ == self.status_path@,
    {
        self.status_path.as_str()
    }

    pub fn failover_state_path(&self) -> (r: &str)
        ensures
            r@ == self.failover_state_path@,
    {
        self.failover_state_path.as_str()
    }

    pub fn postgres_url_path(&self) -> (r: &str)
        ensures
            r@ == self.postgres_url_path@,
    {
        self.postgres_url_path.as_str()
    }

    pub fn nats_server_url(&self) -> (r: &str)
        ensures
            r@ == self.nats_server_url@,
    {
        self.nats_server_url.as_str()
    }

    pub fn nats_stream(&self) -> (r: &str)
        ensures
            r@ == self.nats_stream@,
    {
        self.nats_stream.as_str()
    }

    pub fn nats_username(&self) -> (r: &str)
        ensures
            r@ == self.nats_username@,
    {
        self.nats_username.as_str()
    }

    pub fn nats_password_path(&self) -> (r: &str)
        ensures
            r@ == self.nats_password_path@,
    {
        self.nats_password_path.as_str()
    }

    pub fn postgres_operation_timeout_millis(&self) -> (r: u64)
        ensures
            r == self.postgres_operation_timeout_millis,
    {
        self.postgres_operation_timeout_millis
    }

    pub fn max_pending_blocks(&self) -> (r: usize)
        ensures
            r == self.max_pending_blocks,
    {
        self.max_pending_blocks
    }

    pub fn retained_committed_blocks(&self) -> (r: usize)
        ensures
            r == self.retained_committed_blocks,
    {
        self.retained_committed_blocks
    }

    pub fn publisher_ledger_capacity(&self) -> (r: usize)
        ensures
            r == self.publisher_ledger_capacity,
    {
        self.publisher_ledger_capacity
    }

    pub fn nats_max_ack_inflight(&self) -> (r: usize)
        ensures
            r == self.nats_max_ack_inflight,
    {
        self.nats_max_ack_inflight
    }

    pub fn publish_timeout_millis(&self) -> (r: u64)
        ensures
            r == self.publish_timeout_millis,
    {
        self.publish_timeout_millis
    }

    pub fn backpressure_timeout_millis(&self) -> (r: u64)
        ensures
            r == self.backpressure_timeout_millis,
    {
        self.backpressure_timeout_millis
    }

    pub fn shutdown_grace_millis(&self) -> (r: u64)
        ensures
            r == self.shutdown_grace_millis,
    {
        self.shutdown_grace_millis
    }

    pub fn disk_reserve_bytes(&self) -> (r: u64)
        ensures
            r == self.disk_reserve_bytes,
    {
        self.disk_reserve_bytes
    }
}

/// How far a source's observations are trusted.
#[derive(Debug, Clone, Copy, PartialEq, Eq, Structural)]
pub enum SourceTrust {
    LocallyVerifiedCommitted,
    IndependentCommitted,
    ReconciledSnapshot,
    RecoveryOnly,
    ThirdPartyProvisional,
    MempoolProvisional,
}

/// What kind of observation a source produces.
#[derive(Debug, Clone, Copy, PartialEq, Eq, Structural)]
pub enum ObservationClass {
    CommittedBlock,
    AuxiliaryOrderStatus,
    AuxiliaryBookDiff,
    AuxiliaryLedger,
    Snapshot,
    HistoricalBlock,
    PublicMarketData,
    ProvisionalFeed,
    ProvisionalMempool,
}

/// Which replica command files a node writes.
#[derive(Debug, Clone, Copy, PartialEq, Eq, Structural)]
pub enum NodeReplicaCmdsStyle {
    Actions,
    ActionsAndResponses,
    RecentActions,
}

/// How a source is read.
#[derive(Debug, Clone)]
pub enum SourceAdapterConfig {
    /// A node line stream; `stream_class` is the class the named stream produces.
    NodeLine {
        path: String,
        stream_name: String,
        stream_class: ObservationClass,
        poll_interval_millis: u64,
    },
    NodeBlockDirectory {
        path: String,
        stream_name: String,
        start_height: u64,
        poll_interval_millis: u64,
        replica_cmds_style: NodeReplicaCmdsStyle,
    },
    OfficialInfo { egress_id: String, capability_id: String, request_timeout_millis: u64 },
}

/// A node adapter: protected path, valid stream name, poll interval up to a minute, the
/// expected class, and replica commands (where named) with their responses.
pub open spec fn node_adapter_ok(
    path: Seq<char>,
    stream_name: Seq<char>,
    poll: u64,
    expected: ObservationClass,
    class: ObservationClass,
    style: Option<NodeReplicaCmdsStyle>,
) -> bool {
    &&& protected_path_ok(path)
    &&& identity_ok(stream_name, MAX_IDENTITY_BYTES as nat)
    &&& 1 <= poll <= MAX_SOURCE_POLL_INTERVAL_MILLIS
    &&& class == expected
    &&& (style is None || style == Some(NodeReplicaCmdsStyle::ActionsAndResponses))
}

/// The adapter suits a source of class `class`.
pub open spec fn adapter_ok(a: SourceAdapterConfig, class: ObservationClass) -> bool {
    match a {
        SourceAdapterConfig::OfficialInfo { egress_id, capability_id, request_timeout_millis } => {
            &&& identity_ok(egress_id@, MAX_IDENTITY_BYTES as nat)
            &&& identity_ok(capability_id@, MAX_IDENTITY_BYTES as nat)
            &&& 1 <= request_timeout_millis <= MAX_RUNTIME_TIMEOUT_MILLIS
            &&& class == ObservationClass::Snapshot
        },
        SourceAdapterConfig::NodeLine { path, stream_name, stream_class, poll_interval_millis } =>
            node_adapter_ok(path@, stream_name@, poll_interval_millis, stream_class, class, None),
        SourceAdapterConfig::NodeBlockDirectory {
            path,
            stream_name,
            start_height,
            poll_interval_millis,
            replica_cmds_style,
        } => node_adapter_ok(
            path@,
            stream_name@,
            poll_interval_millis,
            ObservationClass::CommittedBlock,
            class,
            Some(replica_cmds_style),
        ),
    }
}

impl SourceAdapterConfig {
    fn validate_node(
        path: &str,
        stream_name: &str,
        poll_interval_millis: u64,
        expected_class: ObservationClass,
        observation_class: ObservationClass,
        replica_cmds_style: Option<NodeReplicaCmdsStyle>,
    ) -> (r: Result<(), ConfigError>)
        ensures
            node_adapter_ok(
                path@,
                stream_name@,
                poll_interval_millis,
                expected_class,
                observation_class,
                replica_cmds_style,
            ) ==> r is Ok,
            !node_adapter_ok(
                path@,
                stream_name@,
                poll_interval_millis,
                expected_class,
                observation_class,
                replica_cmds_style,
            ) ==> r == Err::<(), ConfigError>(ConfigError::InvalidSourceAdapter),
    {
        validate_node_source_path(path)?;
        if !validate_identity(stream_name) {
            return Err(ConfigError::InvalidSourceAdapter);
        }
        if !(1 <= poll_interval_millis && poll_interval_millis <= MAX_SOURCE_POLL_INTERVAL_MILLIS)
            || observation_class != expected_class {
            return Err(ConfigError::InvalidSourceAdapter);
        }
        match replica_cmds_style {
            None | Some(NodeReplicaCmdsStyle::ActionsAndResponses) => Ok(()),
            Some(_) => Err(ConfigError::InvalidSourceAdapter),
        }
    }

    pub fn validate(&self, observation_class: ObservationClass) -> (r: Result<(), ConfigError>)
        ensures
            adapter_ok(*self, observation_class) ==> r is Ok,
            !adapter_ok(*self, observation_class) ==> r == Err::<(), ConfigError>(
                ConfigError::InvalidSourceAdapter,
            ),
    {
        match self {
            SourceAdapterConfig::OfficialInfo {
                egress_id,
                capability_id,
                request_timeout_millis,
            } => {
                if !validate_identity(egress_id.as_str()) || !validate_identity(
                    capability_id.as_str(),
                ) {
                    return Err(ConfigError::InvalidSourceAdapter);
                }
                if !(1 <= *request_timeout_millis && *request_timeout_millis
                    <= MAX_RUNTIME_TIMEOUT_MILLIS) || observation_class
                    != ObservationClass::Snapshot {
                    return Err(ConfigError::InvalidSourceAdapter);
                }
                Ok(())
            },
            SourceAdapterConfig::NodeLine {
                path,
                stream_name,
                stream_class,
                poll_interval_millis,
            } => Self::validate_node(
                path.as_str(),
                stream_name.as_str(),
                *poll_interval_millis,
                *stream_class,
                observation_class,
                None,
            ),
            SourceAdapterConfig::NodeBlockDirectory {
                path,
                stream_name,
                start_height: _,
                poll_interval_millis,
                replica_cmds_style,
            } => Self::validate_node(
                path.as_str(),
                stream_name.as_str(),
                *poll_interval_millis,
                ObservationClass::CommittedBlock,
                observation_class,
                Some(*replica_cmds_style),
            ),
        }
    }
}

/// What the identifier, admission and catalog rules said of a source.
#[derive(Debug, Clone, Copy, PartialEq, Eq, Structural)]
pub struct CatalogChecks {
    pub id_accepted: bool,
    pub admission_accepted: bool,
    pub catalog_error: Option<ConfigError>,
}

/// One capture source.
#[derive(Debug, Clone)]
pub struct SourceConfig {
    pub id: String,
    pub source_version: String,
    pub trust: SourceTrust,
    pub observation_class: ObservationClass,
    pub queue_capacity: usize,
    pub max_payload_bytes: usize,
    pub adapter: Option<SourceAdapterConfig>,
    pub credential_path: Option<String>,
    pub checks: CatalogChecks,
}

/// The first rule a source breaks, if any.
pub open spec fn source_error(s: SourceConfig) -> Option<ConfigError> {
    if !s.checks.id_accepted || !safe_component(s.id@) {
        Some(ConfigError::InvalidSourceId)
    } else if !identity_ok(s.source_version@, MAX_IDENTITY_BYTES as nat) {
        Some(ConfigError::InvalidSourceVersion)
    } else if !(1 <= s.queue_capacity <= MAX_QUEUE_CAPACITY) {
        Some(ConfigError::InvalidQueueCapacity)
    } else if !(1 <= s.max_payload_bytes <= MAX_PAYLOAD_BYTES) {
        Some(ConfigError::InvalidPayloadLimit)
    } else if !s.checks.admission_accepted {
        Some(ConfigError::InvalidSourceTrust)
    } else if s.credential_path matches Some(p) && !protected_path_ok(p@) {
        Some(ConfigError::InvalidCredentialPath)
    } else if s.adapter matches Some(a) && !adapter_ok(a, s.observation_class) {
        Some(ConfigError::InvalidSourceAdapter)
    } else {
        s.checks.catalog_error
    }
}

impl SourceConfig {
    pub fn validate(&self) -> (r: Result<(), ConfigError>)
        ensures
            verdict(r, source_error(*self)),
    {
        if !self.checks.id_accepted || !is_safe_source_path_component(self.id.as_str()) {
            return Err(ConfigError::InvalidSourceId);
        }
        if !validate_identity(self.source_version.as_str()) {
            return Err(ConfigError::InvalidSourceVersion);
        }
        if !(1 <= self.queue_capacity && self.queue_capacity <= MAX_QUEUE_CAPACITY) {
            return Err(ConfigError::InvalidQueueCapacity);
        }
        if !(1 <= self.max_payload_bytes && self.max_payload_bytes <= MAX_PAYLOAD_BYTES) {
            return Err(ConfigError::InvalidPayloadLimit);
        }
        if !self.checks.admission_accepted {
            return Err(ConfigError::InvalidSourceTrust);
        }
        match &self.credential_path {
            Some(path) => {
                validate_credential_path(path.as_str())?;
            },
            None => {},
        }
        match &self.adapter {
            Some(adapter) => {
                adapter.validate(self.observation_class)?;
            },
            None => {},
        }
        match self.checks.catalog_error {
            Some(e) => Err(e),
            None => Ok(()),
        }
    }

    pub fn id(&self) -> (r: &str)
        ensures
            r@ == self.id@,
    {
        self.id.as_str()
    }

    pub fn max_payload_bytes(&self) -> (r: usize)
        ensures
            r == self.max_payload_bytes,
    {
        self.max_payload_bytes
    }
}

/// A source the committed lane counts: 1 for the primary, 2 for an independent one.
pub open spec fn committed_role(s: SourceConfig) -> int {
    if s.observation_class != ObservationClass::CommittedBlock {
        0
    } else if s.trust == SourceTrust::LocallyVerifiedCommitted {
        1
    } else if s.trust == SourceTrust::IndependentCommitted {
        2
    } else {
        0
    }
}

/// A committed source must be read from a node block directory.
pub open spec fn committed_adapter_ok(s: SourceConfig) -> bool {
    s.adapter matches Some(a) && a is NodeBlockDirectory
}

/// Some source before position `i` has the same identifier as source `i`.
pub open spec fn id_seen_before(srcs: Seq<SourceConfig>, i: int) -> bool {
    exists|j: int| 0 <= j < i && (#[trigger] srcs[j]).id@ == srcs[i].id@
}

/// Reading the sources in order: the first error, or the number of primary and of
/// independent committed sources.
pub open spec fn sources_scan(srcs: Seq<SourceConfig>) -> Result<(nat, nat), ConfigError>
    decreases srcs.len(),
{
    if srcs.len() == 0 {
        Ok((0, 0))
    } else {
        match sources_scan(srcs.drop_last()) {
            Err(e) => Err(e),
            Ok((p, q)) => {
                let s = srcs.last();
                match source_error(s) {
                    Some(e) => Err(e),
                    None => if id_seen_before(srcs, srcs.len() - 1) {
                        Err(ConfigError::DuplicateSource)
                    } else if committed_role(s) != 0 && !committed_adapter_ok(s) {
                        Err(ConfigError::InvalidCommittedSourceAdapter)
                    } else if committed_role(s) == 1 {
                        Ok((p + 1, q))
                    } else if committed_role(s) == 2 {
                        Ok((p, q + 1))
                    } else {
                        Ok((p, q))
                    },
                }
            },
        }
    }
}

/// Reading the egress paths in order: the first error.
pub open spec fn egress_scan(es: Seq<EgressConfig>) -> Option<ConfigError>
    decreases es.len(),
{
    if es.len() == 0 {
        None
    } else {
        match egress_scan(es.drop_last()) {
            Some(e) => Some(e),
            None => match egress_error(es.last()) {
                Some(e) => Some(e),
                None => if exists|j: int|
                    0 <= j < es.len() - 1 && (#[trigger] es[j]).id@ == es.last().id@ {
                    Some(ConfigError::DuplicateEgress)
                } else {
                    None
                },
            },
        }
    }
}

/// An official info source that is not a reconciled snapshot, or names an egress path
/// that does not exist.
pub open spec fn info_binding_bad(s: SourceConfig, es: Seq<EgressConfig>) -> bool {
    match s.adapter {
        Some(SourceAdapterConfig::OfficialInfo { egress_id, .. }) => s.trust
            != SourceTrust::ReconciledSnapshot || !(exists|j: int|
            0 <= j < es.len() && (#[trigger] es[j]).id@ == egress_id@),
        _ => false,
    }
}

/// The whole capture configuration.
#[derive(Debug, Clone)]
pub struct CaptureConfig {
    pub parser_version: String,
    pub runtime: RuntimeConfig,
    pub spool: SpoolConfig,
    pub sources: Vec<SourceConfig>,
    pub egress: Vec<EgressConfig>,
}

/// The first rule the configuration breaks, if any, in the order the rules are checked.
pub open spec fn capture_error(c: CaptureConfig, chain_id_accepted: bool, listen: ListenCheck) -> Option<
    ConfigError,
> {
    if !identity_ok(c.parser_version@, MAX_IDENTITY_BYTES as nat) || starts_with(
        c.parser_version@,
        "quarantine-v1:"@,
    ) {
        Some(ConfigError::InvalidParserVersion)
    } else if runtime_error(c.runtime, chain_id_accepted, listen) is Some {
        runtime_error(c.runtime, chain_id_accepted, listen)
    } else if spool_error(c.spool) is Some {
        spool_error(c.spool)
    } else if c.sources@.len() == 0 {
        Some(ConfigError::MissingSources)
    } else {
        match sources_scan(c.sources@) {
            Err(e) => Some(e),
            Ok((p, q)) => if p == 0 {
                Some(ConfigError::MissingPrimaryCommittedSource)
            } else if p > 1 {
                Some(ConfigError::DuplicatePrimaryCommittedSource)
            } else if q > 1 {
                Some(ConfigError::DuplicateIndependentCommittedSource)
            } else if egress_scan(c.egress@) is Some {
                egress_scan(c.egress@)
            } else if exists|i: int|
                0 <= i < c.sources@.len() && info_binding_bad(#[trigger] c.sources@[i], c.egress@) {
                Some(ConfigError::InvalidSourceAdapter)
            } else {
                None
            },
        }
    }
}

proof fn lemma_sources_scan_err(srcs: Seq<SourceConfig>, k: int, m: int, e: ConfigError)
    requires
        0 <= k <= m <= srcs.len(),
        sources_scan(srcs.take(k)) == Err::<(nat, nat), ConfigError>(e),
    ensures
        sources_scan(srcs.take(m)) == Err::<(nat, nat), ConfigError>(e),
    decreases m - k,
{
    if k < m {
        lemma_sources_scan_err(srcs, k, m - 1, e);
        assert(srcs.take(m).drop_last() =~= srcs.take(m - 1));
    }
}

proof fn lemma_egress_scan_err(es: Seq<EgressConfig>, k: int, m: int, e: ConfigError)
    requires
        0 <= k <= m <= es.len(),
        egress_scan(es.take(k)) == Some(e),
    ensures
        egress_scan(es.take(m)) == Some(e),
    decreases m - k,
{
    if k < m {
        lemma_egress_scan_err(es, k, m - 1, e);
        assert(es.take(m).drop_last() =~= es.take(m - 1));
    }
}

fn source_id_seen(srcs: &Vec<SourceConfig>, i: usize) -> (r: bool)
    requires
        i < srcs@.len(),
    ensures
        r == id_seen_before(srcs@, i as int),
{
    let mut j: usize = 0;
    while j < i
        invariant
            i < srcs@.len(),
            j <= i,
            forall|k: int| 0 <= k < j ==> (#[trigger] srcs@[k]).id@ != srcs@[i as int].id@,
        decreases i - j,
    {
        if same_text(srcs[j].id.as_str(), srcs[i].id.as_str()) {
            return true;
        }
        j = j + 1;
    }
    false
}

fn egress_id_seen(es: &Vec<EgressConfig>, i: usize) -> (r: bool)
    requires
        i < es@.len(),
    ensures
        r == exists|j: int| 0 <= j < i && (#[trigger] es@[j]).id@ == es@[i as int].id@,
{
    let mut j: usize = 0;
    while j < i
        invariant
            i < es@.len(),
            j <= i,
            forall|k: int| 0 <= k < j ==> (#[trigger] es@[k]).id@ != es@[i as int].id@,
        decreases i - j,
    {
        if same_text(es[j].id.as_str(), es[i].id.as_str()) {
            return true;
        }
        j = j + 1;
    }
    false
}

fn egress_has_id(es: &Vec<EgressConfig>, id: &str) -> (r: bool)
    ensures
        r == exists|j: int| 0 <= j < es@.len() && (#[trigger] es@[j]).id@ == id@,
{
    let mut j: usize = 0;
    while j < es.len()
        invariant
            j <= es@.len(),
            forall|k: int| 0 <= k < j ==> (#[trigger] es@[k]).id@ != id@,
        decreases es@.len() - j,
    {
        if same_text(es[j].id.as_str(), id) {
            return true;
        }
        j = j + 1;
    }
    false
}

impl CaptureConfig {
    fn scan_sources(&self) -> (r: Result<(usize, usize), ConfigError>)
        ensures
            match sources_scan(self.sources@) {
                Ok(pq) => r matches Ok((a, b)) && pq == (a as nat, b as nat),
                Err(e) => r == Err::<(usize, usize), ConfigError>(e),
            },
    {
        let ghost srcs = self.sources@;
        let mut primary: usize = 0;
        let mut independent: usize = 0;
        let mut i: usize = 0;
        while i < self.sources.len()
            invariant
                srcs == self.sources@,
                i <= srcs.len(),
                primary <= i,
                independent <= i,
                sources_scan(srcs.take(i as int)) == Ok::<(nat, nat), ConfigError>(
                    (primary as nat, independent as nat),
                ),
            decreases srcs.len() - i,
        {
            let source = &self.sources[i];
            proof {
                assert(srcs.take(i + 1).drop_last() =~= srcs.take(i as int));
                assert(srcs.take(i + 1).last() == srcs[i as int]);
                assert(id_seen_before(srcs.take(i + 1), i as int) == id_seen_before(
                    srcs,
                    i as int,
                )) by {
                    if id_seen_before(srcs, i as int) {
                        let j = choose|j: int|
                            0 <= j < i && (#[trigger] srcs[j]).id@ == srcs[i as int].id@;
                        assert(srcs.take(i + 1)[j] == srcs[j]);
                    }
                    if id_seen_before(srcs.take(i + 1), i as int) {
                        let j = choose|j: int|
                            0 <= j < i && (#[trigger] srcs.take(i + 1)[j]).id@ == srcs.take(
                                i + 1,
                            )[i as int].id@;
                        assert(srcs.take(i + 1)[j] == srcs[j]);
                    }
                }
            }
            let step: Result<(), ConfigError> = match source.validate() {
                Err(e) => Err(e),
                Ok(()) => {
                    if source_id_seen(&self.sources, i) {
                        Err(ConfigError::DuplicateSource)
                    } else {
                        let committed = match source.observation_class {
                            ObservationClass::CommittedBlock => match source.trust {
                                SourceTrust::LocallyVerifiedCommitted => 1u8,
                                SourceTrust::IndependentCommitted => 2u8,
                                _ => 0u8,
                            },
                            _ => 0u8,
                        };
                        let adapter_ok = match &source.adapter {
                            Some(SourceAdapterConfig::NodeBlockDirectory { .. }) => true,
                            _ => false,
                        };
                        if committed != 0 && !adapter_ok {
                            Err(ConfigError::InvalidCommittedSourceAdapter)
                        } else {
                            if committed == 1 {
                                primary = primary + 1;
                            } else if committed == 2 {
                                independent = independent + 1;
                            }
                            Ok(())
                        }
                    }
                },
            };
            match step {
                Err(e) => {
                    proof {
                        assert(srcs.take(srcs.len() as int) =~= srcs);
                        lemma_sources_scan_err(srcs, i + 1, srcs.len() as int, e);
                    }
                    return Err(e);
                },
                Ok(()) => {},
            }
            i = i + 1;
        }
        assert(srcs.take(srcs.len() as int) =~= srcs);
        Ok((primary, independent))
    }

    fn scan_egress(&self) -> (r: Result<(), ConfigError>)
        ensures
            verdict(r, egress_scan(self.egress@)),
    {
        let ghost es = self.egress@;
        let mut k: usize = 0;
        while k < self.egress.len()
            invariant
                es == self.egress@,
                k <= es.len(),
                egress_scan(es.take(k as int)) is None,
            decreases es.len() - k,
        {
            proof {
                assert(es.take(k + 1).drop_last() =~= es.take(k as int));
                assert(es.take(k + 1).last() == es[k as int]);
            }
            let step: Result<(), ConfigError> = match self.egress[k].validate() {
                Err(e) => Err(e),
                Ok(()) => {
                    if egress_id_seen(&self.egress, k) {
                        proof {
                            let j = choose|j: int|
                                0 <= j < k && (#[trigger] es[j]).id@ == es[k as int].id@;
                            assert(es.take(k + 1)[j] == es[j]);
                        }
                        Err(ConfigError::DuplicateEgress)
                    } else {
                        proof {
                            assert forall|j: int|
                                0 <= j < k + 1 - 1 implies (#[trigger] es.take(k + 1)[j]).id@
                                != es.take(k + 1).last().id@ by {
                                assert(es.take(k + 1)[j] == es[j]);
                            }
                        }
                        Ok(())
                    }
                },
            };
            match step {
                Err(e) => {
                    proof {
                        assert(es.take(es.len() as int) =~= es);
                        lemma_egress_scan_err(es, k + 1, es.len() as int, e);
                    }
                    return Err(e);
                },
                Ok(()) => {},
            }
            k = k + 1;
        }
        assert(es.take(es.len() as int) =~= es);
        Ok(())
    }

    fn check_info_bindings(&self) -> (r: Result<(), ConfigError>)
        ensures
            (exists|i: int|
                0 <= i < self.sources@.len() && info_binding_bad(
                    #[trigger] self.sources@[i],
                    self.egress@,
                )) ==> r == Err::<(), ConfigError>(ConfigError::InvalidSourceAdapter),
            !(exists|i: int|
                0 <= i < self.sources@.len() && info_binding_bad(
                    #[trigger] self.sources@[i],
                    self.egress@,
                )) ==> r is Ok,
    {
        let ghost srcs = self.sources@;
        let ghost es = self.egress@;
        let mut m: usize = 0;
        while m < self.sources.len()
            invariant
                srcs == self.sources@,
                es == self.egress@,
                m <= srcs.len(),
                forall|j: int| 0 <= j < m ==> !info_binding_bad(#[trigger] srcs[j], es),
            decreases srcs.len() - m,
        {
            match &self.sources[m].adapter {
                Some(SourceAdapterConfig::OfficialInfo { egress_id, .. }) => {
                    let reconciled = match self.sources[m].trust {
                        SourceTrust::ReconciledSnapshot => true,
                        _ => false,
                    };
                    if !reconciled || !egress_has_id(&self.egress, egress_id.as_str()) {
                        assert(info_binding_bad(srcs[m as int], es));
                        return Err(ConfigError::InvalidSourceAdapter);
                    }
                },
                _ => {},
            }
            m = m + 1;
        }
        Ok(())
    }

    /// Checks the whole configuration. `chain_id_accepted` is what the chain identifier
    /// type said of the runtime's chain; `listen` is how its status address parsed.
    pub fn validate(&self, chain_id_accepted: bool, listen: ListenCheck) -> (r: Result<
        (),
        ConfigError,
    >)
        ensures
            verdict(r, capture_error(*self, chain_id_accepted, listen)),
    {
        if !validate_identity(self.parser_version.as_str()) || str_starts_with(
            self.parser_version.as_str(),
            "quarantine-v1:",
        ) {
            return Err(ConfigError::InvalidParserVersion);
        }
        self.runtime.validate(chain_id_accepted, listen)?;
        self.spool.validate()?;
        if self.sources.len() == 0 {
            return Err(ConfigError::MissingSources);
        }
        let (primary, independent) = self.scan_sources()?;
        if primary == 0 {
            return Err(ConfigError::MissingPrimaryCommittedSource);
        }
        if primary > 1 {
            return Err(ConfigError::DuplicatePrimaryCommittedSource);
        }
        if independent > 1 {
            return Err(ConfigError::DuplicateIndependentCommittedSource);
        }
        self.scan_egress()?;
        self.check_info_bindings()
    }

    pub fn parser_version(&self) -> (r: &str)
        ensures
            r@ == self.parser_version@,
    {
        self.parser_version.as_str()
    }

    pub fn runtime(&self) -> (r: &RuntimeConfig)
        ensures
            *r == self.runtime,
    {
        &self.runtime
    }

    pub fn spool(&self) -> (r: &SpoolConfig)
        ensures
            *r == self.spool,
    {
        &self.spool
    }

    pub fn sources(&self) -> (r: &[SourceConfig])
        ensures
            r@ == self.sources@,
    {
        self.sources.as_slice()
    }

    pub fn egress(&self) -> (r: &[EgressConfig])
        ensures
            r@ == self.egress@,
    {
        self.egress.as_slice()
    }

    /// The first source named `id`.
    pub fn source(&self, id: &str) -> (r: Option<&SourceConfig>)
        ensures
            match r {
                Some(s) => exists|i: int|
                    0 <= i < self.sources@.len() && self.sources@[i] == *s && s.id@ == id@ && forall|
                        j: int,
                    | 0 <= j < i ==> (#[trigger] self.sources@[j]).id@ != id@,
                None => forall|j: int|
                    0 <= j < self.sources@.len() ==> (#[trigger] self.sources@[j]).id@ != id@,
            },
    {
        let mut i: usize = 0;
        while i < self.sources.len()
            invariant
                i <= self.sources@.len(),
                forall|j: int| 0 <= j < i ==> (#[trigger] self.sources@[j]).id@ != id@,
            decreases self.sources@.len() - i,
        {
            if same_text(self.sources[i].id.as_str(), id) {
                return Some(&self.sources[i]);
            }
            i = i + 1;
        }
        None
    }

    /// The payload limit of the first source named `id`.
    pub fn payload_limit(&self, id: &str) -> (r: Option<usize>)
        ensures
            match r {
                Some(n) => exists|i: int|
                    0 <= i < self.sources@.len() && self.sources@[i].id@ == id@
                        && self.sources@[i].max_payload_bytes == n && forall|j: int|
                        0 <= j < i ==> (#[trigger] self.sources@[j]).id@ != id@,
                None => forall|j: int|
                    0 <= j < self.sources@.len() ==> (#[trigger] self.sources@[j]).id@ != id@,
            },
    {
        match self.source(id) {
            Some(s) => Some(s.max_payload_bytes()),
            None => None,
        }
    }
}

proof fn lemma_duplicate_scan_err(srcs: Seq<SourceConfig>, i: int, j: int)
    requires
        0 <= i < j < srcs.len(),
        srcs[i].id@ == srcs[j].id@,
    ensures
        sources_scan(srcs.take(j + 1)) is Err,
{
    let t = srcs.take(j + 1);
    assert(t.drop_last() =~= srcs.take(j));
    assert(t[i] == srcs[i]);
    assert(t.last() == srcs[j]);
    match sources_scan(srcs.take(j)) {
        Err(_) => {},
        Ok(_) => {
            if source_error(srcs[j]) is None {
                assert(id_seen_before(t, t.len() - 1));
            }
        },
    }
}

/// Two sources that share an identifier make the configuration invalid, whatever else it
/// holds: the sources are refused before they are counted.
pub proof fn law_duplicate_source_is_refused(c: CaptureConfig, chain_id_accepted: bool, listen: ListenCheck, i: int, j: int)
    requires
        0 <= i < j < c.sources@.len(),
        c.sources@[i].id@ == c.sources@[j].id@,
    ensures
        sources_scan(c.sources@) is Err,
        capture_error(c, chain_id_accepted, listen) is Some,
{
    let s = c.sources@;
    lemma_duplicate_scan_err(s, i, j);
    let e = sources_scan(s.take(j + 1))->Err_0;
    lemma_sources_scan_err(s, j + 1, s.len() as int, e);
    assert(s.take(s.len() as int) =~= s);
}

} // verus!
