//! Settings of the raw segment archive, and the errors of the operator surface, the
//! fixtures and service start-up with their stable reason codes.

use vstd::prelude::*;

use crate::text::owned;

verus! {

pub const MAX_ARCHIVE_BATCH_RECORDS: usize = 1000000;
pub const MAX_ARCHIVE_BATCH_BYTES: u64 = 1073741824;

/// Why archiving a raw spool segment failed.
#[derive(Debug, Clone, PartialEq, Eq)]
pub enum RawSegmentArchiveError {
    InvalidConfig,
    /// The spool evidence failed, with the spool's reason code.
    Spool { reason_code: String },
    Observation,
    /// The archive failed, with the archive's reason code.
    Archive { reason_code: String },
    VerificationMismatch,
    SizeOverflow,
    BlockingTask,
}

pub open spec fn raw_archive_reason(e: RawSegmentArchiveError) -> Seq<char> {
    match e {
        RawSegmentArchiveError::InvalidConfig => "capture_raw_archive.invalid_config"@,
        RawSegmentArchiveError::Spool { reason_code } => reason_code@,
        RawSegmentArchiveError::Observation => "capture_raw_archive.observation"@,
        RawSegmentArchiveError::Archive { reason_code } => reason_code@,
        RawSegmentArchiveError::VerificationMismatch => "capture_raw_archive.verification_mismatch"@,
        RawSegmentArchiveError::SizeOverflow => "capture_raw_archive.size_overflow"@,
        RawSegmentArchiveError::BlockingTask => "capture_raw_archive.blocking_task"@,
    }
}

impl RawSegmentArchiveError {
    pub fn reason_code(&self) -> (r: String)
        ensures
            r@ == raw_archive_reason(*self),
    {
        match self {
            RawSegmentArchiveError::InvalidConfig => owned("capture_raw_archive.invalid_config"),
            RawSegmentArchiveError::Spool { reason_code } => owned(reason_code.as_str()),
            RawSegmentArchiveError::Observation => owned("capture_raw_archive.observation"),
            RawSegmentArchiveError::Archive { reason_code } => owned(reason_code.as_str()),
            RawSegmentArchiveError::VerificationMismatch => owned("capture_raw_archive.verification_mismatch"),
            RawSegmentArchiveError::SizeOverflow => owned("capture_raw_archive.size_overflow"),
            RawSegmentArchiveError::BlockingTask => owned("capture_raw_archive.blocking_task"),
        }
    }
}

/// Limits of one raw archive batch.
#[derive(Debug, Clone, Copy, PartialEq, Eq, Structural)]
pub struct RawSegmentArchiveConfig {
    max_payload_bytes: usize,
    max_batch_records: usize,
    max_batch_bytes: u64,
}

/// A payload limit of at least one byte, one to a million records and up to a GiB per
/// batch, and a payload that fits its batch.
pub open spec fn raw_archive_config_ok(max_payload_bytes: usize, max_batch_records: usize, max_batch_bytes: u64) -> bool {
    &&& max_payload_bytes != 0
    &&& 1 <= max_batch_records <= MAX_ARCHIVE_BATCH_RECORDS
    &&& 0 < max_batch_bytes <= MAX_ARCHIVE_BATCH_BYTES
    &&& max_payload_bytes <= max_batch_bytes
}

impl RawSegmentArchiveConfig {
    pub closed spec fn spec_max_payload(&self) -> usize {
        self.max_payload_bytes
    }

    pub closed spec fn spec_max_records(&self) -> usize {
        self.max_batch_records
    }

    pub closed spec fn spec_max_bytes(&self) -> u64 {
        self.max_batch_bytes
    }

    pub fn try_new(max_payload_bytes: usize, max_batch_records: usize, max_batch_bytes: u64) -> (r: Result<
        Self,
        RawSegmentArchiveError,
    >)
        ensures
            raw_archive_config_ok(max_payload_bytes, max_batch_records, max_batch_bytes) ==> (r matches Ok(c)
                && c.spec_max_payload() == max_payload_bytes && c.spec_max_records() == max_batch_records
                && c.spec_max_bytes() == max_batch_bytes),
            !raw_archive_config_ok(max_payload_bytes, max_batch_records, max_batch_bytes) ==> r == Err::<
                Self,
                RawSegmentArchiveError,
            >(RawSegmentArchiveError::InvalidConfig),
    {
        if max_payload_bytes == 0 || max_batch_records == 0 || max_batch_records > MAX_ARCHIVE_BATCH_RECORDS
            || max_batch_bytes == 0 || max_batch_bytes > MAX_ARCHIVE_BATCH_BYTES || max_payload_bytes as u64
            > max_batch_bytes {
            return Err(RawSegmentArchiveError::InvalidConfig);
        }
        Ok(RawSegmentArchiveConfig { max_payload_bytes, max_batch_records, max_batch_bytes })
    }

    pub fn max_payload_bytes(self) -> (r: usize)
        ensures
            r == self.spec_max_payload(),
    {
        self.max_payload_bytes
    }

    pub fn max_batch_records(self) -> (r: usize)
        ensures
            r == self.spec_max_records(),
    {
        self.max_batch_records
    }

    pub fn max_batch_bytes(self) -> (r: u64)
        ensures
            r == self.spec_max_bytes(),
    {
        self.max_batch_bytes
    }
}

/// Why the operator status surface failed.
#[derive(Debug, Clone, PartialEq, Eq)]
pub enum OperatorError {
    UnsafeBind,
    Bind,
    Accept,
    Io,
    InvalidRequest,
    RequestTooLarge,
    Serialization,
    NotReady,
    /// The status snapshot was unavailable, with the status store's reason code.
    Status { reason_code: String },
}

pub open spec fn operator_reason(e: OperatorError) -> Seq<char> {
    match e {
        OperatorError::UnsafeBind => "capture_operator.unsafe_bind"@,
        OperatorError::Bind => "capture_operator.bind"@,
        OperatorError::Accept => "capture_operator.accept"@,
        OperatorError::Io => "capture_operator.io"@,
        OperatorError::InvalidRequest => "capture_operator.invalid_request"@,
        OperatorError::RequestTooLarge => "capture_operator.request_too_large"@,
        OperatorError::Serialization => "capture_operator.serialization"@,
        OperatorError::NotReady => "capture_health.not_ready"@,
        OperatorError::Status { reason_code } => reason_code@,
    }
}

impl OperatorError {
    pub fn reason_code(&self) -> (r: String)
        ensures
            r@ == operator_reason(*self),
    {
        match self {
            OperatorError::UnsafeBind => owned("capture_operator.unsafe_bind"),
            OperatorError::Bind => owned("capture_operator.bind"),
            OperatorError::Accept => owned("capture_operator.accept"),
            OperatorError::Io => owned("capture_operator.io"),
            OperatorError::InvalidRequest => owned("capture_operator.invalid_request"),
            OperatorError::RequestTooLarge => owned("capture_operator.request_too_large"),
            OperatorError::Serialization => owned("capture_operator.serialization"),
            OperatorError::NotReady => owned("capture_health.not_ready"),
            OperatorError::Status { reason_code } => owned(reason_code.as_str()),
        }
    }
}

/// The info budget snapshot lives beside the status file, as `info-budget.json`.
pub fn info_budget_status_path(status_path: &str) -> (r: String)
    ensures
        r@ == crate::public_ws::path_with_file_name(status_path@, "info-budget.json"@),
{
    crate::public_ws::with_file_name(status_path, "info-budget.json")
}

/// Why building a synthetic fixture block failed.
#[derive(Debug, Clone, Copy, PartialEq, Eq, Structural)]
pub enum FixtureError {
    HeightOverflow,
    InvalidTime,
    InvalidIdentity,
    InvalidDecimal,
    InvalidEvent,
    InvalidBlock,
}

pub open spec fn fixture_reason(e: FixtureError) -> Seq<char> {
    match e {
        FixtureError::HeightOverflow => "capture_fixture.height_overflow"@,
        FixtureError::InvalidTime => "capture_fixture.invalid_time"@,
        FixtureError::InvalidIdentity => "capture_fixture.invalid_identity"@,
        FixtureError::InvalidDecimal => "capture_fixture.invalid_decimal"@,
        FixtureError::InvalidEvent => "capture_fixture.invalid_event"@,
        FixtureError::InvalidBlock => "capture_fixture.invalid_block"@,
    }
}

impl FixtureError {
    pub fn reason_code(self) -> (r: &'static str)
        ensures
            r@ == fixture_reason(self),
    {
        match self {
            FixtureError::HeightOverflow => "capture_fixture.height_overflow",
            FixtureError::InvalidTime => "capture_fixture.invalid_time",
            FixtureError::InvalidIdentity => "capture_fixture.invalid_identity",
            FixtureError::InvalidDecimal => "capture_fixture.invalid_decimal",
            FixtureError::InvalidEvent => "capture_fixture.invalid_event",
            FixtureError::InvalidBlock => "capture_fixture.invalid_block",
        }
    }
}

/// Why connecting the capture runtime failed.
#[derive(Debug, Clone, Copy, PartialEq, Eq, Structural)]
pub enum RuntimeConnectError {
    Secret,
    PostgresConfig,
    UnsafeDevelopmentTransport,
    Archive,
    NatsConfig,
    RuntimeConfig,
    Status,
    FailoverState,
}

pub open spec fn connect_reason(e: RuntimeConnectError) -> Seq<char> {
    match e {
        RuntimeConnectError::Secret => "capture_connect.secret"@,
        RuntimeConnectError::PostgresConfig => "capture_connect.postgres_config"@,
        RuntimeConnectError::UnsafeDevelopmentTransport => "capture_connect.unsafe_transport"@,
        RuntimeConnectError::Archive => "capture_connect.archive"@,
        RuntimeConnectError::NatsConfig => "capture_connect.nats_config"@,
        RuntimeConnectError::RuntimeConfig => "capture_connect.runtime_config"@,
        RuntimeConnectError::Status => "capture_connect.status"@,
        RuntimeConnectError::FailoverState => "capture_connect.failover_state"@,
    }
}

impl RuntimeConnectError {
    pub fn reason_code(self) -> (r: &'static str)
        ensures
            r@ == connect_reason(self),
    {
        match self {
            RuntimeConnectError::Secret => "capture_connect.secret",
            RuntimeConnectError::PostgresConfig => "capture_connect.postgres_config",
            RuntimeConnectError::UnsafeDevelopmentTransport => "capture_connect.unsafe_transport",
            RuntimeConnectError::Archive => "capture_connect.archive",
            RuntimeConnectError::NatsConfig => "capture_connect.nats_config",
            RuntimeConnectError::RuntimeConfig => "capture_connect.runtime_config",
            RuntimeConnectError::Status => "capture_connect.status",
            RuntimeConnectError::FailoverState => "capture_connect.failover_state",
        }
    }
}

} // verus!
