//! JetStream connection settings and the rules for the secrets they read.

use vstd::prelude::*;

use crate::config::{has_leading_cur_dir, has_parent_component, is_absolute_path, path_has_dot_component};
use crate::text::{
    any_control, chars_of, contains, has_char, has_control, identity_ok, owned, starts_with,
    str_contains, str_has_char, str_starts_with, trimmed, valid_identity,
};

verus! {

pub const MAX_TIMEOUT_MILLIS: u64 = 60_000;

pub const MAX_ACK_INFLIGHT: usize = 100_000;

pub const MAX_LEDGER_CAPACITY: usize = 10_000_000;

pub const MAX_USERNAME_BYTES: usize = 128;

pub const MAX_SECRET_FILE_BYTES: u64 = 16_384;

/// Why a JetStream configuration was refused.
#[derive(Debug, Clone, Copy, PartialEq, Eq, Structural)]
pub enum JetStreamConfigError {
    UnsafeServerUrl,
    UnsafeCredentialsPath,
    InvalidUsername,
    InvalidConnectTimeout,
    InvalidAcknowledgementTimeout,
    InvalidMaxAckInflight,
    InvalidLedgerCapacity,
}

pub open spec fn jetstream_reason(e: JetStreamConfigError) -> Seq<char> {
    match e {
        JetStreamConfigError::UnsafeServerUrl => "jetstream_config.unsafe_server_url"@,
        JetStreamConfigError::UnsafeCredentialsPath => "jetstream_config.unsafe_credentials_path"@,
        JetStreamConfigError::InvalidUsername => "jetstream_config.invalid_username"@,
        JetStreamConfigError::InvalidConnectTimeout => "jetstream_config.invalid_connect_timeout"@,
        JetStreamConfigError::InvalidAcknowledgementTimeout => "jetstream_config.invalid_acknowledgement_timeout"@,
        JetStreamConfigError::InvalidMaxAckInflight => "jetstream_config.invalid_max_ack_inflight"@,
        JetStreamConfigError::InvalidLedgerCapacity => "jetstream_config.invalid_ledger_capacity"@,
    }
}

impl JetStreamConfigError {
    pub fn reason_code(self) -> (r: &'static str)
        ensures
            r@ == jetstream_reason(self),
    {
        match self {
            JetStreamConfigError::UnsafeServerUrl => "jetstream_config.unsafe_server_url",
            JetStreamConfigError::UnsafeCredentialsPath => "jetstream_config.unsafe_credentials_path",
            JetStreamConfigError::InvalidUsername => "jetstream_config.invalid_username",
            JetStreamConfigError::InvalidConnectTimeout => "jetstream_config.invalid_connect_timeout",
            JetStreamConfigError::InvalidAcknowledgementTimeout => "jetstream_config.invalid_acknowledgement_timeout",
            JetStreamConfigError::InvalidMaxAckInflight => "jetstream_config.invalid_max_ack_inflight",
            JetStreamConfigError::InvalidLedgerCapacity => "jetstream_config.invalid_ledger_capacity",
        }
    }
}

/// How the publisher authenticates.
#[derive(Debug, Clone, PartialEq, Eq)]
pub enum JetStreamAuthentication {
    Anonymous,
    CredentialsFile(String),
    UserPasswordFile { username: String, password_path: String },
}

/// The authority of a server URL: what follows its first `://`.
pub open spec fn url_authority(v: Seq<char>) -> Seq<char> {
    if exists|i: int| 0 <= i && i + 3 <= v.len() && #[trigger] v.subrange(i, i + 3) == "://"@ {
        let i = choose|i: int|
            0 <= i && i + 3 <= v.len() && #[trigger] v.subrange(i, i + 3) == "://"@ && forall|j: int|
                0 <= j < i ==> !(j + 3 <= v.len() && #[trigger] v.subrange(j, j + 3) == "://"@);
        v.skip(i + 3)
    } else {
        Seq::empty()
    }
}

/// A server URL: `nats://` or `tls://`, unpadded, no `@`, no control characters, and a
/// nonempty authority with no path, query or fragment.
pub open spec fn server_url_ok(v: Seq<char>) -> bool {
    &&& starts_with(v, "nats://"@) || starts_with(v, "tls://"@)
    &&& trimmed(v)
    &&& !has_char(v, '@')
    &&& !has_control(v)
    &&& url_authority(v).len() > 0
    &&& !has_char(url_authority(v), '/')
    &&& !has_char(url_authority(v), '?')
    &&& !has_char(url_authority(v), '#')
}

fn authority_of(v: &Vec<char>) -> (r: Vec<char>)
    ensures
        r@ == url_authority(v@),
{
    proof {
        reveal_strlit("://");
        assert("://"@ =~= seq![':', '/', '/']);
    }
    let n = v.len();
    let mut i: usize = 0;
    while i < n
        invariant
            i <= n == v@.len(),
            "://"@ == seq![':', '/', '/'],
            forall|j: int|
                0 <= j < i ==> !(j + 3 <= v@.len() && #[trigger] v@.subrange(j, j + 3) == "://"@),
        decreases n - i,
    {
        if n - i >= 3 && v[i] == ':' && v[i + 1] == '/' && v[i + 2] == '/' {
            assert(v@.subrange(i as int, i + 3) =~= "://"@);
            let mut out: Vec<char> = Vec::new();
            let mut k = i + 3;
            while k < n
                invariant
                    i + 3 <= k <= n == v@.len(),
                    out@ == v@.subrange(i + 3, k as int),
                decreases n - k,
            {
                out.push(v[k]);
                k = k + 1;
            }
            proof {
                let c = choose|c: int|
                    0 <= c && c + 3 <= v@.len() && #[trigger] v@.subrange(c, c + 3) == "://"@ && forall|j: int|
                        0 <= j < c ==> !(j + 3 <= v@.len() && #[trigger] v@.subrange(j, j + 3)
                            == "://"@);
                if c < i {
                } else if c > i {
                    assert(!(i + 3 <= v@.len() && v@.subrange(i as int, i + 3) == "://"@));
                }
                assert(c == i);
                assert(out@ =~= v@.skip(i + 3));
            }
            return out;
        }
        proof {
            if i + 3 <= n && v@.subrange(i as int, i + 3) == "://"@ {
                assert(v@.subrange(i as int, i + 3)[0] == v@[i as int]);
                assert(v@.subrange(i as int, i + 3)[1] == v@[i + 1]);
                assert(v@.subrange(i as int, i + 3)[2] == v@[i + 2]);
            }
        }
        i = i + 1;
    }
    Vec::new()
}

fn validate_server_url(value: &str) -> (r: Result<(), JetStreamConfigError>)
    ensures
        server_url_ok(value@) ==> r is Ok,
        !server_url_ok(value@) ==> r == Err::<(), JetStreamConfigError>(
            JetStreamConfigError::UnsafeServerUrl,
        ),
{
    let valid_scheme = str_starts_with(value, "nats://") || str_starts_with(value, "tls://");
    if !valid_scheme || !crate::text::is_trimmed(value) || str_has_char(value, '@') || any_control(
        value,
    ) {
        return Err(JetStreamConfigError::UnsafeServerUrl);
    }
    let v = chars_of(value);
    let authority = authority_of(&v);
    if authority.len() == 0 || crate::text::seq_has_char(&authority, '/')
        || crate::text::seq_has_char(&authority, '?') || crate::text::seq_has_char(&authority, '#') {
        return Err(JetStreamConfigError::UnsafeServerUrl);
    }
    Ok(())
}

/// A credentials path: absolute, with no `.` or `..` component.
pub open spec fn credentials_path_ok(p: Seq<char>) -> bool {
    is_absolute_path(p) && !has_parent_component(p) && !has_leading_cur_dir(p)
}

fn validate_credentials_path(path: &str) -> (r: Result<(), JetStreamConfigError>)
    ensures
        credentials_path_ok(path@) ==> r is Ok,
        !credentials_path_ok(path@) ==> r == Err::<(), JetStreamConfigError>(
            JetStreamConfigError::UnsafeCredentialsPath,
        ),
{
    let c = chars_of(path);
    if c.len() == 0 || c[0] != '/' || path_has_dot_component(path) {
        Err(JetStreamConfigError::UnsafeCredentialsPath)
    } else {
        Ok(())
    }
}

fn validate_username(value: &str) -> (r: Result<(), JetStreamConfigError>)
    ensures
        identity_ok(value@, MAX_USERNAME_BYTES as nat) ==> r is Ok,
        !identity_ok(value@, MAX_USERNAME_BYTES as nat) ==> r == Err::<(), JetStreamConfigError>(
            JetStreamConfigError::InvalidUsername,
        ),
{
    if valid_identity(value, MAX_USERNAME_BYTES) {
        Ok(())
    } else {
        Err(JetStreamConfigError::InvalidUsername)
    }
}

/// Connection settings of the JetStream publisher; timeouts in milliseconds.
#[derive(Debug, Clone, PartialEq, Eq)]
pub struct JetStreamConfig {
    server_url: String,
    authentication: JetStreamAuthentication,
    connect_timeout_millis: u64,
    acknowledgement_timeout_millis: u64,
    max_ack_inflight: usize,
    ledger_capacity: usize,
}

/// The first rule the settings break, if any.
pub open spec fn jetstream_error(
    server_url: Seq<char>,
    authentication: JetStreamAuthentication,
    connect_timeout_millis: u64,
    acknowledgement_timeout_millis: u64,
    max_ack_inflight: usize,
    ledger_capacity: usize,
) -> Option<JetStreamConfigError> {
    if !server_url_ok(server_url) {
        Some(JetStreamConfigError::UnsafeServerUrl)
    } else if authentication_error(authentication) is Some {
        authentication_error(authentication)
    } else if connect_timeout_millis == 0 || connect_timeout_millis > MAX_TIMEOUT_MILLIS {
        Some(JetStreamConfigError::InvalidConnectTimeout)
    } else if acknowledgement_timeout_millis == 0 || acknowledgement_timeout_millis
        > MAX_TIMEOUT_MILLIS {
        Some(JetStreamConfigError::InvalidAcknowledgementTimeout)
    } else if !(1 <= max_ack_inflight <= MAX_ACK_INFLIGHT) {
        Some(JetStreamConfigError::InvalidMaxAckInflight)
    } else if !(1 <= ledger_capacity <= MAX_LEDGER_CAPACITY) {
        Some(JetStreamConfigError::InvalidLedgerCapacity)
    } else {
        None
    }
}

/// The first rule the authentication breaks, if any.
pub open spec fn authentication_error(a: JetStreamAuthentication) -> Option<JetStreamConfigError> {
    match a {
        JetStreamAuthentication::Anonymous => None,
        JetStreamAuthentication::CredentialsFile(p) => if credentials_path_ok(p@) {
            None
        } else {
            Some(JetStreamConfigError::UnsafeCredentialsPath)
        },
        JetStreamAuthentication::UserPasswordFile { username, password_path } => if !identity_ok(
            username@,
            MAX_USERNAME_BYTES as nat,
        ) {
            Some(JetStreamConfigError::InvalidUsername)
        } else if !credentials_path_ok(password_path@) {
            Some(JetStreamConfigError::UnsafeCredentialsPath)
        } else {
            None
        },
    }
}

fn validate_authentication(a: &JetStreamAuthentication) -> (r: Result<(), JetStreamConfigError>)
    ensures
        match authentication_error(*a) {
            Some(e) => r == Err::<(), JetStreamConfigError>(e),
            None => r is Ok,
        },
{
    match a {
        JetStreamAuthentication::Anonymous => Ok(()),
        JetStreamAuthentication::CredentialsFile(path) => validate_credentials_path(path.as_str()),
        JetStreamAuthentication::UserPasswordFile { username, password_path } => {
            validate_username(username.as_str())?;
            validate_credentials_path(password_path.as_str())
        },
    }
}

impl JetStreamConfig {
    pub closed spec fn spec_server_url(&self) -> Seq<char> {
        self.server_url@
    }

    pub closed spec fn spec_ledger_capacity(&self) -> usize {
        self.ledger_capacity
    }

    pub closed spec fn spec_authentication(&self) -> JetStreamAuthentication {
        self.authentication
    }

    pub closed spec fn spec_connect_timeout_millis(&self) -> u64 {
        self.connect_timeout_millis
    }

    pub closed spec fn spec_acknowledgement_timeout_millis(&self) -> u64 {
        self.acknowledgement_timeout_millis
    }

    pub closed spec fn spec_max_ack_inflight(&self) -> usize {
        self.max_ack_inflight
    }

    pub fn try_new(
        server_url: &str,
        authentication: JetStreamAuthentication,
        connect_timeout_millis: u64,
        acknowledgement_timeout_millis: u64,
        max_ack_inflight: usize,
        ledger_capacity: usize,
    ) -> (r: Result<Self, JetStreamConfigError>)
        ensures
            match jetstream_error(
                server_url@,
                authentication,
                connect_timeout_millis,
                acknowledgement_timeout_millis,
                max_ack_inflight,
                ledger_capacity,
            ) {
                Some(e) => r == Err::<Self, JetStreamConfigError>(e),
                None => r matches Ok(c) && c.spec_server_url() == server_url@
                    && c.spec_ledger_capacity() == ledger_capacity && c.spec_authentication() == authentication
                    && c.spec_connect_timeout_millis() == connect_timeout_millis
                    && c.spec_acknowledgement_timeout_millis() == acknowledgement_timeout_millis
                    && c.spec_max_ack_inflight() == max_ack_inflight,
            },
    {
        validate_server_url(server_url)?;
        validate_authentication(&authentication)?;
        if connect_timeout_millis == 0 || connect_timeout_millis > MAX_TIMEOUT_MILLIS {
            return Err(JetStreamConfigError::InvalidConnectTimeout);
        }
        if acknowledgement_timeout_millis == 0 || acknowledgement_timeout_millis > MAX_TIMEOUT_MILLIS {
            return Err(JetStreamConfigError::InvalidAcknowledgementTimeout);
        }
        if !(1 <= max_ack_inflight && max_ack_inflight <= MAX_ACK_INFLIGHT) {
            return Err(JetStreamConfigError::InvalidMaxAckInflight);
        }
        if !(1 <= ledger_capacity && ledger_capacity <= MAX_LEDGER_CAPACITY) {
            return Err(JetStreamConfigError::InvalidLedgerCapacity);
        }
        Ok(
            JetStreamConfig {
                server_url: owned(server_url),
                authentication,
                connect_timeout_millis,
                acknowledgement_timeout_millis,
                max_ack_inflight,
                ledger_capacity,
            },
        )
    }

    pub fn server_url(&self) -> (r: &str)
        ensures
            r@ == self.spec_server_url(),
    {
        self.server_url.as_str()
    }

    pub fn ledger_capacity(&self) -> (r: usize)
        ensures
            r == self.spec_ledger_capacity(),
    {
        self.ledger_capacity
    }

    pub fn authentication(&self) -> (r: &JetStreamAuthentication)
        ensures
            *r == self.spec_authentication(),
    {
        &self.authentication
    }

    pub fn connect_timeout_millis(&self) -> (r: u64)
        ensures
            r == self.spec_connect_timeout_millis(),
    {
        self.connect_timeout_millis
    }

    pub fn acknowledgement_timeout_millis(&self) -> (r: u64)
        ensures
            r == self.spec_acknowledgement_timeout_millis(),
    {
        self.acknowledgement_timeout_millis
    }

    pub fn max_ack_inflight(&self) -> (r: usize)
        ensures
            r == self.spec_max_ack_inflight(),
    {
        self.max_ack_inflight
    }
}

/// A secret file the publisher may read: a regular file, not a link, at most 16 KiB, with
/// no permission for group or others.
pub open spec fn secret_file_ok(is_symlink: bool, is_file: bool, len: u64, mode: u32) -> bool {
    !is_symlink && is_file && len <= MAX_SECRET_FILE_BYTES && mode & 0o077u32 == 0
}

/// Whether a secret file's metadata meets the rules.
pub fn secret_file_acceptable(is_symlink: bool, is_file: bool, len: u64, mode: u32) -> (r: bool)
    ensures
        r == secret_file_ok(is_symlink, is_file, len, mode),
{
    !is_symlink && is_file && len <= MAX_SECRET_FILE_BYTES && mode & 0o077u32 == 0
}

/// The secret a file holds: its text less one trailing `\n`, then less one trailing `\r`;
/// refused where that is empty or holds a control character.
pub open spec fn secret_text(s: Seq<char>) -> Option<Seq<char>> {
    let a = if s.len() > 0 && s.last() == '\n' {
        s.drop_last()
    } else {
        s
    };
    let b = if a.len() > 0 && a.last() == '\r' {
        a.drop_last()
    } else {
        a
    };
    if b.len() == 0 || has_control(b) {
        None
    } else {
        Some(b)
    }
}

pub fn normalize_secret(text: &str) -> (r: Option<String>)
    ensures
        match secret_text(text@) {
            Some(s) => r matches Some(v) && v@ == s,
            None => r is None,
        },
{
    let v = chars_of(text);
    let ghost s = text@;
    let mut n = v.len();
    if n > 0 && v[n - 1] == '\n' {
        n = n - 1;
    }
    let ghost a = if s.len() > 0 && s.last() == '\n' {
        s.drop_last()
    } else {
        s
    };
    assert(a =~= s.take(n as int));
    if n > 0 && v[n - 1] == '\r' {
        n = n - 1;
    }
    let ghost b = if a.len() > 0 && a.last() == '\r' {
        a.drop_last()
    } else {
        a
    };
    assert(b =~= s.take(n as int));
    let mut out: Vec<char> = Vec::new();
    let mut i: usize = 0;
    while i < n
        invariant
            i <= n <= v@.len(),
            out@ == v@.take(i as int),
        decreases n - i,
    {
        out.push(v[i]);
        i = i + 1;
    }
    assert(out@ =~= b);
    if n == 0 || crate::text::seq_has_control(&out) {
        return None;
    }
    Some(crate::public_ws::string_from(&out))
}

} // verus!
