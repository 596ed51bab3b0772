//! Egress policy for the official `/info` endpoint and the `/exchange` guard.

use vstd::prelude::*;

use crate::config::{ConfigError, EgressConfig, EgressKind};
use crate::text::{
    chars_of, contains, ends_with, owned, same_text, seq_contains, seq_ends_with, seq_eq,
};

verus! {

/// Reason code of an error raised by the info protocol layer.
#[derive(Debug, Clone, Copy, PartialEq, Eq)]
pub struct ProtocolErrorCode {
    code: &'static str,
}

impl ProtocolErrorCode {
    pub closed spec fn spec_code(self) -> Seq<char> {
        self.code@
    }

    pub fn new(code: &'static str) -> (r: Self)
        ensures
            r.spec_code() == code@,
    {
        ProtocolErrorCode { code }
    }

    pub fn code(self) -> (r: &'static str)
        ensures
            r@ == self.spec_code(),
    {
        self.code
    }
}

#[derive(Debug, Clone, Copy, PartialEq, Eq)]
pub enum EgressError {
    Info(ProtocolErrorCode),
    CommittedLane,
    ExchangeForbidden,
    HttpStatus(u16),
    RateLimited,
    NoScriptedResponse,
    BodyTooLarge,
    CompressedBody,
    Timeout,
    TlsRequired,
}

impl EgressError {
    pub open spec fn reason(self) -> Seq<char> {
        match self {
            EgressError::Info(code) => code.spec_code(),
            EgressError::CommittedLane => "capture_info.committed_lane"@,
            EgressError::ExchangeForbidden => "capture_info.exchange_forbidden"@,
            EgressError::HttpStatus(_) => "capture_info.http_status"@,
            EgressError::RateLimited => "capture_info.rate_limited"@,
            EgressError::NoScriptedResponse => "capture_info.no_scripted_response"@,
            EgressError::BodyTooLarge => "capture_info.body_too_large"@,
            EgressError::CompressedBody => "capture_info.compressed_body"@,
            EgressError::Timeout => "capture_info.timeout"@,
            EgressError::TlsRequired => "capture_info.tls_required"@,
        }
    }

    /// Stable machine-readable code of the error.
    pub fn reason_code(self) -> (r: &'static str)
        ensures
            r@ == self.reason(),
    {
        match self {
            EgressError::Info(code) => code.code(),
            EgressError::CommittedLane => "capture_info.committed_lane",
            EgressError::ExchangeForbidden => "capture_info.exchange_forbidden",
            EgressError::HttpStatus(_) => "capture_info.http_status",
            EgressError::RateLimited => "capture_info.rate_limited",
            EgressError::NoScriptedResponse => "capture_info.no_scripted_response",
            EgressError::BodyTooLarge => "capture_info.body_too_large",
            EgressError::CompressedBody => "capture_info.compressed_body",
            EgressError::Timeout => "capture_info.timeout",
            EgressError::TlsRequired => "capture_info.tls_required",
        }
    }
}

/// An HTTP answer of the info endpoint: its status and body bytes.
#[derive(Debug, Clone, PartialEq, Eq)]
pub struct InfoHttpResponse {
    status: u16,
    body: Vec<u8>,
}

impl InfoHttpResponse {
    pub closed spec fn spec_status(&self) -> u16 {
        self.status
    }

    pub closed spec fn spec_body(&self) -> Seq<u8> {
        self.body@
    }

    pub fn new(status: u16, body: Vec<u8>) -> (r: Self)
        ensures
            r.spec_status() == status,
            r.spec_body() == body@,
    {
        InfoHttpResponse { status, body }
    }

    pub fn status(&self) -> (r: u16)
        ensures
            r == self.spec_status(),
    {
        self.status
    }

    pub fn body(&self) -> (r: &[u8])
        ensures
            r@ == self.spec_body(),
    {
        self.body.as_slice()
    }
}

/// The egress path a request leaves by.
#[derive(Debug, Clone, PartialEq, Eq)]
pub struct EgressPolicy {
    id: String,
    kind: EgressKind,
    base_url: String,
}

impl EgressPolicy {
    pub closed spec fn spec_id(&self) -> Seq<char> {
        self.id@
    }

    pub closed spec fn spec_kind(&self) -> EgressKind {
        self.kind
    }

    pub closed spec fn spec_base_url(&self) -> Seq<char> {
        self.base_url@
    }

    /// The policy of a configured egress path.
    pub fn from_config(config: &EgressConfig) -> (r: Result<Self, ConfigError>)
        ensures
            r matches Ok(p) && p.spec_id() == config.id@ && p.spec_kind() == config.kind
                && p.spec_base_url() == config.base_url@,
    {
        Ok(EgressPolicy {
            id: owned(config.id()),
            kind: config.kind(),
            base_url: owned(config.base_url()),
        })
    }

    pub fn id(&self) -> (r: &str)
        ensures
            r@ == self.spec_id(),
    {
        self.id.as_str()
    }

    pub fn kind(&self) -> (r: EgressKind)
        ensures
            r == self.spec_kind(),
    {
        self.kind
    }

    pub fn base_url(&self) -> (r: &str)
        ensures
            r@ == self.spec_base_url(),
    {
        self.base_url.as_str()
    }
}

/// The part of a URL before its first `?` or `#`.
pub open spec fn url_path_part(url: Seq<char>) -> Seq<char>
    decreases url.len(),
{
    if url.len() == 0 {
        url
    } else if url[0] == '?' || url[0] == '#' {
        Seq::empty()
    } else {
        seq![url[0]] + url_path_part(url.drop_first())
    }
}

/// A path that names the `/exchange` endpoint or something under it.
pub open spec fn exchange_path(url: Seq<char>) -> bool {
    let p = url_path_part(url);
    p == "/exchange"@ || p == "exchange"@ || ends_with(p, "/exchange"@) || contains(
        p,
        "/exchange/"@,
    )
}

/// The characters of `url` before its first `?` or `#`.
pub fn url_path_only(url: &Vec<char>) -> (r: Vec<char>)
    ensures
        r@ == url_path_part(url@),
{
    let mut out: Vec<char> = Vec::new();
    let mut i: usize = 0;
    assert(url@.skip(0) =~= url@);
    assert(out@ + url_path_part(url@) =~= url_path_part(url@));
    while i < url.len() && url[i] != '?' && url[i] != '#'
        invariant
            i <= url@.len(),
            out@ + url_path_part(url@.skip(i as int)) == url_path_part(url@),
        decreases url@.len() - i,
    {
        assert(url@.skip(i as int).drop_first() =~= url@.skip(i + 1));
        assert(url@.skip(i as int)[0] == url@[i as int]);
        out.push(url[i]);
        assert(out@ + url_path_part(url@.skip(i + 1)) =~= url_path_part(url@));
        i = i + 1;
    }
    if i < url.len() {
        assert(url@.skip(i as int)[0] == url@[i as int]);
    }
    assert(out@ + url_path_part(url@.skip(i as int)) =~= out@);
    out
}

/// Whether a URL or identifier names the `/exchange` endpoint.
pub fn is_exchange_http_path(url: &str) -> (r: bool)
    ensures
        r == exchange_path(url@),
{
    let v = chars_of(url);
    let p = url_path_only(&v);
    seq_eq(&p, &chars_of("/exchange")) || seq_eq(&p, &chars_of("exchange")) || seq_ends_with(
        &p,
        &chars_of("/exchange"),
    ) || seq_contains(&p, &chars_of("/exchange/"))
}

/// The order-entry actions of the exchange API.
pub open spec fn exchange_action(kind: Seq<char>) -> bool {
    kind == "order"@ || kind == "cancel"@ || kind == "cancelByCloid"@ || kind == "modify"@ || kind
        == "batchModify"@ || kind == "updateLeverage"@
}

/// The string under the top-level `"type"` key of a JSON body, where the body is JSON
/// and that member is a string.
pub uninterp spec fn json_type_member(body: Seq<u8>) -> Option<Seq<char>>;

/// Calls `serde_json::from_slice::<serde_json::Value>` and reads the top-level `"type"`
/// member with `Value::get` and `Value::as_str`: `None` where the body is not JSON, or the
/// member is missing or not a string.
#[verifier::external_body]
fn json_type_field(body: &[u8]) -> (r: Option<String>)
    ensures
        match r {
            Some(t) => json_type_member(body@) == Some(t@),
            None => json_type_member(body@) is None,
        },
{
    let value = serde_json::from_slice::<serde_json::Value>(body).ok()?;
    value.get("type").and_then(serde_json::Value::as_str).map(str::to_owned)
}

/// An encoded body asks for an exchange action.
pub open spec fn body_is_exchange(body: Seq<u8>) -> bool {
    match json_type_member(body) {
        Some(kind) => exchange_action(kind) || exchange_path(kind),
        None => false,
    }
}

/// Whether a decoded `"type"` member names an exchange action or path.
pub fn type_member_is_exchange(kind: &str) -> (r: bool)
    ensures
        r == (exchange_action(kind@) || exchange_path(kind@)),
{
    same_text(kind, "order") || same_text(kind, "cancel") || same_text(kind, "cancelByCloid")
        || same_text(kind, "modify") || same_text(kind, "batchModify") || same_text(
        kind,
        "updateLeverage",
    ) || is_exchange_http_path(kind)
}

fn encoded_body_is_exchange(body: &[u8]) -> (r: bool)
    ensures
        r == body_is_exchange(body@),
{
    match json_type_field(body) {
        Some(kind) => type_member_is_exchange(kind.as_str()),
        None => false,
    }
}

/// A request the capture service refuses to send: the exchange identifier, an exchange
/// path as identifier or URL, or a body asking for an exchange action.
pub open spec fn exchange_request(identifier: Seq<char>, body: Seq<u8>, url: Seq<char>) -> bool {
    identifier == "exchange"@ || exchange_path(identifier) || exchange_path(url)
        || body_is_exchange(body)
}

pub fn forbids_exchange_request(identifier: &str, body: &[u8], url: &str) -> (r: bool)
    ensures
        r == exchange_request(identifier@, body@, url@),
{
    same_text(identifier, "exchange") || is_exchange_http_path(identifier) || is_exchange_http_path(
        url,
    ) || encoded_body_is_exchange(body)
}

/// A body whose top-level `"type"` member is one of the exchange's order-entry actions
/// (`order`, `cancel`, `cancelByCloid`, `modify`, `batchModify`, `updateLeverage`) is
/// refused, whatever the identifier and URL it is sent with.
pub proof fn law_order_entry_bodies_are_refused(identifier: Seq<char>, body: Seq<u8>, url: Seq<char>, kind: Seq<char>)
    requires
        json_type_member(body) == Some(kind),
        kind == "order"@ || kind == "cancel"@ || kind == "cancelByCloid"@ || kind == "modify"@ || kind
            == "batchModify"@ || kind == "updateLeverage"@,
    ensures
        exchange_request(identifier, body, url),
{
}


} // verus!
