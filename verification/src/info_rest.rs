//! Official `/info` REST adapter: framing of the HTTP answer, job checkpoints and the
//! outcomes of a capture. Archive exact bytes before parsed publication.

use vstd::prelude::*;

use crate::digest::{blake3_digest, blake3_hash, hex_encode, hex_lower};
use crate::egress::{EgressError, InfoHttpResponse, ProtocolErrorCode};
use crate::info_scheduler::SchedulerError;
use crate::text::{
    owned, push_str, same_text, str_has_char, str_contains, str_starts_with, starts_with,
    has_char,
    chars_of, contains, eq_ignore_case, lower_chars, parse_unsigned, same_ignoring_case,
    seq_contains, split_words, trim_chars, trim_text, unsigned_numeral, words,
};

verus! {

pub const MAX_HTTP_HEADER_BYTES: usize = 16_384;

/// `i` is where the first blank line (`\r\n\r\n`) of `raw` starts.
pub open spec fn blank_line_at(raw: Seq<u8>, i: int) -> bool {
    0 <= i && i + 4 <= raw.len() && raw[i] == 13u8 && raw[i + 1] == 10u8 && raw[i + 2] == 13u8
        && raw[i + 3] == 10u8
}

/// Where the header of `raw` ends: the first blank line.
pub open spec fn header_end(raw: Seq<u8>) -> Option<int> {
    if exists|i: int| #[trigger] blank_line_at(raw, i) {
        Some(choose|i: int| blank_line_at(raw, i) && forall|j: int| 0 <= j < i ==> !#[trigger] blank_line_at(raw, j))
    } else {
        None
    }
}

fn find_header_end(raw: &[u8]) -> (r: Option<usize>)
    ensures
        match r {
            Some(i) => blank_line_at(raw@, i as int) && forall|j: int|
                0 <= j < i ==> !#[trigger] blank_line_at(raw@, j),
            None => forall|j: int| !#[trigger] blank_line_at(raw@, j),
        },
{
    let n = raw.len();
    let mut i: usize = 0;
    while i < n && n - i >= 4
        invariant
            i <= n,
            n == raw@.len(),
            forall|j: int| 0 <= j < i ==> !#[trigger] blank_line_at(raw@, j),
        decreases n - i,
    {
        if raw[i] == 13 && raw[i + 1] == 10 && raw[i + 2] == 13 && raw[i + 3] == 10 {
            return Some(i);
        }
        i = i + 1;
    }
    None
}

/// The text of `bytes`, where they are valid UTF-8.
#[verifier::external_body]
fn utf8_text(bytes: &[u8]) -> (r: Option<&str>)
    ensures
        match r {
            Some(s) => vstd::utf8::valid_utf8(bytes@) && s@ == vstd::utf8::decode_utf8(bytes@),
            None => !vstd::utf8::valid_utf8(bytes@),
        },
{
    std::str::from_utf8(bytes).ok()
}

/// Index of the first `\r\n` at or after `i`, or the length of `s`.
pub open spec fn crlf_from(s: Seq<char>, i: nat) -> nat
    decreases s.len() - i,
{
    if i + 1 < s.len() && !(s[i as int] == '\r' && s[i + 1int] == '\n') {
        crlf_from(s, i + 1)
    } else if i + 1 < s.len() {
        i
    } else {
        s.len()
    }
}

pub proof fn lemma_crlf_from(s: Seq<char>, i: nat)
    requires
        i <= s.len(),
    ensures
        i <= crlf_from(s, i) <= s.len(),
        crlf_from(s, i) < s.len() ==> crlf_from(s, i) + 1 < s.len() && s[crlf_from(s, i) as int]
            == '\r' && s[crlf_from(s, i) + 1int] == '\n',
    decreases s.len() - i,
{
    if i + 1 < s.len() && !(s[i as int] == '\r' && s[i + 1int] == '\n') {
        lemma_crlf_from(s, i + 1);
    }
}

/// The pieces of `s` between `\r\n` separators from position `i` on, as `str::split`
/// yields them.
pub open spec fn crlf_pieces(s: Seq<char>, i: nat) -> Seq<Seq<char>>
    decreases s.len() + 2 - i,
{
    if i > s.len() {
        seq![]
    } else {
        let e = crlf_from(s, i);
        proof {
            lemma_crlf_from(s, i);
        }
        if e >= s.len() {
            seq![s.subrange(i as int, s.len() as int)]
        } else {
            seq![s.subrange(i as int, e as int)] + crlf_pieces(s, e + 2)
        }
    }
}

fn split_crlf(v: &Vec<char>) -> (r: Vec<Vec<char>>)
    ensures
        r.deep_view() == crlf_pieces(v@, 0),
        r@.len() >= 1,
{
    let n = v.len();
    let mut out: Vec<Vec<char>> = Vec::new();
    let mut i: usize = 0;
    loop
        invariant
            i <= n,
            n == v@.len(),
            out.deep_view() + crlf_pieces(v@, i as nat) == crlf_pieces(v@, 0),
        decreases n + 2 - i,
    {
        let mut e = i;
        while e < n && n - e > 1 && !(v[e] == '\r' && v[e + 1] == '\n')
            invariant
                i <= e <= n,
                n == v@.len(),
                crlf_from(v@, e as nat) == crlf_from(v@, i as nat),
            decreases n - e,
        {
            e = e + 1;
        }
        let end = if e < n && n - e > 1 {
            e
        } else {
            n
        };
        proof {
            lemma_crlf_from(v@, i as nat);
        }
        assert(crlf_from(v@, i as nat) == end);
        let mut piece: Vec<char> = Vec::new();
        let mut k = i;
        while k < end
            invariant
                i <= k <= end <= n,
                n == v@.len(),
                piece@ == v@.subrange(i as int, k as int),
            decreases end - k,
        {
            piece.push(v[k]);
            k = k + 1;
        }
        let ghost prev = out.deep_view();
        assert(piece.deep_view() =~= piece@);
        out.push(piece);
        assert(out.deep_view() =~= prev.push(v@.subrange(i as int, end as int)));
        if end >= n {
            assert(crlf_pieces(v@, i as nat) == seq![v@.subrange(i as int, n as int)]);
            assert(out.deep_view() =~= prev + crlf_pieces(v@, i as nat));
            assert(out.deep_view() + Seq::<Seq<char>>::empty() =~= out.deep_view());
            assert(crlf_pieces(v@, 0).len() >= 1);
            return out;
        }
        assert(crlf_pieces(v@, i as nat) == seq![v@.subrange(i as int, end as int)] + crlf_pieces(
            v@,
            (end + 2) as nat,
        ));
        assert(out.deep_view() + crlf_pieces(v@, (end + 2) as nat) =~= prev + crlf_pieces(
            v@,
            i as nat,
        ));
        i = end + 2;
    }
}

/// Index of the first `:` of a header line, or its length.
pub open spec fn colon_at(l: Seq<char>, i: nat) -> nat
    decreases l.len() - i,
{
    if i < l.len() && l[i as int] != ':' {
        colon_at(l, i + 1)
    } else {
        i
    }
}

pub proof fn lemma_colon_at(l: Seq<char>, i: nat)
    requires
        i <= l.len(),
    ensures
        i <= colon_at(l, i) <= l.len(),
        colon_at(l, i) < l.len() ==> l[colon_at(l, i) as int] == ':',
    decreases l.len() - i,
{
    if i < l.len() && l[i as int] != ':' {
        lemma_colon_at(l, i + 1);
    }
}

/// What one header line does: refuse a compressed or chunked body, give a content length,
/// refuse an unreadable content length, or nothing.
pub open spec fn header_line_effect(l: Seq<char>) -> Result<Option<nat>, EgressError> {
    let p = colon_at(l, 0);
    if p >= l.len() {
        Ok(None)
    } else {
        let name = l.subrange(0, p as int);
        let value = trim_text(l.subrange(p + 1int, l.len() as int));
        if eq_ignore_case(name, "content-encoding"@) && value.len() > 0 && !eq_ignore_case(
            value,
            "identity"@,
        ) {
            Err(EgressError::CompressedBody)
        } else if eq_ignore_case(name, "transfer-encoding"@) && contains(
            value.map_values(|c: char| crate::text::ascii_lower(c)),
            "chunked"@,
        ) {
            Err(EgressError::CompressedBody)
        } else if eq_ignore_case(name, "content-length"@) {
            match unsigned_numeral(value) {
                Some(n) => if n <= usize::MAX {
                    Ok(Some(n))
                } else {
                    Err(EgressError::BodyTooLarge)
                },
                None => Err(EgressError::BodyTooLarge),
            }
        } else {
            Ok(None)
        }
    }
}

/// The header lines read in order: the first refusal, or the last content length given.
pub open spec fn scan_headers(lines: Seq<Seq<char>>) -> Result<Option<nat>, EgressError>
    decreases lines.len(),
{
    if lines.len() == 0 {
        Ok(None)
    } else {
        match header_line_effect(lines[0]) {
            Err(e) => Err(e),
            Ok(here) => match scan_headers(lines.drop_first()) {
                Err(e) => Err(e),
                Ok(later) => Ok(
                    if later is Some {
                        later
                    } else {
                        here
                    },
                ),
            },
        }
    }
}

fn line_effect(l: &Vec<char>) -> (r: Result<Option<usize>, EgressError>)
    ensures
        match header_line_effect(l@) {
            Ok(Some(n)) => r == Ok::<Option<usize>, EgressError>(Some(n as usize)),
            Ok(None) => r == Ok::<Option<usize>, EgressError>(None),
            Err(e) => r == Err::<Option<usize>, EgressError>(e),
        },
{
    let n = l.len();
    let mut p: usize = 0;
    while p < n && l[p] != ':'
        invariant
            p <= n,
            n == l@.len(),
            colon_at(l@, p as nat) == colon_at(l@, 0),
        decreases n - p,
    {
        p = p + 1;
    }
    if p >= n {
        return Ok(None);
    }
    let mut name: Vec<char> = Vec::new();
    let mut k: usize = 0;
    while k < p
        invariant
            k <= p < n,
            n == l@.len(),
            name@ == l@.subrange(0, k as int),
        decreases p - k,
    {
        name.push(l[k]);
        k = k + 1;
    }
    let mut raw_value: Vec<char> = Vec::new();
    let mut m: usize = p + 1;
    while m < n
        invariant
            p < m <= n,
            n == l@.len(),
            raw_value@ == l@.subrange(p + 1int, m as int),
        decreases n - m,
    {
        raw_value.push(l[m]);
        m = m + 1;
    }
    let value = trim_chars(&raw_value);
    if same_ignoring_case(&name, "content-encoding") && value.len() > 0 && !same_ignoring_case(
        &value,
        "identity",
    ) {
        return Err(EgressError::CompressedBody);
    }
    if same_ignoring_case(&name, "transfer-encoding") {
        let lower = lower_chars(&value);
        let chunked = chars_of("chunked");
        if seq_contains(&lower, &chunked) {
            return Err(EgressError::CompressedBody);
        }
    }
    if same_ignoring_case(&name, "content-length") {
        return match parse_unsigned(&value) {
            Some(v) => {
                if v as u128 > usize::MAX as u128 {
                    Err(EgressError::BodyTooLarge)
                } else {
                    Ok(Some(v as usize))
                }
            },
            None => Err(EgressError::BodyTooLarge),
        };
    }
    Ok(None)
}

/// The status code of a status line: its second word, a `u16` numeral.
pub open spec fn status_of(line: Seq<char>) -> Option<u16> {
    let w = words(line);
    if w.len() >= 2 {
        match unsigned_numeral(w[1]) {
            Some(n) => if n <= u16::MAX {
                Some(n as u16)
            } else {
                None
            },
            None => None,
        }
    } else {
        None
    }
}

/// What the framing of a raw HTTP answer yields: its status and body, or why it was
/// refused.
pub open spec fn http_response_model(raw: Seq<u8>, max_body: usize) -> Result<
    (u16, Seq<u8>),
    EgressError,
> {
    match header_end(raw) {
        None => Err(EgressError::Timeout),
        Some(h) => if h > MAX_HTTP_HEADER_BYTES {
            Err(EgressError::BodyTooLarge)
        } else if !vstd::utf8::valid_utf8(raw.take(h)) {
            Err(EgressError::TlsRequired)
        } else {
            let lines = crlf_pieces(vstd::utf8::decode_utf8(raw.take(h)), 0);
            match status_of(lines[0]) {
                None => Err(EgressError::TlsRequired),
                Some(status) => match scan_headers(lines.drop_first()) {
                    Err(e) => Err(e),
                    Ok(length) => {
                        let body = raw.skip(h + 4);
                        if body.len() > max_body {
                            Err(EgressError::BodyTooLarge)
                        } else if length matches Some(n) && n > max_body {
                            Err(EgressError::BodyTooLarge)
                        } else {
                            Ok((status, body))
                        }
                    },
                },
            }
        },
    }
}

/// The outcome of the header lines after the first `i`, given the content length those
/// lines gave.
pub open spec fn scan_from(r: Result<Option<nat>, EgressError>, acc: Option<usize>) -> Result<
    Option<nat>,
    EgressError,
> {
    match r {
        Err(e) => Err(e),
        Ok(later) => Ok(
            if later is Some {
                later
            } else {
                match acc {
                    Some(n) => Some(n as nat),
                    None => None,
                }
            },
        ),
    }
}

fn scan_header_lines(lines: &Vec<Vec<char>>) -> (r: Result<Option<usize>, EgressError>)
    requires
        lines@.len() >= 1,
    ensures
        match r {
            Ok(Some(n)) => scan_headers(lines.deep_view().drop_first()) == Ok::<
                Option<nat>,
                EgressError,
            >(Some(n as nat)),
            Ok(None) => scan_headers(lines.deep_view().drop_first()) == Ok::<
                Option<nat>,
                EgressError,
            >(None),
            Err(e) => scan_headers(lines.deep_view().drop_first()) == Err::<
                Option<nat>,
                EgressError,
            >(e),
        },
{
    let ghost ls = lines.deep_view();
    assert(ls.skip(1) =~= ls.drop_first());
    let mut content_length: Option<usize> = None;
    let mut i: usize = 1;
    while i < lines.len()
        invariant
            1 <= i <= lines@.len(),
            ls == lines.deep_view(),
            scan_headers(ls.drop_first()) == scan_from(scan_headers(ls.skip(i as int)), content_length),
        decreases lines@.len() - i,
    {
        let ghost rest = ls.skip(i as int);
        assert(rest[0] == lines@[i as int]@);
        assert(rest.drop_first() =~= ls.skip(i + 1));
        let ghost before = content_length;
        match line_effect(&lines[i]) {
            Err(e) => {
                return Err(e);
            },
            Ok(Some(n)) => {
                content_length = Some(n);
            },
            Ok(None) => {},
        }
        i = i + 1;
    }
    assert(ls.skip(lines@.len() as int).len() == 0);
    Ok(content_length)
}

/// Frames a raw HTTP/1.1 answer: the header must end within 16 KiB and be UTF-8 with a
/// status code; a compressed or chunked body, or a body (or announced length) above
/// `max_body`, is refused.
pub fn parse_http_response(raw: &[u8], max_body: usize) -> (r: Result<
    InfoHttpResponse,
    EgressError,
>)
    ensures
        match http_response_model(raw@, max_body) {
            Ok((status, body)) => r matches Ok(resp) && resp.spec_status() == status
                && resp.spec_body() == body,
            Err(e) => r == Err::<InfoHttpResponse, EgressError>(e),
        },
{
    let h = match find_header_end(raw) {
        None => {
            assert(!exists|i: int| #[trigger] blank_line_at(raw@, i));
            return Err(EgressError::Timeout);
        },
        Some(h) => h,
    };
    proof {
        assert(blank_line_at(raw@, h as int));
        let c = choose|i: int|
            blank_line_at(raw@, i) && forall|j: int| 0 <= j < i ==> !#[trigger] blank_line_at(raw@, j);
        if c < h {
        } else if c > h {
            assert(!blank_line_at(raw@, h as int));
        }
        assert(header_end(raw@) == Some(h as int));
    }
    if h > MAX_HTTP_HEADER_BYTES {
        return Err(EgressError::BodyTooLarge);
    }
    let head_bytes = &raw[0..h];
    assert(head_bytes@ =~= raw@.take(h as int));
    let header = match utf8_text(head_bytes) {
        None => {
            return Err(EgressError::TlsRequired);
        },
        Some(text) => text,
    };
    let hv = chars_of(header);
    let lines = split_crlf(&hv);
    let ghost ls = lines.deep_view();
    assert(ls[0] == lines@[0]@);
    let status_words = split_words(&lines[0]);
    if status_words.len() < 2 {
        return Err(EgressError::TlsRequired);
    }
    assert(status_words.deep_view()[1] == status_words@[1]@);
    let status = match parse_unsigned(&status_words[1]) {
        Some(v) => {
            if v > 65535 {
                return Err(EgressError::TlsRequired);
            }
            v as u16
        },
        None => {
            return Err(EgressError::TlsRequired);
        },
    };
    assert(ls == crlf_pieces(vstd::utf8::decode_utf8(raw@.take(h as int)), 0));
    assert(status_of(ls[0]) == Some(status));
    let content_length = match scan_header_lines(&lines) {
        Err(e) => {
            return Err(e);
        },
        Ok(c) => c,
    };
    let body_start = h + 4;
    let body_slice = &raw[body_start..raw.len()];
    assert(body_slice@ =~= raw@.skip(h + 4));
    if body_slice.len() > max_body {
        return Err(EgressError::BodyTooLarge);
    }
    match content_length {
        Some(n) => {
            if n > max_body {
                return Err(EgressError::BodyTooLarge);
            }
        },
        None => {},
    }
    let mut body: Vec<u8> = Vec::new();
    let mut k: usize = 0;
    while k < body_slice.len()
        invariant
            k <= body_slice@.len(),
            body@ == body_slice@.take(k as int),
        decreases body_slice@.len() - k,
    {
        body.push(body_slice[k]);
        assert(body@ =~= body_slice@.take(k + 1));
        k = k + 1;
    }
    assert(body_slice@.take(body_slice@.len() as int) =~= body_slice@);
    assert(header_end(raw@) == Some(h as int));
    assert(vstd::utf8::valid_utf8(raw@.take(h as int)));
    assert(scan_headers(ls.drop_first()) == Ok::<Option<nat>, EgressError>(
        match content_length {
            Some(n) => Some(n as nat),
            None => None::<nat>,
        },
    ));
    assert(body@ == raw@.skip(h + 4));
    assert(http_response_model(raw@, max_body) == Ok::<(u16, Seq<u8>), EgressError>((status, body@)));
    Ok(InfoHttpResponse::new(status, body))
}

/// The host and path of an `https://` URL; a URL with no path posts to `/info`.
pub open spec fn https_host_path(url: Seq<char>) -> Result<(Seq<char>, Seq<char>), EgressError> {
    if !starts_with(url, "https://"@) {
        Err(EgressError::TlsRequired)
    } else {
        let rest = url.skip(8);
        if has_char(rest, '/') {
            let p = choose|p: int|
                0 <= p < rest.len() && rest[p] == '/' && forall|j: int|
                    0 <= j < p ==> #[trigger] rest[j] != '/';
            Ok((rest.take(p), rest.skip(p)))
        } else {
            Ok((rest, "/info"@))
        }
    }
}

/// Splits an `https://` URL into its host and its path.
pub fn split_https_host_path(url: &str) -> (r: Result<(&str, &str), EgressError>)
    ensures
        match https_host_path(url@) {
            Ok((host, path)) => r matches Ok((h, p)) && h@ == host && p@ == path,
            Err(e) => r == Err::<(&str, &str), EgressError>(e),
        },
{
    proof {
        reveal_strlit("https://");
        reveal_strlit("/info");
    }
    if !str_starts_with(url, "https://") {
        return Err(EgressError::TlsRequired);
    }
    let c = chars_of(url);
    let n = c.len();
    assert(n >= 8);
    let ghost rest = url@.skip(8);
    let mut p: usize = 8;
    while p < n && c[p] != '/'
        invariant
            8 <= p <= n,
            n == url@.len(),
            c@ == url@,
            rest == url@.skip(8),
            forall|j: int| 0 <= j < p - 8 ==> #[trigger] rest[j] != '/',
        decreases n - p,
    {
        p = p + 1;
    }
    let host = url.substring_char(8, p);
    assert(host@ =~= rest.take(p - 8));
    if p == n {
        assert(!has_char(rest, '/'));
        assert(host@ =~= rest);
        return Ok((host, "/info"));
    }
    let path = url.substring_char(p, n);
    assert(path@ =~= rest.skip(p - 8));
    proof {
        assert(rest[p - 8] == '/');
        let q = choose|q: int|
            0 <= q < rest.len() && rest[q] == '/' && forall|j: int|
                0 <= j < q ==> #[trigger] rest[j] != '/';
        if q < p - 8 {
        } else if q > p - 8 {
            assert(rest[p - 8] != '/');
        }
        assert(q == p - 8);
    }
    Ok((host, path))
}

/// The URL info requests go to by default.
pub fn default_info_request_url() -> (r: &'static str)
    ensures
        r@ == crate::config::OFFICIAL_INFO_REQUEST_URL@,
{
    crate::config::OFFICIAL_INFO_REQUEST_URL
}

pub const CHECKPOINT_SCHEMA: &'static str = "hl.info-job-checkpoint.v2";

/// Where a test may inject an info capture fault.
#[derive(Debug, Clone, Copy, PartialEq, Eq, Structural)]
pub enum InfoFaultPoint {
    AfterArchive,
    AfterPublish,
}

/// Injects faults at named points of an info capture.
pub trait InfoFaultInjector {
    fn check(&self, point: InfoFaultPoint) -> Result<(), InfoCaptureError>;
}

/// Injects nothing.
#[derive(Debug, Clone, Copy, Default)]
pub struct NoInfoFaults;

impl InfoFaultInjector for NoInfoFaults {
    fn check(&self, point: InfoFaultPoint) -> (r: Result<(), InfoCaptureError>)
        ensures
            r is Ok,
    {
        Ok(())
    }
}

/// A source of wall-clock milliseconds.
pub trait CaptureClock {
    fn now_millis(&self) -> u64;
}

/// A clock a test sets by hand.
#[derive(Debug, Default)]
pub struct FakeCaptureClock {
    now: u64,
}

impl FakeCaptureClock {
    pub closed spec fn spec_now(&self) -> u64 {
        self.now
    }

    pub fn at(now_millis: u64) -> (r: Self)
        ensures
            r.spec_now() == now_millis,
    {
        FakeCaptureClock { now: now_millis }
    }

    pub fn set(&mut self, now_millis: u64)
        ensures
            final(self).spec_now() == now_millis,
    {
        self.now = now_millis;
    }

    pub fn now(&self) -> (r: u64)
        ensures
            r == self.spec_now(),
    {
        self.now
    }
}

impl CaptureClock for FakeCaptureClock {
    fn now_millis(&self) -> (r: u64)
        ensures
            r == self.spec_now(),
    {
        self.now
    }
}

/// Reads the system clock: milliseconds since the Unix epoch, saturated to `u64`, zero for
/// a clock before the epoch. Nothing is promised of the value.
#[verifier::external_body]
fn system_now_millis() -> u64 {
    std::time::SystemTime::now()
        .duration_since(std::time::UNIX_EPOCH)
        .map(|elapsed| u64::try_from(elapsed.as_millis()).unwrap_or(u64::MAX))
        .unwrap_or(0)
}

/// The system clock.
#[derive(Debug, Clone, Copy, Default)]
pub struct SystemCaptureClock;

impl CaptureClock for SystemCaptureClock {
    fn now_millis(&self) -> u64 {
        system_now_millis()
    }
}

/// Why an info capture stopped.
#[derive(Debug, Clone, Copy, PartialEq, Eq)]
pub enum InfoCaptureError {
    Info(ProtocolErrorCode),
    Egress(EgressError),
    Scheduler(SchedulerError),
    CommittedLane,
    MissingArchive,
    Archive,
    Checkpoint,
    EmptyBody,
    InjectedFault(InfoFaultPoint),
}

impl InfoCaptureError {
    pub open spec fn reason(self) -> Seq<char> {
        match self {
            InfoCaptureError::Info(code) => code.spec_code(),
            InfoCaptureError::Egress(e) => e.reason(),
            InfoCaptureError::Scheduler(e) => e.reason(),
            InfoCaptureError::CommittedLane => "capture_info.committed_lane"@,
            InfoCaptureError::MissingArchive => "capture_info.missing_archive"@,
            InfoCaptureError::Archive => "capture_info.archive"@,
            InfoCaptureError::Checkpoint => "capture_info.checkpoint"@,
            InfoCaptureError::EmptyBody => "capture_info.empty_body"@,
            InfoCaptureError::InjectedFault(_) => "capture_info.injected_fault"@,
        }
    }

    pub fn reason_code(&self) -> (r: &'static str)
        ensures
            r@ == self.reason(),
    {
        match self {
            InfoCaptureError::Info(code) => code.code(),
            InfoCaptureError::Egress(e) => e.reason_code(),
            InfoCaptureError::Scheduler(e) => e.reason_code(),
            InfoCaptureError::CommittedLane => "capture_info.committed_lane",
            InfoCaptureError::MissingArchive => "capture_info.missing_archive",
            InfoCaptureError::Archive => "capture_info.archive",
            InfoCaptureError::Checkpoint => "capture_info.checkpoint",
            InfoCaptureError::EmptyBody => "capture_info.empty_body",
            InfoCaptureError::InjectedFault(_) => "capture_info.injected_fault",
        }
    }
}

/// How a captured response ended.
#[derive(Debug, Clone, Copy, PartialEq, Eq, Structural)]
pub enum InfoCaptureOutcome {
    Published,
    Duplicate,
    Quarantined,
}

/// Publishes archive references in memory, in order.
#[derive(Debug, Default)]
pub struct MemoryInfoPublisher {
    publications: Vec<String>,
}

impl View for MemoryInfoPublisher {
    type V = Seq<Seq<char>>;

    closed spec fn view(&self) -> Seq<Seq<char>> {
        self.publications@.map_values(|s: String| s@)
    }
}

impl MemoryInfoPublisher {
    pub fn new() -> (r: Self)
        ensures
            r@.len() == 0,
    {
        let r = MemoryInfoPublisher { publications: Vec::new() };
        assert(r@ =~= Seq::<Seq<char>>::empty());
        r
    }

    pub fn publish(&mut self, archive_ref: &str) -> (r: Result<(), InfoCaptureError>)
        ensures
            r is Ok,
            final(self)@ == old(self)@.push(archive_ref@),
    {
        let ghost before = self.publications@;
        self.publications.push(owned(archive_ref));
        proof {
            crate::text::lemma_map_values_push(before, self.publications@.last(), |s: String| s@);
        }
        Ok(())
    }

    pub fn publications(&self) -> (r: &[String])
        ensures
            r@.map_values(|s: String| s@) == self@,
    {
        self.publications.as_slice()
    }
}

/// The archive reference of a body: `info-` and the hex BLAKE3 digest of its bytes.
pub open spec fn archive_ref_of(body: Seq<u8>) -> Seq<char> {
    "info-"@ + hex_lower(blake3_digest(body))
}

pub fn archive_ref_for(body: &[u8]) -> (r: String)
    ensures
        r@ == archive_ref_of(body@),
{
    let digest = blake3_hash(body);
    let mut out = owned("info-");
    push_str(&mut out, hex_encode(digest.as_slice()).as_str());
    out
}

/// Plain values of an [`InfoJobCheckpoint`].
pub struct CheckpointModel {
    pub schema_version: Seq<char>,
    pub job_id: Seq<char>,
    pub capability_id: Seq<char>,
    pub next_start_millis: i64,
    pub overlap_millis: i64,
    pub last_archive_ref: Option<Seq<char>>,
    pub request_hash: Option<Seq<char>>,
    pub pending_publish_refs: Seq<Seq<char>>,
    pub quarantine_reason: Option<Seq<char>>,
}

pub open spec fn opt_view(o: Option<String>) -> Option<Seq<char>> {
    match o {
        Some(s) => Some(s@),
        None => None,
    }
}

/// Where an info job stands: its time cursor and the archived bodies still to publish.
#[derive(Debug, Clone, PartialEq, Eq)]
pub struct InfoJobCheckpoint {
    pub schema_version: String,
    pub job_id: String,
    pub capability_id: String,
    pub next_start_millis: i64,
    pub overlap_millis: i64,
    pub last_archive_ref: Option<String>,
    pub request_hash: Option<String>,
    pub pending_publish_refs: Vec<String>,
    pub quarantine_reason: Option<String>,
}

impl View for InfoJobCheckpoint {
    type V = CheckpointModel;

    open spec fn view(&self) -> CheckpointModel {
        CheckpointModel {
            schema_version: self.schema_version@,
            job_id: self.job_id@,
            capability_id: self.capability_id@,
            next_start_millis: self.next_start_millis,
            overlap_millis: self.overlap_millis,
            last_archive_ref: opt_view(self.last_archive_ref),
            request_hash: opt_view(self.request_hash),
            pending_publish_refs: self.pending_publish_refs@.map_values(|s: String| s@),
            quarantine_reason: opt_view(self.quarantine_reason),
        }
    }
}

/// `s` with `x` appended unless it already holds it.
pub open spec fn queued(s: Seq<Seq<char>>, x: Seq<char>) -> Seq<Seq<char>> {
    if s.contains(x) {
        s
    } else {
        s.push(x)
    }
}

/// `s` without any `x`, in order.
pub open spec fn without(s: Seq<Seq<char>>, x: Seq<char>) -> Seq<Seq<char>>
    decreases s.len(),
{
    if s.len() == 0 {
        s
    } else {
        let sub = without(s.drop_last(), x);
        if s.last() != x {
            sub.push(s.last())
        } else {
            sub
        }
    }
}

fn copy_opt(o: &Option<String>) -> (r: Option<String>)
    ensures
        opt_view(r) == opt_view(*o),
{
    match o {
        Some(s) => Some(owned(s.as_str())),
        None => None,
    }
}

impl InfoJobCheckpoint {
    pub fn new(job_id: &str, capability_id: &str, next_start_millis: i64, overlap_millis: i64) -> (r:
        Self)
        ensures
            r@ == (CheckpointModel {
                schema_version: CHECKPOINT_SCHEMA@,
                job_id: job_id@,
                capability_id: capability_id@,
                next_start_millis,
                overlap_millis,
                last_archive_ref: None,
                request_hash: None,
                pending_publish_refs: Seq::empty(),
                quarantine_reason: None,
            }),
    {
        let r = InfoJobCheckpoint {
            schema_version: owned(CHECKPOINT_SCHEMA),
            job_id: owned(job_id),
            capability_id: owned(capability_id),
            next_start_millis,
            overlap_millis,
            last_archive_ref: None,
            request_hash: None,
            pending_publish_refs: Vec::new(),
            quarantine_reason: None,
        };
        assert(r@.pending_publish_refs =~= Seq::<Seq<char>>::empty());
        r
    }

    pub fn job_id(&self) -> (r: &str)
        ensures
            r@ == self@.job_id,
    {
        self.job_id.as_str()
    }

    pub fn capability_id(&self) -> (r: &str)
        ensures
            r@ == self@.capability_id,
    {
        self.capability_id.as_str()
    }

    pub fn next_start_millis(&self) -> (r: i64)
        ensures
            r == self@.next_start_millis,
    {
        self.next_start_millis
    }

    pub fn last_archive_ref(&self) -> (r: Option<&str>)
        ensures
            match r {
                Some(s) => self@.last_archive_ref == Some(s@),
                None => self@.last_archive_ref is None,
            },
    {
        match &self.last_archive_ref {
            Some(s) => Some(s.as_str()),
            None => None,
        }
    }

    pub fn request_hash(&self) -> (r: Option<&str>)
        ensures
            match r {
                Some(s) => self@.request_hash == Some(s@),
                None => self@.request_hash is None,
            },
    {
        match &self.request_hash {
            Some(s) => Some(s.as_str()),
            None => None,
        }
    }

    /// The most recently queued reference still waiting for publication.
    pub fn pending_publish_ref(&self) -> (r: Option<&str>)
        ensures
            match r {
                Some(s) => self@.pending_publish_refs.len() > 0 && s@
                    == self@.pending_publish_refs.last(),
                None => self@.pending_publish_refs.len() == 0,
            },
    {
        let n = self.pending_publish_refs.len();
        if n == 0 {
            None
        } else {
            Some(self.pending_publish_refs[n - 1].as_str())
        }
    }

    pub fn pending_publish_refs(&self) -> (r: &[String])
        ensures
            r@.map_values(|s: String| s@) == self@.pending_publish_refs,
    {
        self.pending_publish_refs.as_slice()
    }

    pub fn quarantine_reason(&self) -> (r: Option<&str>)
        ensures
            match r {
                Some(s) => self@.quarantine_reason == Some(s@),
                None => self@.quarantine_reason is None,
            },
    {
        match &self.quarantine_reason {
            Some(s) => Some(s.as_str()),
            None => None,
        }
    }

    /// Records `archive_ref` as the last archived body and queues it for publication
    /// unless it is queued already.
    pub fn queue_pending(&mut self, archive_ref: &str)
        ensures
            final(self)@ == (CheckpointModel {
                last_archive_ref: Some(archive_ref@),
                pending_publish_refs: queued(old(self)@.pending_publish_refs, archive_ref@),
                ..old(self)@
            }),
    {
        self.last_archive_ref = Some(owned(archive_ref));
        let ghost s = old(self)@.pending_publish_refs;
        let mut i: usize = 0;
        while i < self.pending_publish_refs.len()
            invariant
                i <= self.pending_publish_refs@.len(),
                s == self.pending_publish_refs@.map_values(|q: String| q@),
                self@ == (CheckpointModel { last_archive_ref: Some(archive_ref@), ..old(self)@ }),
                forall|j: int| 0 <= j < i ==> s[j] != archive_ref@,
            decreases self.pending_publish_refs@.len() - i,
        {
            if same_text(self.pending_publish_refs[i].as_str(), archive_ref) {
                assert(s[i as int] == archive_ref@);
                assert(s.contains(archive_ref@));
                return;
            }
            i = i + 1;
        }
        let ghost before = self.pending_publish_refs@;
        self.pending_publish_refs.push(owned(archive_ref));
        proof {
            crate::text::lemma_map_values_push(before, self.pending_publish_refs@.last(), |q: String| q@);
            assert(!s.contains(archive_ref@));
        }
    }

    /// Takes `archive_ref` off the publication queue.
    pub fn drop_pending(&mut self, archive_ref: &str)
        ensures
            final(self)@ == (CheckpointModel {
                pending_publish_refs: without(old(self)@.pending_publish_refs, archive_ref@),
                ..old(self)@
            }),
    {
        let ghost s = old(self)@.pending_publish_refs;
        let mut kept: Vec<String> = Vec::new();
        let mut i: usize = 0;
        while i < self.pending_publish_refs.len()
            invariant
                i <= self.pending_publish_refs@.len(),
                s == self.pending_publish_refs@.map_values(|q: String| q@),
                kept@.map_values(|q: String| q@) == without(s.take(i as int), archive_ref@),
            decreases self.pending_publish_refs@.len() - i,
        {
            proof {
                assert(s.take(i + 1) =~= s.take(i as int).push(s[i as int]));
                assert(s.take(i + 1).drop_last() =~= s.take(i as int));
            }
            if !same_text(self.pending_publish_refs[i].as_str(), archive_ref) {
                let ghost before = kept@;
                kept.push(owned(self.pending_publish_refs[i].as_str()));
                proof {
                    crate::text::lemma_map_values_push(before, kept@.last(), |q: String| q@);
                }
            }
            i = i + 1;
        }
        assert(s.take(s.len() as int) =~= s);
        self.pending_publish_refs = kept;
    }

    /// Records a body that was archived for the request with hash `request_hash` and
    /// queues it for publication.
    pub fn record_archived(&mut self, archive_ref: &str, request_hash: &str)
        ensures
            final(self)@ == (CheckpointModel {
                request_hash: Some(request_hash@),
                last_archive_ref: Some(archive_ref@),
                pending_publish_refs: queued(old(self)@.pending_publish_refs, archive_ref@),
                ..old(self)@
            }),
    {
        self.request_hash = Some(owned(request_hash));
        self.queue_pending(archive_ref);
    }

    /// Records that `archive_ref` was quarantined for `reason` and takes it off the queue.
    pub fn record_quarantine(&mut self, archive_ref: &str, reason: &str)
        ensures
            final(self)@ == (CheckpointModel {
                quarantine_reason: Some(reason@),
                pending_publish_refs: without(old(self)@.pending_publish_refs, archive_ref@),
                ..old(self)@
            }),
    {
        self.quarantine_reason = Some(owned(reason));
        self.drop_pending(archive_ref);
    }

    /// Whether a checkpoint read back from disk may stand for job `job_id`: same schema,
    /// same job.
    pub fn belongs_to(&self, job_id: &str) -> (r: bool)
        ensures
            r == (self@.schema_version == CHECKPOINT_SCHEMA@ && self@.job_id == job_id@),
    {
        same_text(self.schema_version.as_str(), CHECKPOINT_SCHEMA) && same_text(
            self.job_id.as_str(),
            job_id,
        )
    }
}

/// A job identifier that names a file of its own: nonempty, no `/`, `\\` or `..`.
pub open spec fn job_file_ok(job_id: Seq<char>) -> bool {
    job_id.len() > 0 && !has_char(job_id, '/') && !has_char(job_id, '\\') && !contains(
        job_id,
        ".."@,
    )
}

/// The checkpoint file name of a job: `{job_id}.json`.
pub fn checkpoint_file_name(job_id: &str) -> (r: Result<String, InfoCaptureError>)
    ensures
        job_file_ok(job_id@) ==> (r matches Ok(name) && name@ == job_id@ + ".json"@),
        !job_file_ok(job_id@) ==> r == Err::<String, InfoCaptureError>(InfoCaptureError::Checkpoint),
{
    if job_id.is_empty() || str_has_char(job_id, '/') || str_has_char(job_id, '\\')
        || str_contains(job_id, "..") {
        return Err(InfoCaptureError::Checkpoint);
    }
    let mut name = owned(job_id);
    push_str(&mut name, ".json");
    Ok(name)
}

/// Queueing a reference makes it pending and the last archived one; queueing it again
/// changes nothing.
pub proof fn law_queue_is_idempotent(s: Seq<Seq<char>>, x: Seq<char>)
    ensures
        queued(s, x).contains(x),
        queued(queued(s, x), x) == queued(s, x),
{
    if !s.contains(x) {
        assert(s.push(x)[s.len() as int] == x);
    }
}

/// Dropping a reference leaves none of it and keeps every other reference.
pub proof fn law_drop_removes_only_it(s: Seq<Seq<char>>, x: Seq<char>)
    ensures
        !without(s, x).contains(x),
        forall|y: Seq<char>| y != x ==> (#[trigger] without(s, x).contains(y) <==> s.contains(y)),
    decreases s.len(),
{
    if s.len() > 0 {
        let d = s.drop_last();
        law_drop_removes_only_it(d, x);
        let sub = without(d, x);
        assert forall|y: Seq<char>| y != x implies (#[trigger] without(s, x).contains(y)
            <==> s.contains(y)) by {
            if s.contains(y) {
                let i = choose|i: int| 0 <= i < s.len() && s[i] == y;
                if i < s.len() - 1 {
                    assert(d[i] == y);
                    assert(d.contains(y));
                    assert(sub.contains(y));
                    if s.last() != x {
                        let k = choose|k: int| 0 <= k < sub.len() && sub[k] == y;
                        assert(sub.push(s.last())[k] == y);
                    }
                } else {
                    assert(sub.push(s.last())[sub.len() as int] == y);
                }
            }
            if without(s, x).contains(y) {
                if sub.contains(y) {
                    let k = choose|k: int| 0 <= k < d.len() && d[k] == y;
                    assert(s[k] == y);
                } else {
                    let k = choose|k: int|
                        0 <= k < without(s, x).len() && without(s, x)[k] == y;
                    if k < sub.len() {
                        assert(sub.push(s.last())[k] == sub[k]);
                    }
                    assert(s[s.len() - 1] == y);
                }
            }
        }
        if without(s, x).contains(x) {
            let k = choose|k: int| 0 <= k < without(s, x).len() && without(s, x)[k] == x;
            if s.last() != x {
                if k < sub.len() {
                    assert(sub.push(s.last())[k] == sub[k]);
                    assert(sub.contains(x));
                }
            } else {
                assert(sub.contains(x));
            }
        }
    }
}

proof fn lemma_without_absent(s: Seq<Seq<char>>, x: Seq<char>)
    requires
        !s.contains(x),
    ensures
        without(s, x) == s,
    decreases s.len(),
{
    if s.len() > 0 {
        assert(!s.drop_last().contains(x)) by {
            if s.drop_last().contains(x) {
                let i = choose|i: int| 0 <= i < s.drop_last().len() && s.drop_last()[i] == x;
                assert(s[i] == x);
            }
        }
        lemma_without_absent(s.drop_last(), x);
        assert(s.last() != x) by {
            if s.last() == x {
                assert(s[s.len() - 1] == x);
            }
        }
        assert(s.drop_last().push(s.last()) =~= s);
    }
}

/// Queueing a reference that was not pending and then dropping it gives back the queue.
pub proof fn law_drop_undoes_queue(s: Seq<Seq<char>>, x: Seq<char>)
    requires
        !s.contains(x),
    ensures
        without(queued(s, x), x) == s,
{
    assert(s.push(x).drop_last() =~= s);
    lemma_without_absent(s, x);
}

proof fn lemma_model_body(raw: Seq<u8>, max_body: usize)
    ensures
        http_response_model(raw, max_body) is Ok ==> header_end(raw) is Some && http_response_model(
            raw,
            max_body,
        )->Ok_0.1 == raw.skip(header_end(raw)->0 + 4) && raw.skip(header_end(raw)->0 + 4).len() <= max_body,
{
}

proof fn lemma_first_blank_line_exists(raw: Seq<u8>, i: int)
    requires
        blank_line_at(raw, i),
    ensures
        exists|m: int| blank_line_at(raw, m) && forall|j: int| 0 <= j < m ==> !#[trigger] blank_line_at(raw, j),
    decreases i,
{
    if exists|j: int| 0 <= j < i && #[trigger] blank_line_at(raw, j) {
        let j = choose|j: int| 0 <= j < i && #[trigger] blank_line_at(raw, j);
        lemma_first_blank_line_exists(raw, j);
    } else {
        assert(blank_line_at(raw, i) && forall|j: int| 0 <= j < i ==> !#[trigger] blank_line_at(raw, j));
    }
}

proof fn lemma_header_end_first(raw: Seq<u8>)
    ensures
        header_end(raw) matches Some(h) ==> blank_line_at(raw, h) && forall|j: int|
            0 <= j < h ==> !#[trigger] blank_line_at(raw, j),
{
    if exists|i: int| #[trigger] blank_line_at(raw, i) {
        let i = choose|i: int| #[trigger] blank_line_at(raw, i);
        lemma_first_blank_line_exists(raw, i);
    }
}

proof fn lemma_split_at_blank_line(raw: Seq<u8>, h: int)
    requires
        blank_line_at(raw, h),
    ensures
        raw =~= raw.take(h) + seq![13u8, 10u8, 13u8, 10u8] + raw.skip(h + 4),
{
    assert(raw =~= raw.take(h) + seq![13u8, 10u8, 13u8, 10u8] + raw.skip(h + 4));
}

/// A framed answer is its header, the first blank line (`\r\n\r\n`) and the body: the body
/// is exactly what follows the first blank line, so it never begins with that line's
/// `\r\n` and is as long as what follows it.
pub proof fn law_body_follows_first_blank_line(raw: Seq<u8>, max_body: usize)
    ensures
        http_response_model(raw, max_body) is Ok ==> {
            let body = http_response_model(raw, max_body)->Ok_0.1;
            let h = raw.len() - body.len() - 4;
            &&& 0 <= h
            &&& raw == raw.take(h) + seq![13u8, 10u8, 13u8, 10u8] + body
            &&& forall|j: int| 0 <= j < h ==> !#[trigger] blank_line_at(raw, j)
            &&& body.len() <= max_body
        },
{
    lemma_model_body(raw, max_body);
    lemma_header_end_first(raw);
    if http_response_model(raw, max_body) is Ok {
        lemma_split_at_blank_line(raw, header_end(raw)->0);
    }
}

} // verus!
