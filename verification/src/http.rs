//! The HTTP-facing rules of the gateway: which requests it serves, how the
//! agent is identified, how refusals are answered and which upstream statuses
//! count as success.
use vstd::prelude::*;
use vstd::utf8::{
    decode_utf8, is_leading_byte_width_1, partial_valid_utf8, partial_valid_utf8_extend_ascii_block,
    pop_first_scalar, valid_utf8,
};

use crate::external::from_utf8_lossy;

verus! {

/// A request the gateway refuses, and why.
#[derive(Clone, Copy, Debug, PartialEq, Eq, Structural)]
pub enum Rejection {
    /// Not `POST /v1/chat/completions`.
    NotFound,
    /// No `x-agent-id` header.
    Unauthorized,
    /// The agent's quota is used up.
    QuotaExceeded,
    /// The quota store could not answer.
    DatabaseFailure,
    /// The request body could not be read.
    UnreadableBody,
    /// A message contains a forbidden word.
    SecurityBreach,
    /// The upstream model answered with a non-success status.
    UpstreamError,
    /// The upstream model could not be reached.
    UpstreamUnreachable,
}

/// The HTTP status code that answers a refusal.
pub open spec fn rejection_status(r: Rejection) -> u16 {
    match r {
        Rejection::NotFound => 404,
        Rejection::Unauthorized => 401,
        Rejection::QuotaExceeded => 429,
        Rejection::DatabaseFailure => 500,
        Rejection::UnreadableBody => 400,
        Rejection::SecurityBreach => 403,
        Rejection::UpstreamError => 502,
        Rejection::UpstreamUnreachable => 502,
    }
}

/// The body text that answers a refusal.
pub open spec fn rejection_message(r: Rejection) -> Seq<char> {
    match r {
        Rejection::NotFound => "Endpoint Not Found"@,
        Rejection::Unauthorized => "Unauthorized: Missing Agent ID"@,
        Rejection::QuotaExceeded => "429 Too Many Requests: Quota Exceeded!"@,
        Rejection::DatabaseFailure => "Database failure"@,
        Rejection::UnreadableBody => "Failed to read body"@,
        Rejection::SecurityBreach => "403 Forbidden: Security Breach Detected (Dynamic DLP Violation)"@,
        Rejection::UpstreamError => "Upstream returned an error"@,
        Rejection::UpstreamUnreachable => "502 Bad Gateway: LLM Upstream Unreachable"@,
    }
}

impl Rejection {
    /// The HTTP status code of this refusal.
    pub fn status_code(&self) -> (code: u16)
        ensures
            code == rejection_status(*self),
    {
        match self {
            Rejection::NotFound => 404,
            Rejection::Unauthorized => 401,
            Rejection::QuotaExceeded => 429,
            Rejection::DatabaseFailure => 500,
            Rejection::UnreadableBody => 400,
            Rejection::SecurityBreach => 403,
            Rejection::UpstreamError => 502,
            Rejection::UpstreamUnreachable => 502,
        }
    }

    /// The body text of this refusal.
    pub fn message(&self) -> (m: &'static str)
        ensures
            m@ == rejection_message(*self),
    {
        match self {
            Rejection::NotFound => "Endpoint Not Found",
            Rejection::Unauthorized => "Unauthorized: Missing Agent ID",
            Rejection::QuotaExceeded => "429 Too Many Requests: Quota Exceeded!",
            Rejection::DatabaseFailure => "Database failure",
            Rejection::UnreadableBody => "Failed to read body",
            Rejection::SecurityBreach => "403 Forbidden: Security Breach Detected (Dynamic DLP Violation)",
            Rejection::UpstreamError => "Upstream returned an error",
            Rejection::UpstreamUnreachable => "502 Bad Gateway: LLM Upstream Unreachable",
        }
    }
}

/// A status code in the success class `200..300`.
pub open spec fn success_status(code: u16) -> bool {
    200 <= code < 300
}

/// Whether an upstream status code means success (`200..300`).
pub fn is_success_status(code: u16) -> (ok: bool)
    ensures
        ok == success_status(code),
{
    200 <= code && code < 300
}

/// The gateway's only route.
pub open spec fn chat_route() -> Seq<char> {
    "/v1/chat/completions"@
}

/// The request is `POST /v1/chat/completions`.
pub open spec fn is_chat_request(method: Seq<char>, path: Seq<char>) -> bool {
    method == "POST"@ && path == chat_route()
}

/// Whether a request with this method and path is one the gateway serves.
pub fn is_chat_completions(method: &str, path: &str) -> (b: bool)
    ensures
        b == is_chat_request(method@, path@),
{
    let m = String::from_str(method);
    let p = String::from_str(path);
    m == String::from_str("POST") && p == String::from_str("/v1/chat/completions")
}

/// A header byte that may appear in header text: visible ASCII or a tab.
pub open spec fn visible_header_byte(b: u8) -> bool {
    (32 <= b && b < 127) || b == 9
}

/// The text of a header value as the gateway reads it: the value itself when
/// every byte is visible ASCII or a tab, and the empty text otherwise.
pub open spec fn header_text(value: Seq<u8>) -> Seq<char> {
    if forall|i: int| 0 <= i < value.len() ==> visible_header_byte(#[trigger] value[i]) {
        decode_utf8(value)
    } else {
        Seq::<char>::empty()
    }
}

/// Reads a header value as text: the value when it is all visible ASCII (or
/// tabs), otherwise the empty text.
pub fn header_value_text(value: &[u8]) -> (text: String)
    ensures
        text@ == header_text(value@),
{
    let mut i: usize = 0;
    while i < value.len()
        invariant
            i <= value@.len(),
            forall|j: int| 0 <= j < i ==> visible_header_byte(#[trigger] value@[j]),
        decreases value@.len() - i,
    {
        let b = value[i];
        if !((32 <= b && b < 127) || b == 9) {
            return String::new();
        }
        i = i + 1;
    }
    proof {
        assert(value@.subrange(0, 0) =~= Seq::<u8>::empty());
        assert(partial_valid_utf8(value@, 0));
        assert forall|j: int| 0 <= 0 <= j < value@.len() <= value@.len() implies #[trigger] is_leading_byte_width_1(value@[j]) by {
            assert(visible_header_byte(value@[j]));
        }
        partial_valid_utf8_extend_ascii_block(value@, 0, value@.len() as int);
        assert(value@.subrange(0, value@.len() as int) =~= value@);
        assert(valid_utf8(value@));
    }
    from_utf8_lossy(value)
}

/// ASCII bytes decode one character per byte, each the byte's own value.
proof fn lemma_decode_ascii(bytes: Seq<u8>)
    requires
        forall|i: int| 0 <= i < bytes.len() ==> #[trigger] bytes[i] < 128,
    ensures
        valid_utf8(bytes),
        decode_utf8(bytes).len() == bytes.len(),
        forall|k: int| 0 <= k < bytes.len() ==> #[trigger] decode_utf8(bytes)[k] as u32 == bytes[k] as u32,
    decreases bytes.len(),
{
    if bytes.len() > 0 {
        let b = bytes[0];
        assert(b < 128);
        assert(b & 0x7f == b) by (bit_vector)
            requires
                b < 128,
        ;
        let rest = bytes.subrange(1, bytes.len() as int);
        assert forall|i: int| 0 <= i < rest.len() implies #[trigger] rest[i] < 128 by {
            assert(rest[i] == bytes[i + 1]);
        }
        lemma_decode_ascii(rest);
        assert(pop_first_scalar(bytes) =~= rest);
        assert(valid_utf8(bytes));
        let d = decode_utf8(bytes);
        assert(d == seq![(b as u32) as char] + decode_utf8(rest));
        assert forall|k: int| 0 <= k < bytes.len() implies #[trigger] d[k] as u32 == bytes[k] as u32 by {
            if k > 0 {
                assert(d[k] == decode_utf8(rest)[k - 1]);
                assert(rest[k - 1] == bytes[k]);
            }
        }
    } else {
        assert(decode_utf8(bytes) =~= Seq::<char>::empty());
    }
}

/// The agent id is the whole header value: for a value of visible ASCII and
/// tabs, of any length, it has one character per byte, each with that byte's
/// value.
pub proof fn lemma_header_text_is_whole_value(value: Seq<u8>)
    requires
        forall|i: int| 0 <= i < value.len() ==> visible_header_byte(#[trigger] value[i]),
    ensures
        header_text(value).len() == value.len(),
        forall|k: int| 0 <= k < value.len() ==> #[trigger] header_text(value)[k] as u32 == value[k] as u32,
{
    assert forall|i: int| 0 <= i < value.len() implies #[trigger] value[i] < 128 by {
        assert(visible_header_byte(value[i]));
    }
    lemma_decode_ascii(value);
}

/// Different header values of visible ASCII name different agents.
pub proof fn lemma_header_text_distinguishes_values(a: Seq<u8>, b: Seq<u8>)
    requires
        forall|i: int| 0 <= i < a.len() ==> visible_header_byte(#[trigger] a[i]),
        forall|i: int| 0 <= i < b.len() ==> visible_header_byte(#[trigger] b[i]),
        header_text(a) == header_text(b),
    ensures
        a == b,
{
    lemma_header_text_is_whole_value(a);
    lemma_header_text_is_whole_value(b);
    assert forall|k: int| 0 <= k < a.len() implies a[k] == b[k] by {
        assert(header_text(a)[k] as u32 == a[k] as u32);
        assert(header_text(b)[k] as u32 == b[k] as u32);
    }
    assert(a =~= b);
}

/// Only statuses in `200..300` are success: every 1xx, 3xx, 4xx and 5xx (and
/// any other) status is not.
pub proof fn lemma_success_is_exactly_2xx(code: u16)
    ensures
        code < 200 ==> !success_status(code),
        200 <= code && code < 300 ==> success_status(code),
        300 <= code ==> !success_status(code),
{
}

/// No refusal is answered with a success: every refusal carries a client or
/// server error status (`400..600`).
pub proof fn lemma_rejections_are_errors(r: Rejection)
    ensures
        400 <= rejection_status(r) < 600,
        !success_status(rejection_status(r)),
{
}

/// The gateway serves exactly one method and path: `POST` and
/// `/v1/chat/completions`, letter for letter.
pub proof fn lemma_route_is_exact(method: Seq<char>, path: Seq<char>)
    ensures
        is_chat_request(method, path) <==> (method == seq!['P', 'O', 'S', 'T'] && path == seq![
            '/', 'v', '1', '/', 'c', 'h', 'a', 't', '/', 'c', 'o', 'm', 'p', 'l', 'e', 't', 'i', 'o',
            'n', 's',
        ]),
{
    reveal_strlit("POST");
    reveal_strlit("/v1/chat/completions");
    assert("POST"@ =~= seq!['P', 'O', 'S', 'T']);
    assert("/v1/chat/completions"@ =~= seq![
        '/', 'v', '1', '/', 'c', 'h', 'a', 't', '/', 'c', 'o', 'm', 'p', 'l', 'e', 't', 'i', 'o',
        'n', 's',
    ]);
}

} // verus!
