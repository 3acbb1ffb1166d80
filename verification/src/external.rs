//! The calls this library makes into `sha2`, `serde_json` and std functions
//! that vstd leaves unspecified. Each item here is trusted: its contract is
//! believed, not proved, and says no more than the called code shows.
use sha2::Digest;
use vstd::prelude::*;
use vstd::utf8::{decode_utf8, valid_utf8};

use crate::json::json_quote;

verus! {

/// The SHA-256 digest of `data`, as `sha2` computes it.
pub uninterp spec fn sha256_of(data: Seq<u8>) -> Seq<u8>;

/// The string at `[outer][index][inner][leaf]` of the JSON document `json`,
/// as `serde_json` parses it into a `Value` and indexes it: `None` where the
/// document does not parse or that place holds no string.
pub uninterp spec fn json_str_at_of(
    json: Seq<char>,
    outer: Seq<char>,
    index: usize,
    inner: Seq<char>,
    leaf: Seq<char>,
) -> Option<Seq<char>>;

/// The unsigned integer at `[outer][leaf]` of the JSON document `json`, as
/// `serde_json` parses it into a `Value`, indexes it and reads it with
/// `as_u64`: `None` where the document does not parse or that place holds no
/// such number.
pub uninterp spec fn json_u64_at_of(json: Seq<char>, outer: Seq<char>, leaf: Seq<char>) -> Option<
    u64,
>;

/// The lowercase form of `s`, as `str::to_lowercase` computes it from the
/// Unicode tables.
pub uninterp spec fn lowercase_of(s: Seq<char>) -> Seq<char>;

/// The text that `String::from_utf8_lossy` makes of `bytes`.
pub uninterp spec fn utf8_lossy_of(bytes: Seq<u8>) -> Seq<char>;

/// Calls `sha2::Sha256::digest` (which hashes `data` with a fresh hasher, as
/// `new`, `update` and `finalize` do) and copies the digest out. Claimed: the
/// digest is `sha256_of(data)` and has 32 bytes (`Sha256`'s output size is
/// `U32` in the crate's source).
#[verifier::external_body]
pub(crate) fn sha256_digest(data: &[u8]) -> (digest: Vec<u8>)
    ensures
        digest@ == sha256_of(data@),
        digest@.len() == 32,
{
    sha2::Sha256::digest(data).to_vec()
}

/// Calls `serde_json::to_string` on a string slice. Claimed: it succeeds and
/// writes `json_quote(s)`. In the crate's source a `str` is written into a
/// `Vec<u8>` (which never fails) by `format_escaped_str`: a quote, each byte
/// run unescaped except those the `ESCAPE` table marks (`"`, `\`, and the
/// bytes below 0x20, with short escapes for 0x08, 0x09, 0x0A, 0x0C, 0x0D and
/// `\u00` plus two lowercase hex digits for the rest), and a closing quote.
#[verifier::external_body]
pub(crate) fn json_encode_str(s: &str) -> (out: Option<String>)
    ensures
        out is Some,
        out.deep_view() == Some(json_quote(s@)),
{
    serde_json::to_string(s).ok()
}

/// Calls `serde_json::from_str::<serde_json::Value>` on `json` and reads the
/// string at `[outer][index][inner][leaf]` with `Value`'s indexing and
/// `as_str`. Claimed: the outcome is `json_str_at_of` of the arguments.
#[verifier::external_body]
pub(crate) fn json_str_at(
    json: &str,
    outer: &str,
    index: usize,
    inner: &str,
    leaf: &str,
) -> (out: Option<String>)
    ensures
        out.deep_view() == json_str_at_of(json@, outer@, index, inner@, leaf@),
{
    match serde_json::from_str::<serde_json::Value>(json) {
        Ok(v) => match v[outer][index][inner][leaf].as_str() {
            Some(c) => Some(c.to_string()),
            None => None,
        },
        Err(_) => None,
    }
}

/// Calls `serde_json::from_str::<serde_json::Value>` on `json` and reads the
/// number at `[outer][leaf]` with `Value`'s indexing and `as_u64`. Claimed:
/// the outcome is `json_u64_at_of` of the arguments.
#[verifier::external_body]
pub(crate) fn json_u64_at(json: &str, outer: &str, leaf: &str) -> (out: Option<u64>)
    ensures
        out == json_u64_at_of(json@, outer@, leaf@),
{
    match serde_json::from_str::<serde_json::Value>(json) {
        Ok(v) => v[outer][leaf].as_u64(),
        Err(_) => None,
    }
}

/// Calls `str::to_lowercase`. Claimed: the result is `lowercase_of(s)`.
#[verifier::external_body]
pub(crate) fn to_lowercase(s: &str) -> (out: String)
    ensures
        out@ == lowercase_of(s@),
{
    s.to_lowercase()
}

/// Calls `String::from_utf8_lossy` and takes the text out of the `Cow`.
/// Claimed: the result is `utf8_lossy_of(bytes)`, and for valid UTF-8 it is the
/// decoded text itself (the documented borrowed case).
#[verifier::external_body]
pub(crate) fn from_utf8_lossy(bytes: &[u8]) -> (out: String)
    ensures
        out@ == utf8_lossy_of(bytes@),
        valid_utf8(bytes@) ==> out@ == decode_utf8(bytes@),
{
    String::from_utf8_lossy(bytes).into_owned()
}

} // verus!
