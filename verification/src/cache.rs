//! The response cache: keys derived from prompts, and the event-stream body
//! that replays a cached answer.
use vstd::prelude::*;
use vstd::utf8::encode_utf8;

use crate::external::{json_encode_str, sha256_digest, sha256_of};
use crate::json::{json_quote, lemma_json_quote_injective};

verus! {

/// The lowercase hexadecimal digit for `n` (`0 <= n < 16`).
pub open spec fn hex_digit(n: int) -> char {
    if n < 10 {
        (48 + n) as char
    } else {
        (87 + n) as char
    }
}

/// Lowercase hexadecimal text of `bytes`: two digits per byte, high nibble
/// first.
pub open spec fn hex_lower(bytes: Seq<u8>) -> Seq<char>
    decreases bytes.len(),
{
    if bytes.len() == 0 {
        Seq::<char>::empty()
    } else {
        hex_lower(bytes.drop_last()) + seq![
            hex_digit(bytes.last() as int / 16),
            hex_digit(bytes.last() as int % 16),
        ]
    }
}

/// The prefix of every cache key.
pub open spec fn cache_prefix() -> Seq<char> {
    seq!['c', 'a', 'c', 'h', 'e', ':']
}

/// The cache key of a prompt: `cache:` and the lowercase hex SHA-256 digest of
/// the prompt's UTF-8 bytes.
pub open spec fn cache_key_of(prompt: Seq<char>) -> Seq<char> {
    cache_prefix() + hex_lower(sha256_of(encode_utf8(prompt)))
}

proof fn lemma_hex_table(n: int)
    requires
        0 <= n < 16,
    ensures
        "0123456789abcdef"@.len() == 16,
        "0123456789abcdef"@[n] == hex_digit(n),
{
    reveal_strlit("0123456789abcdef");
    if n == 0 {} else if n == 1 {} else if n == 2 {} else if n == 3 {} else if n == 4 {}
    else if n == 5 {} else if n == 6 {} else if n == 7 {} else if n == 8 {} else if n == 9 {}
    else if n == 10 {} else if n == 11 {} else if n == 12 {} else if n == 13 {}
    else if n == 14 {} else {}
}

/// Appends the hex digit of `n` to `out`.
fn push_hex_digit(out: &mut String, n: u8)
    requires
        n < 16,
    ensures
        final(out)@ == old(out)@.push(hex_digit(n as int)),
{
    proof {
        lemma_hex_table(n as int);
    }
    let table = "0123456789abcdef";
    let d = table.substring_char(n as usize, n as usize + 1);
    assert(d@ =~= seq![hex_digit(n as int)]);
    out.append(d);
}

/// Appends the lowercase hex text of `bytes` to `out`.
pub fn append_hex_lower(out: &mut String, bytes: &[u8])
    ensures
        final(out)@ == old(out)@ + hex_lower(bytes@),
{
    let ghost start = out@;
    let mut i: usize = 0;
    while i < bytes.len()
        invariant
            i <= bytes@.len(),
            out@ == start + hex_lower(bytes@.take(i as int)),
        decreases bytes@.len() - i,
    {
        let b = bytes[i];
        push_hex_digit(out, b / 16);
        push_hex_digit(out, b % 16);
        assert(bytes@.take(i + 1).drop_last() =~= bytes@.take(i as int));
        i = i + 1;
    }
    assert(bytes@.take(bytes@.len() as int) =~= bytes@);
}

/// Computes the cache key of a prompt: `cache:` followed by the lowercase hex
/// SHA-256 digest of the prompt's UTF-8 bytes (64 digits).
pub fn generate_cache_key(prompt: &str) -> (key: String)
    ensures
        key@ == cache_key_of(prompt@),
        key@.len() == 70,
{
    let digest = sha256_digest(prompt.as_bytes());
    proof {
        reveal_strlit("cache:");
    }
    let mut key = String::from_str("cache:");
    assert(key@ =~= cache_prefix());
    append_hex_lower(&mut key, digest.as_slice());
    proof {
        lemma_hex_lower_len(digest@);
    }
    key
}

/// Hex text has two digits per byte.
pub proof fn lemma_hex_lower_len(bytes: Seq<u8>)
    ensures
        hex_lower(bytes).len() == 2 * bytes.len(),
    decreases bytes.len(),
{
    if bytes.len() > 0 {
        lemma_hex_lower_len(bytes.drop_last());
    }
}

/// The event-stream text that replays a cached answer: one chat-completion
/// chunk whose delta content is the answer (as a JSON string), then the
/// `[DONE]` event.
pub open spec fn cached_reply(answer: Seq<char>) -> Seq<char> {
    "data: {\"id\":\"cache-hit\",\"object\":\"chat.completion.chunk\",\"model\":\"kalkan-cached\",\"choices\":[{\"delta\":{\"role\":\"assistant\",\"content\":"@
        + json_quote(answer) + "},\"finish_reason\":\"stop\"}]}\n\ndata: [DONE]\n\n"@
}

/// Builds the event-stream body that serves a cached answer in place of the
/// upstream model.
pub fn cached_reply_body(answer: &str) -> (body: String)
    ensures
        body@ == cached_reply(answer@),
{
    let content = match json_encode_str(answer) {
        Some(t) => t,
        None => {
            assert(false);
            String::new()
        },
    };
    let mut body = String::from_str(
        "data: {\"id\":\"cache-hit\",\"object\":\"chat.completion.chunk\",\"model\":\"kalkan-cached\",\"choices\":[{\"delta\":{\"role\":\"assistant\",\"content\":",
    );
    body.append(content.as_str());
    body.append("},\"finish_reason\":\"stop\"}]}\n\ndata: [DONE]\n\n");
    body
}

/// Distinct hex digits stand for distinct values.
pub proof fn lemma_hex_digit_injective(a: int, b: int)
    requires
        0 <= a < 16,
        0 <= b < 16,
        hex_digit(a) == hex_digit(b),
    ensures
        a == b,
{
    let ca = if a < 10 { 48 + a } else { 87 + a };
    let cb = if b < 10 { 48 + b } else { 87 + b };
    assert(hex_digit(a) as int == ca);
    assert(hex_digit(b) as int == cb);
}

/// Hex text determines the bytes it was made from.
pub proof fn lemma_hex_lower_injective(a: Seq<u8>, b: Seq<u8>)
    requires
        hex_lower(a) == hex_lower(b),
    ensures
        a == b,
    decreases a.len(),
{
    lemma_hex_lower_len(a);
    lemma_hex_lower_len(b);
    if a.len() > 0 {
        let ha = hex_lower(a);
        let n = ha.len();
        let x = a.last() as int;
        let y = b.last() as int;
        assert(ha[n - 2] == hex_digit(x / 16));
        assert(hex_lower(b)[n - 2] == hex_digit(y / 16));
        assert(ha[n - 1] == hex_digit(x % 16));
        assert(hex_lower(b)[n - 1] == hex_digit(y % 16));
        lemma_hex_digit_injective(x / 16, y / 16);
        lemma_hex_digit_injective(x % 16, y % 16);
        lemma_hex_lower_len(a.drop_last());
        lemma_hex_lower_len(b.drop_last());
        assert(hex_lower(a.drop_last()) =~= ha.subrange(0, n - 2));
        assert(hex_lower(b.drop_last()) =~= hex_lower(b).subrange(0, n - 2));
        lemma_hex_lower_injective(a.drop_last(), b.drop_last());
        assert(a =~= a.drop_last().push(a.last()));
        assert(b =~= b.drop_last().push(b.last()));
    } else {
        assert(b.len() == 0);
        assert(a =~= b);
    }
}

/// Two prompts share a cache key exactly when the SHA-256 digests of their
/// UTF-8 bytes are equal.
pub proof fn lemma_cache_keys_match_digests(p1: Seq<char>, p2: Seq<char>)
    ensures
        cache_key_of(p1) == cache_key_of(p2) <==> sha256_of(encode_utf8(p1)) == sha256_of(
            encode_utf8(p2),
        ),
{
    let h1 = hex_lower(sha256_of(encode_utf8(p1)));
    let h2 = hex_lower(sha256_of(encode_utf8(p2)));
    if cache_key_of(p1) == cache_key_of(p2) {
        assert(cache_key_of(p1).subrange(6, cache_key_of(p1).len() as int) =~= h1);
        assert(cache_key_of(p2).subrange(6, cache_key_of(p2).len() as int) =~= h2);
        lemma_hex_lower_injective(sha256_of(encode_utf8(p1)), sha256_of(encode_utf8(p2)));
    }
}

/// A cached reply carries the whole answer: different answers, of any
/// length, are replayed as different replies.
pub proof fn lemma_cached_reply_injective(a: Seq<char>, b: Seq<char>)
    requires
        cached_reply(a) == cached_reply(b),
    ensures
        a == b,
{
    let p = "data: {\"id\":\"cache-hit\",\"object\":\"chat.completion.chunk\",\"model\":\"kalkan-cached\",\"choices\":[{\"delta\":{\"role\":\"assistant\",\"content\":"@;
    let qa = json_quote(a);
    let qb = json_quote(b);
    let t = "},\"finish_reason\":\"stop\"}]}\n\ndata: [DONE]\n\n"@;
    assert(cached_reply(a) == p + qa + t);
    assert(cached_reply(b) == p + qb + t);
    assert((p + qa + t).len() == p.len() + qa.len() + t.len());
    assert((p + qb + t).len() == p.len() + qb.len() + t.len());
    assert(qa.len() == qb.len());
    assert(qa =~= cached_reply(a).subrange(p.len() as int, (p.len() + qa.len()) as int));
    assert(qb =~= cached_reply(b).subrange(p.len() as int, (p.len() + qb.len()) as int));
    lemma_json_quote_injective(a, b);
}

/// The value of a lowercase hex digit, or -1 for any other character.
pub open spec fn hex_value(c: char) -> int {
    if '0' <= c && c <= '9' {
        c as int - 48
    } else if 'a' <= c && c <= 'f' {
        c as int - 87
    } else {
        -1
    }
}

/// The hex text of bytes reads back to those bytes: it holds two lowercase
/// hex digits per byte, high nibble first, in byte order.
pub proof fn lemma_hex_lower_reads_back(bytes: Seq<u8>)
    ensures
        hex_lower(bytes).len() == 2 * bytes.len(),
        forall|k: int|
            0 <= k < bytes.len() ==> hex_value(#[trigger] hex_lower(bytes)[2 * k]) * 16
                + hex_value(hex_lower(bytes)[2 * k + 1]) == bytes[k] as int,
        forall|i: int| 0 <= i < hex_lower(bytes).len() ==> 0 <= #[trigger] hex_value(
            hex_lower(bytes)[i],
        ) < 16,
    decreases bytes.len(),
{
    if bytes.len() > 0 {
        let init = bytes.drop_last();
        lemma_hex_lower_reads_back(init);
        let h = hex_lower(bytes);
        let hi = hex_lower(init);
        let x = bytes.last() as int;
        assert(0 <= hex_value(hex_digit(x / 16)) < 16 && hex_value(hex_digit(x / 16)) == x / 16);
        assert(0 <= hex_value(hex_digit(x % 16)) < 16 && hex_value(hex_digit(x % 16)) == x % 16);
        assert forall|k: int| 0 <= k < bytes.len() implies hex_value(#[trigger] h[2 * k]) * 16
            + hex_value(h[2 * k + 1]) == bytes[k] as int by {
            if k < init.len() {
                assert(h[2 * k] == hi[2 * k]);
                assert(h[2 * k + 1] == hi[2 * k + 1]);
                assert(bytes[k] == init[k]);
            } else {
                assert(h[2 * k] == hex_digit(x / 16));
                assert(h[2 * k + 1] == hex_digit(x % 16));
            }
        }
        assert forall|i: int| 0 <= i < h.len() implies 0 <= #[trigger] hex_value(h[i]) < 16 by {
            if i < hi.len() {
                assert(h[i] == hi[i]);
            }
        }
    }
}

/// A cache key is `cache:` followed by 64 lowercase hex digits that read back
/// to the SHA-256 digest of the prompt's UTF-8 bytes.
pub proof fn lemma_cache_key_reads_back(prompt: Seq<char>, digest: Seq<u8>)
    requires
        digest == sha256_of(encode_utf8(prompt)),
    ensures
        cache_key_of(prompt).subrange(0, 6) == seq!['c', 'a', 'c', 'h', 'e', ':'],
        cache_key_of(prompt).len() == 6 + 2 * digest.len(),
        forall|k: int|
            0 <= k < digest.len() ==> hex_value(#[trigger] cache_key_of(prompt)[6 + 2 * k]) * 16
                + hex_value(cache_key_of(prompt)[6 + 2 * k + 1]) == digest[k] as int,
{
    lemma_hex_lower_reads_back(digest);
    let key = cache_key_of(prompt);
    assert(key.subrange(0, 6) =~= seq!['c', 'a', 'c', 'h', 'e', ':']);
    assert forall|k: int| 0 <= k < digest.len() implies hex_value(#[trigger] key[6 + 2 * k]) * 16
        + hex_value(key[6 + 2 * k + 1]) == digest[k] as int by {
        assert(key[6 + 2 * k] == hex_lower(digest)[2 * k]);
        assert(key[6 + 2 * k + 1] == hex_lower(digest)[2 * k + 1]);
    }
}

} // verus!
