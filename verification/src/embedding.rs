//! The request sent to the embedding model.
use vstd::prelude::*;

use crate::external::json_encode_str;
use crate::json::{json_quote, lemma_json_quote_injective};

verus! {

/// The JSON body asking the embedding model `nomic-embed-text` for the
/// embedding of `prompt`.
pub open spec fn embedding_payload(prompt: Seq<char>) -> Seq<char> {
    "{\"model\":\"nomic-embed-text\",\"prompt\":"@ + json_quote(prompt) + "}"@
}

/// Builds the JSON body of an embedding request for `prompt`:
/// `{"model":"nomic-embed-text","prompt":<prompt as a JSON string>}`.
pub fn embedding_request_body(prompt: &str) -> (body: String)
    ensures
        body@ == embedding_payload(prompt@),
{
    let quoted = match json_encode_str(prompt) {
        Some(t) => t,
        None => {
            assert(false);
            String::new()
        },
    };
    let mut body = String::from_str("{\"model\":\"nomic-embed-text\",\"prompt\":");
    body.append(quoted.as_str());
    body.append("}");
    body
}

/// An embedding request carries the whole prompt: different prompts give
/// different request bodies.
pub proof fn lemma_embedding_payload_injective(a: Seq<char>, b: Seq<char>)
    requires
        embedding_payload(a) == embedding_payload(b),
    ensures
        a == b,
{
    let p = "{\"model\":\"nomic-embed-text\",\"prompt\":"@;
    let qa = json_quote(a);
    let qb = json_quote(b);
    let t = "}"@;
    assert(embedding_payload(a) == p + qa + t);
    assert(embedding_payload(b) == p + qb + t);
    assert((p + qa + t).len() == p.len() + qa.len() + t.len());
    assert((p + qb + t).len() == p.len() + qb.len() + t.len());
    assert(qa.len() == qb.len());
    assert(qa =~= embedding_payload(a).subrange(p.len() as int, (p.len() + qa.len()) as int));
    assert(qb =~= embedding_payload(b).subrange(p.len() as int, (p.len() + qb.len()) as int));
    lemma_json_quote_injective(a, b);
}

} // verus!
