//! Payload inspection: a chat request is refused when the lowercase text of
//! one of its messages contains a forbidden word.
use vstd::prelude::*;

use crate::external::{lowercase_of, to_lowercase};
use crate::text::{chars_of, contains, seq_contains};

verus! {

/// One message of a chat-completion request, as far as inspection reads it:
/// its `content` when that is a string.
pub struct ChatMessage {
    pub content: Option<String>,
}

/// A chat-completion request body that parsed: its messages, in order.
pub struct ChatRequest {
    pub messages: Vec<ChatMessage>,
}

impl View for ChatRequest {
    type V = Seq<Option<Seq<char>>>;

    open spec fn view(&self) -> Seq<Option<Seq<char>>> {
        self.messages@.map_values(|m: ChatMessage| m.content.deep_view())
    }
}

/// The text `content`, lowercased, contains one of `words`.
pub open spec fn mentions_forbidden(content: Seq<char>, words: Seq<Seq<char>>) -> bool {
    exists|j: int| 0 <= j < words.len() && seq_contains(lowercase_of(content), #[trigger] words[j])
}

/// Some message of `messages` has text content that mentions a forbidden word.
pub open spec fn payload_breaches(messages: Seq<Option<Seq<char>>>, words: Seq<Seq<char>>) -> bool {
    exists|i: int|
        0 <= i < messages.len() && (#[trigger] messages[i] matches Some(c) && mentions_forbidden(
            c,
            words,
        ))
}

/// The prompt of a request: the text content of its last message, or the
/// empty text where there is none.
pub open spec fn prompt_of(messages: Seq<Option<Seq<char>>>) -> Seq<char> {
    if messages.len() > 0 && messages.last() is Some {
        messages.last()->0
    } else {
        Seq::<char>::empty()
    }
}

/// Whether the lowercase form of `content` contains one of `words`.
pub fn mentions_forbidden_word(content: &str, words: &Vec<String>) -> (b: bool)
    ensures
        b == mentions_forbidden(content@, words.deep_view()),
{
    let lower = to_lowercase(content);
    let lower_chars = chars_of(lower.as_str());
    let mut j: usize = 0;
    while j < words.len()
        invariant
            j <= words.len(),
            lower_chars@ == lowercase_of(content@),
            forall|k: int|
                0 <= k < j ==> !seq_contains(lowercase_of(content@), #[trigger] words.deep_view()[k]),
        decreases words.len() - j,
    {
        let word = chars_of(words[j].as_str());
        if contains(&lower_chars, &word) {
            assert(words.deep_view()[j as int] == words@[j as int]@);
            return true;
        }
        assert(words.deep_view()[j as int] == words@[j as int]@);
        j = j + 1;
    }
    false
}

/// Whether a request breaches the blacklist `forbidden`: some message has text
/// content whose lowercase form contains a forbidden word. An empty blacklist
/// lets every request through.
pub fn is_breached(request: &ChatRequest, forbidden: &Vec<String>) -> (b: bool)
    ensures
        b == payload_breaches(request@, forbidden.deep_view()),
{
    if forbidden.len() == 0 {
        return false;
    }
    let mut i: usize = 0;
    while i < request.messages.len()
        invariant
            i <= request.messages.len(),
            forall|k: int|
                0 <= k < i ==> !(#[trigger] request@[k] matches Some(c) && mentions_forbidden(
                    c,
                    forbidden.deep_view(),
                )),
        decreases request.messages.len() - i,
    {
        match &request.messages[i].content {
            Some(content) => {
                if mentions_forbidden_word(content.as_str(), forbidden) {
                    assert(request@[i as int] == Some(content@));
                    return true;
                }
                assert(request@[i as int] == Some(content@));
            },
            None => {
                assert(request@[i as int] is None);
            },
        }
        i = i + 1;
    }
    false
}

/// The prompt of a request: the text content of its last message, or the
/// empty text.
pub fn extract_prompt(request: &ChatRequest) -> (prompt: String)
    ensures
        prompt@ == prompt_of(request@),
{
    let n = request.messages.len();
    if n == 0 {
        return String::new();
    }
    match &request.messages[n - 1].content {
        Some(c) => {
            assert(request@.last() == Some(c@));
            c.clone()
        },
        None => {
            assert(request@.last() is None);
            String::new()
        },
    }
}

/// An empty blacklist never blocks a request.
pub proof fn lemma_empty_blacklist_never_breaches(messages: Seq<Option<Seq<char>>>)
    ensures
        !payload_breaches(messages, Seq::<Seq<char>>::empty()),
{
}

/// Adding words to the blacklist never lets through a request it blocked.
pub proof fn lemma_more_words_keep_breach(
    messages: Seq<Option<Seq<char>>>,
    words: Seq<Seq<char>>,
    extra: Seq<Seq<char>>,
)
    requires
        payload_breaches(messages, words),
    ensures
        payload_breaches(messages, words + extra),
{
    let i = choose|i: int|
        0 <= i < messages.len() && (#[trigger] messages[i] matches Some(c) && mentions_forbidden(
            c,
            words,
        ));
    let c = messages[i]->0;
    let j = choose|j: int|
        0 <= j < words.len() && seq_contains(lowercase_of(c), #[trigger] words[j]);
    assert((words + extra)[j] == words[j]);
    assert(mentions_forbidden(c, words + extra));
}

/// Adding messages to a request never lets it through once it is blocked.
pub proof fn lemma_more_messages_keep_breach(
    messages: Seq<Option<Seq<char>>>,
    more: Seq<Option<Seq<char>>>,
    words: Seq<Seq<char>>,
)
    requires
        payload_breaches(messages, words),
    ensures
        payload_breaches(messages + more, words),
{
    let i = choose|i: int|
        0 <= i < messages.len() && (#[trigger] messages[i] matches Some(c) && mentions_forbidden(
            c,
            words,
        ));
    assert((messages + more)[i] == messages[i]);
}

/// Every message is inspected, wherever it stands: a request is breached
/// exactly when some message, at any position, has text content whose
/// lowercase form contains some blacklisted word.
pub proof fn lemma_breach_iff_some_message_mentions_a_word(
    messages: Seq<Option<Seq<char>>>,
    words: Seq<Seq<char>>,
)
    ensures
        payload_breaches(messages, words) <==> exists|i: int, j: int|
            0 <= i < messages.len() && 0 <= j < words.len() && messages[i] is Some
                && #[trigger] seq_contains(lowercase_of(messages[i]->0), #[trigger] words[j]),
{
    if payload_breaches(messages, words) {
        let i = choose|i: int|
            0 <= i < messages.len() && (#[trigger] messages[i] matches Some(c)
                && mentions_forbidden(c, words));
        let c = messages[i]->0;
        let j = choose|j: int|
            0 <= j < words.len() && seq_contains(lowercase_of(c), #[trigger] words[j]);
        assert(seq_contains(lowercase_of(messages[i]->0), words[j]));
    }
    if exists|i: int, j: int|
        0 <= i < messages.len() && 0 <= j < words.len() && messages[i] is Some
            && #[trigger] seq_contains(lowercase_of(messages[i]->0), #[trigger] words[j]) {
        let (i, j) = choose|i: int, j: int|
            0 <= i < messages.len() && 0 <= j < words.len() && messages[i] is Some
                && #[trigger] seq_contains(lowercase_of(messages[i]->0), #[trigger] words[j]);
        assert(mentions_forbidden(messages[i]->0, words));
        assert(messages[i] matches Some(c) && mentions_forbidden(c, words));
    }
}

/// A message mentioning a blacklisted word breaches the request wherever it
/// stands, however many messages come before or after it.
pub proof fn lemma_mention_anywhere_breaches(
    before: Seq<Option<Seq<char>>>,
    content: Seq<char>,
    after: Seq<Option<Seq<char>>>,
    words: Seq<Seq<char>>,
    j: int,
)
    requires
        0 <= j < words.len(),
        seq_contains(lowercase_of(content), words[j]),
    ensures
        payload_breaches(before + seq![Some(content)] + after, words),
{
    let m = before + seq![Some(content)] + after;
    let i = before.len() as int;
    assert(m[i] == Some(content));
    assert(mentions_forbidden(content, words));
}

/// The prompt is the whole text of the last message: adding a message with
/// text `c` makes `c` itself the prompt, whatever came before and however
/// long `c` is; adding one without text leaves no prompt.
pub proof fn lemma_prompt_is_whole_last_text(
    messages: Seq<Option<Seq<char>>>,
    c: Seq<char>,
)
    ensures
        prompt_of(messages.push(Some(c))) == c,
        prompt_of(messages.push(None)).len() == 0,
        prompt_of(Seq::<Option<Seq<char>>>::empty()).len() == 0,
{
}

/// Requests whose last messages carry different texts have different prompts.
pub proof fn lemma_prompts_distinguish_last_texts(
    m1: Seq<Option<Seq<char>>>,
    c1: Seq<char>,
    m2: Seq<Option<Seq<char>>>,
    c2: Seq<char>,
)
    requires
        c1 != c2,
    ensures
        prompt_of(m1.push(Some(c1))) != prompt_of(m2.push(Some(c2))),
{
    lemma_prompt_is_whole_last_text(m1, c1);
    lemma_prompt_is_whole_last_text(m2, c2);
}

} // verus!
