use kalkan::{
    cached_reply_body, embedding_request_body, extract_prompt, generate_cache_key,
    header_value_text, is_breached, is_chat_completions, is_success_status, Action, ChatMessage,
    ChatRequest, Gateway, QuotaRelease, Rejection, Stage, StreamMeter, CACHE_TTL_SECONDS,
    RESERVED_UNITS,
};

const CHAT_PATH: &str = "/v1/chat/completions";

fn message(content: Option<&str>) -> ChatMessage {
    ChatMessage { content: content.map(|c| c.to_string()) }
}

fn request(contents: &[Option<&str>]) -> ChatRequest {
    ChatRequest { messages: contents.iter().map(|c| message(*c)).collect() }
}

fn words(list: &[&str]) -> Vec<String> {
    list.iter().map(|w| w.to_string()).collect()
}

fn cached_reply_for(json_content: &str) -> String {
    format!(
        "data: {{\"id\":\"cache-hit\",\"object\":\"chat.completion.chunk\",\"model\":\"kalkan-cached\",\"choices\":[{{\"delta\":{{\"role\":\"assistant\",\"content\":{}}},\"finish_reason\":\"stop\"}}]}}\n\ndata: [DONE]\n\n",
        json_content
    )
}

fn release(agent: &str) -> Option<QuotaRelease> {
    Some(QuotaRelease { key: format!("quota:{}", agent), units: RESERVED_UNITS })
}

/// A gateway whose reservation left `remaining` units.
fn gateway_after_quota(agent: &str, remaining: i64) -> Gateway {
    let (mut g, action) = Gateway::accept("POST", CHAT_PATH, Some(agent.as_bytes()));
    assert_eq!(action, Action::ReserveQuota(format!("quota:{}", agent)));
    assert_eq!(g.quota_reserved(Some(remaining)), Action::ReadBody);
    g
}

// ---------------------------------------------------------------- cache keys

#[test]
fn cache_key_of_hello() {
    assert_eq!(
        generate_cache_key("hello"),
        "cache:2cf24dba5fb0a30e26e83b2ac5b9e29e1b161e5c1fa7425e73043362938b9824"
    );
}

#[test]
fn cache_key_of_empty_prompt() {
    assert_eq!(
        generate_cache_key(""),
        "cache:e3b0c44298fc1c149afbf4c8996fb92427ae41e4649b934ca495991b7852b855"
    );
}

#[test]
fn cache_key_hashes_utf8_bytes() {
    assert_eq!(
        generate_cache_key("Merhaba dünya"),
        "cache:44a4b2f143db852b7df0b40111e1aba8aaf64e7fe2508744284b0ec7448a4610"
    );
}

#[test]
fn cache_key_shape_and_determinism() {
    let a = generate_cache_key("What is Rust?");
    let b = generate_cache_key("What is Rust?");
    let c = generate_cache_key("What is Rust!");
    assert_eq!(a, b);
    assert_ne!(a, c);
    assert_eq!(a.len(), 70);
    assert!(a.starts_with("cache:"));
    assert!(a[6..].chars().all(|ch| ch.is_ascii_digit() || ('a'..='f').contains(&ch)));
}

// ------------------------------------------------------------ cached replies

#[test]
fn cached_reply_plain_answer() {
    assert_eq!(cached_reply_body("Hello there"), cached_reply_for("\"Hello there\""));
}

#[test]
fn cached_reply_escapes_answer() {
    assert_eq!(
        cached_reply_body("he said \"hi\"\n"),
        cached_reply_for("\"he said \\\"hi\\\"\\n\"")
    );
}

#[test]
fn json_escapes_control_characters() {
    assert_eq!(
        embedding_request_body("a\u{1}\u{8}\t\u{c}\r\\b\u{1f}\u{7f}é"),
        "{\"model\":\"nomic-embed-text\",\"prompt\":\"a\\u0001\\b\\t\\f\\r\\\\b\\u001f\u{7f}é\"}"
    );
}

#[test]
fn cached_reply_is_a_valid_event_stream() {
    let body = cached_reply_body("tam yanıt \\ ok");
    let first = body.lines().next().unwrap();
    let json: serde_json::Value = serde_json::from_str(&first[6..]).unwrap();
    assert_eq!(json["choices"][0]["delta"]["content"].as_str(), Some("tam yanıt \\ ok"));
    assert!(body.ends_with("\n\ndata: [DONE]\n\n"));
}

#[test]
fn cached_reply_replays_through_meter() {
    let answer = "Rust is a systems language.";
    let body = cached_reply_body(answer);
    let mut meter = StreamMeter::new("agent", "cache:k", 0);
    let settled = meter.on_chunk(body.as_bytes()).expect("the reply ends the stream");
    assert_eq!(meter.collected(), answer);
    assert_eq!(settled.deduct, 1);
}

// --------------------------------------------------------- embedding request

#[test]
fn embedding_body_for_plain_prompt() {
    assert_eq!(
        embedding_request_body("hello"),
        "{\"model\":\"nomic-embed-text\",\"prompt\":\"hello\"}"
    );
}

#[test]
fn embedding_body_matches_serde_json_object() {
    let prompt = "line one\nline \"two\"";
    let mut map = serde_json::Map::new();
    map.insert("model".to_string(), serde_json::Value::String("nomic-embed-text".to_string()));
    map.insert("prompt".to_string(), serde_json::Value::String(prompt.to_string()));
    let expected = serde_json::to_string(&serde_json::Value::Object(map)).unwrap();
    assert_eq!(embedding_request_body(prompt), expected);
}

// ------------------------------------------------------------------ HTTP rules

#[test]
fn rejection_status_codes() {
    assert_eq!(Rejection::NotFound.status_code(), 404);
    assert_eq!(Rejection::Unauthorized.status_code(), 401);
    assert_eq!(Rejection::QuotaExceeded.status_code(), 429);
    assert_eq!(Rejection::DatabaseFailure.status_code(), 500);
    assert_eq!(Rejection::UnreadableBody.status_code(), 400);
    assert_eq!(Rejection::SecurityBreach.status_code(), 403);
    assert_eq!(Rejection::UpstreamError.status_code(), 502);
    assert_eq!(Rejection::UpstreamUnreachable.status_code(), 502);
}

#[test]
fn rejection_messages() {
    assert_eq!(Rejection::NotFound.message(), "Endpoint Not Found");
    assert_eq!(Rejection::Unauthorized.message(), "Unauthorized: Missing Agent ID");
    assert_eq!(Rejection::QuotaExceeded.message(), "429 Too Many Requests: Quota Exceeded!");
    assert_eq!(Rejection::DatabaseFailure.message(), "Database failure");
    assert_eq!(Rejection::UnreadableBody.message(), "Failed to read body");
    assert_eq!(
        Rejection::SecurityBreach.message(),
        "403 Forbidden: Security Breach Detected (Dynamic DLP Violation)"
    );
    assert_eq!(Rejection::UpstreamError.message(), "Upstream returned an error");
    assert_eq!(
        Rejection::UpstreamUnreachable.message(),
        "502 Bad Gateway: LLM Upstream Unreachable"
    );
}

#[test]
fn success_status_bounds() {
    assert!(!is_success_status(199));
    assert!(is_success_status(200));
    assert!(is_success_status(204));
    assert!(is_success_status(299));
    assert!(!is_success_status(300));
    assert!(!is_success_status(404));
    assert!(!is_success_status(500));
}

#[test]
fn only_post_chat_completions_is_served() {
    assert!(is_chat_completions("POST", CHAT_PATH));
    assert!(!is_chat_completions("GET", CHAT_PATH));
    assert!(!is_chat_completions("POST", "/v1/chat/completions/"));
    assert!(!is_chat_completions("post", CHAT_PATH));
    assert!(!is_chat_completions("POST", "/v1/embeddings"));
}

#[test]
fn header_text_of_visible_ascii() {
    assert_eq!(header_value_text(b"agent-7"), "agent-7");
    assert_eq!(header_value_text(b"a\tb c~"), "a\tb c~");
    assert_eq!(header_value_text(b""), "");
}

#[test]
fn header_text_of_other_bytes_is_empty() {
    assert_eq!(header_value_text(&[b'a', 0x7f]), "");
    assert_eq!(header_value_text("ajan-ü".as_bytes()), "");
    assert_eq!(header_value_text(&[b'a', b'\n']), "");
}

// ------------------------------------------------------------------------ DLP

#[test]
fn breach_found_case_insensitively_in_content() {
    let req = request(&[Some("Hi"), Some("My PASSWORD is hunter2")]);
    assert!(is_breached(&req, &words(&["password"])));
}

#[test]
fn uppercase_blacklist_word_never_matches_lowercased_content() {
    let req = request(&[Some("My PASSWORD is hunter2")]);
    assert!(!is_breached(&req, &words(&["PASSWORD"])));
}

#[test]
fn empty_blacklist_never_breaches() {
    let req = request(&[Some("password api_key secret")]);
    assert!(!is_breached(&req, &words(&[])));
}

#[test]
fn messages_without_text_content_are_not_inspected() {
    let req = request(&[None, Some("all clean")]);
    assert!(!is_breached(&req, &words(&["secret", "api_key"])));
}

#[test]
fn empty_word_blocks_any_text_message() {
    let req = request(&[Some("anything")]);
    assert!(is_breached(&req, &words(&[""])));
    let no_text = request(&[None]);
    assert!(!is_breached(&no_text, &words(&[""])));
}

#[test]
fn more_words_keep_breach() {
    let req = request(&[Some("card 4111")]);
    assert!(is_breached(&req, &words(&["4111"])));
    assert!(is_breached(&req, &words(&["4111", "ssn", "iban"])));
}

#[test]
fn prompt_is_last_message_text() {
    assert_eq!(extract_prompt(&request(&[Some("a"), Some("b")])), "b");
    assert_eq!(extract_prompt(&request(&[Some("a"), None])), "");
    assert_eq!(extract_prompt(&request(&[])), "");
}

// -------------------------------------------------------------------- gateway

#[test]
fn wrong_route_is_not_found() {
    let (g, action) = Gateway::accept("GET", CHAT_PATH, Some(b"agent"));
    assert_eq!(action, Action::Reject(Rejection::NotFound, None));
    assert_eq!(g.stage(), Stage::Finished);
    let (_, action) = Gateway::accept("POST", "/health", None);
    assert_eq!(action, Action::Reject(Rejection::NotFound, None));
}

#[test]
fn missing_agent_header_is_unauthorized() {
    let (g, action) = Gateway::accept("POST", CHAT_PATH, None);
    assert_eq!(action, Action::Reject(Rejection::Unauthorized, None));
    assert_eq!(g.stage(), Stage::Finished);
}

#[test]
fn agent_quota_is_reserved() {
    let (g, action) = Gateway::accept("POST", CHAT_PATH, Some(b"agent-42"));
    assert_eq!(action, Action::ReserveQuota("quota:agent-42".to_string()));
    assert_eq!(g.stage(), Stage::ReservingQuota);
    assert_eq!(g.agent_id(), "agent-42");
    assert_eq!(RESERVED_UNITS, 1);
}

#[test]
fn unreadable_agent_header_becomes_empty_id() {
    let (g, action) = Gateway::accept("POST", CHAT_PATH, Some(&[0xff, 0x41]));
    assert_eq!(action, Action::ReserveQuota("quota:".to_string()));
    assert_eq!(g.agent_id(), "");
}

#[test]
fn quota_store_failure_is_database_failure() {
    let (mut g, _) = Gateway::accept("POST", CHAT_PATH, Some(b"a"));
    assert_eq!(g.quota_reserved(None), Action::Reject(Rejection::DatabaseFailure, None));
    assert_eq!(g.stage(), Stage::Finished);
}

#[test]
fn overdrawn_reservation_is_rejected_and_given_back() {
    for remaining in [-1i64, -2, -1000] {
        let (mut g, _) = Gateway::accept("POST", CHAT_PATH, Some(b"a"));
        assert_eq!(
            g.quota_reserved(Some(remaining)),
            Action::Reject(Rejection::QuotaExceeded, release("a"))
        );
        assert_eq!(g.stage(), Stage::Finished);
    }
}

#[test]
fn reservation_leaving_zero_reads_body() {
    let g = gateway_after_quota("a", 0);
    assert_eq!(g.stage(), Stage::ReadingBody);
}

#[test]
fn two_requests_against_a_balance_of_one() {
    // The store answers the two reservations with successive decrements of 1.
    let (mut first, _) = Gateway::accept("POST", CHAT_PATH, Some(b"a"));
    let (mut second, _) = Gateway::accept("POST", CHAT_PATH, Some(b"a"));
    let mut balance: i64 = 1;
    balance -= RESERVED_UNITS as i64;
    assert_eq!(first.quota_reserved(Some(balance)), Action::ReadBody);
    balance -= RESERVED_UNITS as i64;
    assert_eq!(
        second.quota_reserved(Some(balance)),
        Action::Reject(Rejection::QuotaExceeded, release("a"))
    );
}

#[test]
fn unreadable_body_is_bad_request() {
    let mut g = gateway_after_quota("a", 10);
    assert_eq!(g.body_unreadable(), Action::Reject(Rejection::UnreadableBody, release("a")));
    assert_eq!(g.stage(), Stage::Finished);
}

#[test]
fn unparsed_body_is_forwarded_without_cache() {
    let mut g = gateway_after_quota("a", 10);
    assert_eq!(g.body_read(None), Action::Forward);
    assert_eq!(g.stage(), Stage::Forwarding);
    assert_eq!(g.cache_key(), "");
}

#[test]
fn parsed_body_is_inspected() {
    let mut g = gateway_after_quota("a", 10);
    assert_eq!(g.body_read(Some(request(&[Some("hi")]))), Action::FetchBlacklist);
    assert_eq!(g.stage(), Stage::InspectingPayload);
}

#[test]
fn forbidden_word_is_forbidden() {
    let mut g = gateway_after_quota("a", 10);
    g.body_read(Some(request(&[Some("here is my API_KEY"), Some("thanks")])));
    let action = g.blacklist_fetched(Some(words(&["password", "api_key"])));
    assert_eq!(action, Action::Reject(Rejection::SecurityBreach, release("a")));
    assert_eq!(g.stage(), Stage::Finished);
}

#[test]
fn blacklist_store_failure_lets_payload_through() {
    let mut g = gateway_after_quota("a", 10);
    g.body_read(Some(request(&[Some("my password")])));
    let action = g.blacklist_fetched(None);
    assert_eq!(action, Action::LookupCache(generate_cache_key("my password")));
    assert_eq!(g.stage(), Stage::CheckingCache);
}

#[test]
fn clean_payload_looks_up_prompt_in_cache() {
    let mut g = gateway_after_quota("a", 10);
    g.body_read(Some(request(&[Some("system rules"), Some("hello")])));
    let action = g.blacklist_fetched(Some(words(&["secret"])));
    let key = "cache:2cf24dba5fb0a30e26e83b2ac5b9e29e1b161e5c1fa7425e73043362938b9824";
    assert_eq!(action, Action::LookupCache(key.to_string()));
    assert_eq!(g.cache_key(), key);
}

#[test]
fn empty_prompt_is_forwarded_without_cache() {
    let mut g = gateway_after_quota("a", 10);
    g.body_read(Some(request(&[Some("hello"), None])));
    assert_eq!(g.blacklist_fetched(Some(words(&["x"]))), Action::Forward);
    assert_eq!(g.stage(), Stage::Forwarding);
    assert_eq!(g.cache_key(), "");
}

#[test]
fn cache_hit_serves_cached_answer_free() {
    let mut g = gateway_after_quota("a", 10);
    g.body_read(Some(request(&[Some("hello")])));
    g.blacklist_fetched(Some(words(&[])));
    let action = g.cache_checked(Some("Hi!".to_string()));
    assert_eq!(action, Action::ServeCached(cached_reply_for("\"Hi!\""), release("a")));
    assert_eq!(g.stage(), Stage::Finished);
}

#[test]
fn cache_miss_forwards_and_keeps_key() {
    let mut g = gateway_after_quota("a", 10);
    g.body_read(Some(request(&[Some("hello")])));
    g.blacklist_fetched(Some(words(&[])));
    assert_eq!(g.cache_checked(None), Action::Forward);
    assert_eq!(g.stage(), Stage::Forwarding);
    assert_eq!(g.cache_key(), generate_cache_key("hello"));
}

#[test]
fn unreachable_upstream_is_bad_gateway() {
    let mut g = gateway_after_quota("a", 10);
    g.body_read(None);
    assert_eq!(
        g.upstream_answered(None),
        Action::Reject(Rejection::UpstreamUnreachable, release("a"))
    );
    assert_eq!(g.stage(), Stage::Finished);
}

#[test]
fn failing_upstream_is_upstream_error() {
    for code in [199u16, 301, 404, 500, 503] {
        let mut g = gateway_after_quota("a", 10);
        g.body_read(None);
        assert_eq!(
            g.upstream_answered(Some(code)),
            Action::Reject(Rejection::UpstreamError, release("a"))
        );
    }
}

#[test]
fn successful_upstream_is_relayed_and_metered() {
    let mut g = gateway_after_quota("agent-9", 10);
    g.body_read(Some(request(&[Some("hello")])));
    g.blacklist_fetched(Some(words(&[])));
    g.cache_checked(None);
    assert_eq!(g.upstream_answered(Some(200)), Action::Relay);
    assert_eq!(g.stage(), Stage::Relaying);
    let mut meter = g.meter();
    assert_eq!(g.stage(), Stage::Finished);
    assert_eq!(meter.chunk_count(), 0);
    let settled = meter.on_chunk(b"data: [DONE]\n\n").unwrap();
    assert_eq!(settled.quota_key, "quota:agent-9");
    // One chunk, no usage reported, one unit already reserved.
    assert_eq!(settled.deduct, 0);
    assert!(settled.cache_entry.is_none());
}

// ---------------------------------------------------------------------- meter

fn delta_line(content: &str) -> String {
    format!(
        "data: {{\"id\":\"x\",\"choices\":[{{\"index\":0,\"delta\":{{\"content\":{}}}}}]}}\n\n",
        serde_json::to_string(content).unwrap()
    )
}

fn usage_line(prompt: u64, completion: u64) -> String {
    format!(
        "data: {{\"id\":\"x\",\"choices\":[],\"usage\":{{\"prompt_tokens\":{},\"completion_tokens\":{},\"total_tokens\":{}}}}}\n\n",
        prompt,
        completion,
        prompt + completion
    )
}

#[test]
fn meter_counts_and_collects() {
    let mut meter = StreamMeter::new("agent", "cache:abc", 1);
    assert!(meter.on_chunk(delta_line("Hel").as_bytes()).is_none());
    assert!(meter.on_chunk(delta_line("lo").as_bytes()).is_none());
    assert_eq!(meter.chunk_count(), 2);
    assert_eq!(meter.collected(), "Hello");
    let settled = meter.on_chunk(b"data: [DONE]\n\n").unwrap();
    assert_eq!(settled.quota_key, "quota:agent");
    // No usage reported: three chunks billed, one unit already reserved.
    assert_eq!(settled.deduct, 2);
    let entry = settled.cache_entry.unwrap();
    assert_eq!(entry.key, "cache:abc");
    assert_eq!(entry.value, "Hello");
    assert_eq!(entry.ttl_seconds, CACHE_TTL_SECONDS);
    assert_eq!(CACHE_TTL_SECONDS, 86400);
}

#[test]
fn meter_bills_reported_token_usage() {
    let mut meter = StreamMeter::new("agent", "", 1);
    meter.on_chunk(delta_line("Hi").as_bytes());
    meter.on_chunk(usage_line(12, 30).as_bytes());
    assert_eq!(meter.usage(), Some(42));
    let settled = meter.on_chunk(b"data: [DONE]\n\n").unwrap();
    assert_eq!(settled.deduct, 41);
}

#[test]
fn usage_and_done_in_one_chunk() {
    let mut meter = StreamMeter::new("agent", "", 1);
    let chunk = format!("{}{}data: [DONE]\n\n", delta_line("ok"), usage_line(5, 7));
    let settled = meter.on_chunk(chunk.as_bytes()).unwrap();
    assert_eq!(settled.deduct, 11);
    assert_eq!(meter.collected(), "ok");
}

#[test]
fn last_usage_report_wins() {
    let mut meter = StreamMeter::new("agent", "", 0);
    meter.on_chunk(usage_line(1, 1).as_bytes());
    meter.on_chunk(usage_line(3, 4).as_bytes());
    assert_eq!(meter.on_chunk(b"data: [DONE]\n").unwrap().deduct, 7);
}

#[test]
fn incomplete_usage_is_not_a_report() {
    let mut meter = StreamMeter::new("agent", "", 0);
    meter.on_chunk(b"data: {\"usage\":{\"prompt_tokens\":9}}\n");
    meter.on_chunk(b"data: {\"usage\":{\"prompt_tokens\":-1,\"completion_tokens\":2}}\n");
    meter.on_chunk(
        b"data: {\"usage\":{\"prompt_tokens\":9223372036854775807,\"completion_tokens\":1}}\n",
    );
    assert_eq!(meter.usage(), None);
    // Four chunks, no usage reported.
    assert_eq!(meter.on_chunk(b"data: [DONE]\n").unwrap().deduct, 4);
}

#[test]
fn meter_reads_several_lines_per_chunk() {
    let mut meter = StreamMeter::new("a", "", 1);
    let chunk = format!("{}{}{}", delta_line("one "), delta_line("two "), delta_line("three"));
    assert!(meter.on_chunk(chunk.as_bytes()).is_none());
    assert_eq!(meter.collected(), "one two three");
    assert_eq!(meter.chunk_count(), 1);
}

#[test]
fn meter_strips_carriage_returns() {
    let mut meter = StreamMeter::new("a", "", 1);
    let chunk = delta_line("x").replace("\n", "\r\n");
    meter.on_chunk(chunk.as_bytes());
    assert_eq!(meter.collected(), "x");
    assert!(meter.on_chunk(b"data: [DONE]\r\n\r\n").is_some());
}

#[test]
fn meter_reads_last_line_without_newline() {
    let mut meter = StreamMeter::new("a", "", 1);
    let chunk = delta_line("tail");
    meter.on_chunk(chunk.trim_end().as_bytes());
    assert_eq!(meter.collected(), "tail");
    assert!(meter.on_chunk(b"data: [DONE]").is_some());
}

#[test]
fn meter_ignores_non_data_lines_and_bad_json() {
    let mut meter = StreamMeter::new("a", "", 1);
    let chunk = format!(
        ": comment\nevent: message\ndata: not json\ndata:{}\ndata: {{\"choices\":[]}}\n{}",
        "{\"choices\":[{\"delta\":{\"content\":\"no space\"}}]}",
        delta_line("kept")
    );
    assert!(meter.on_chunk(chunk.as_bytes()).is_none());
    assert_eq!(meter.collected(), "no spacekept");
}

#[test]
fn only_the_done_line_ends_the_stream() {
    let mut meter = StreamMeter::new("a", "cache:k", 1);
    assert!(meter.on_chunk(delta_line("DONE deal").as_bytes()).is_none());
    let quoted = "data: {\"choices\":[{\"delta\":{\"content\":\"[DONE]\"}}]}\n";
    assert!(meter.on_chunk(quoted.as_bytes()).is_none());
    assert!(meter.on_chunk(b"data:  [DONE]\n").is_none());
    assert_eq!(meter.collected(), "DONE deal");
    assert!(meter.on_chunk(b"data: [DONE]\n").is_some());
}

#[test]
fn a_stream_is_settled_once() {
    let mut meter = StreamMeter::new("a", "", 1);
    assert!(meter.on_chunk(b"data: [DONE]\n\n").is_some());
    assert!(meter.on_chunk(b"\n").is_none());
    assert!(meter.on_chunk(b"data: [DONE]\n\n").is_none());
    assert_eq!(meter.chunk_count(), 3);
}

#[test]
fn no_cache_entry_without_key_or_answer() {
    let mut with_answer_no_key = StreamMeter::new("a", "", 1);
    with_answer_no_key.on_chunk(delta_line("hi").as_bytes());
    assert!(with_answer_no_key.on_chunk(b"data: [DONE]").unwrap().cache_entry.is_none());

    let mut with_key_no_answer = StreamMeter::new("a", "cache:k", 1);
    assert!(with_key_no_answer.on_chunk(b"data: [DONE]").unwrap().cache_entry.is_none());
}

#[test]
fn meter_decodes_invalid_utf8_lossily() {
    let mut meter = StreamMeter::new("a", "", 1);
    let mut chunk = vec![0xffu8, b'\n'];
    chunk.extend_from_slice(delta_line("ok").as_bytes());
    chunk.extend_from_slice(b"data: [DONE]");
    assert!(meter.on_chunk(&chunk).is_some());
    assert_eq!(meter.collected(), "ok");
}

#[test]
fn metering_split_stream_is_concatenation() {
    let chunks = [delta_line("a"), delta_line("b"), delta_line("c")];
    let mut whole = StreamMeter::new("x", "", 1);
    let joined = chunks.concat();
    whole.on_chunk(joined.as_bytes());
    let mut split = StreamMeter::new("x", "", 1);
    for c in &chunks {
        split.on_chunk(c.as_bytes());
    }
    assert_eq!(whole.collected(), split.collected());
    assert_eq!(split.chunk_count(), 3);
    assert_eq!(whole.chunk_count(), 1);
}

#[test]
fn answer_cached_for_prompt_is_found_again() {
    let mut first = gateway_after_quota("agent-1", 5);
    first.body_read(Some(request(&[Some("context"), Some("Explain SSE")])));
    first.blacklist_fetched(Some(words(&[])));
    first.cache_checked(None);
    first.upstream_answered(Some(200));
    let mut meter = first.meter();
    meter.on_chunk(delta_line("Server-sent events.").as_bytes());
    let entry = meter.on_chunk(b"data: [DONE]\n\n").unwrap().cache_entry.unwrap();

    let mut later = gateway_after_quota("agent-2", 5);
    later.body_read(Some(request(&[Some("other context"), Some("Explain SSE")])));
    let action = later.blacklist_fetched(None);
    assert_eq!(action, Action::LookupCache(entry.key.clone()));
    assert_eq!(
        later.cache_checked(Some(entry.value)),
        Action::ServeCached(cached_reply_for("\"Server-sent events.\""), release("agent-2"))
    );
}

#[test]
fn done_without_space_ends_the_stream() {
    let mut meter = StreamMeter::new("agent", "cache:k", 1);
    meter.on_chunk(delta_line("Hi").as_bytes());
    meter.on_chunk(usage_line(3, 4).as_bytes());
    let settled = meter.on_chunk(b"data:[DONE]\n\n").unwrap();
    assert_eq!(settled.deduct, 6);
    assert_eq!(settled.cache_entry.unwrap().value, "Hi");
    assert!(meter.on_chunk(b"data: [DONE]\n").is_none());
}

#[test]
fn data_without_space_is_read() {
    let mut meter = StreamMeter::new("agent", "", 0);
    meter.on_chunk(b"data:{\"choices\":[{\"delta\":{\"content\":\"x\"}}]}\n");
    meter.on_chunk(b"data:{\"usage\":{\"prompt_tokens\":2,\"completion_tokens\":3}}\n");
    assert_eq!(meter.collected(), "x");
    assert_eq!(meter.usage(), Some(5));
}

#[test]
fn large_usage_up_to_signed_limit_is_billed() {
    let mut meter = StreamMeter::new("agent", "", 1);
    meter.on_chunk(usage_line(4294967296, 2).as_bytes());
    assert_eq!(meter.on_chunk(b"data: [DONE]\n").unwrap().deduct, 4294967297);
}

#[test]
fn unfinished_stream_gives_reservation_back() {
    let mut meter = StreamMeter::new("agent", "cache:k", 1);
    meter.on_chunk(delta_line("partial").as_bytes());
    let released = meter.finish().unwrap();
    assert_eq!(released.quota_key, "quota:agent");
    assert_eq!(released.deduct, -1);
    assert!(released.cache_entry.is_none());
    assert!(meter.finish().is_none());
    assert!(meter.on_chunk(b"data: [DONE]\n").is_none());
}

#[test]
fn finished_stream_is_not_released_again() {
    let mut meter = StreamMeter::new("agent", "", 1);
    assert!(meter.on_chunk(b"data: [DONE]\n").is_some());
    assert!(meter.finish().is_none());
}
