//! Decision core of an AI gateway that sits between agents and a chat model:
//! it identifies the agent, refuses agents whose quota is used up, inspects
//! payloads for forbidden words, answers repeated prompts from a cache, and
//! meters the streamed answer so the agent can be billed per chunk.

pub mod cache;
pub mod dlp;
pub mod embedding;
pub mod external;
pub mod gateway;
pub mod http;
pub mod json;
pub mod stream;
pub mod text;

pub use cache::{cached_reply_body, generate_cache_key};
pub use dlp::{extract_prompt, is_breached, ChatMessage, ChatRequest};
pub use embedding::embedding_request_body;
pub use gateway::{Action, Gateway, QuotaRelease, Stage, RESERVED_UNITS};
pub use http::{header_value_text, is_chat_completions, is_success_status, Rejection};
pub use stream::{CacheEntry, Settlement, StreamMeter, CACHE_TTL_SECONDS, MAX_USAGE};
