//! Verified core of an LLM API gateway: routing, rate and concurrency
//! limiting, request rectification rules, SSE framing, the Responses ⇄
//! Chat conversion (requests, responses and streams), and session
//! credentials.
pub mod text;
pub mod table;
pub mod order;
pub mod ratelimit;
pub mod routing;
pub mod rectify;
pub mod json;
pub mod proxy;
pub mod bridge;
pub mod sse;
pub mod tool_ctx;
pub mod tool_media;
pub mod system_head;
pub mod codec;
pub mod decode;
pub mod prime;
pub mod history;
pub mod dto;
pub mod convert_resp;
pub mod session;
pub mod usage;
pub mod convert_req;
pub mod state;
pub mod stream;
pub mod stream_state;
