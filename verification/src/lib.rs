//! Token compression for Anthropic Messages API requests.
pub mod cache;
pub mod config;
pub mod count_laws;
pub mod hashing;
pub mod json;
pub mod metrics;
pub mod patterns;
pub mod pipeline;
pub mod proxy;
pub mod proxy_laws;
pub mod session;
pub mod session_laws;
pub mod stream_laws;
pub mod stream_reassemble;
pub mod stream_round_trip;
pub mod text;
pub mod text_laws;
pub mod tokenizer;
pub mod tui;
