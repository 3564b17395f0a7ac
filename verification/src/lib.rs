//! Verified decision logic for streaming Chat Completions responses over SSE.
pub mod chunk;
pub mod error;
pub mod events;
pub mod text;
pub mod accumulator;
pub mod order;
pub mod stream;
pub mod laws;
