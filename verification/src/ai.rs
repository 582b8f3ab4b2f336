//! The LLM provider layer: the wire message model, provider configuration,
//! streaming deltas and cancellation, the mapping between messages and the
//! OpenAI-compatible wire shapes, SSE framing, and the pieces of the
//! provider's read loop that decide rather than do I/O.
pub mod config;
pub mod llm;
pub mod message;
pub mod provider;
pub mod wire;
