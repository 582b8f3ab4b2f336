//! Application layer: configuration resolution and the `config.toml` merge,
//! session metadata and storage naming, the system prompt and its
//! environment section, context compaction, the records a session log
//! receives and the replay of a log, and the session quota.
pub mod config;
pub mod session;
pub mod context;
pub mod compaction;
pub mod replay;
pub mod quota;
pub mod log;
pub mod config_file;
