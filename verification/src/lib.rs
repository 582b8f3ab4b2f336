//! slimcode: the verified core of a coding-agent command line tool.
//!
//! The crate holds the logic of the agent's tools (the text `edit` engine and
//! line slicing), the message model and its wire mapping, stream parsing,
//! configuration resolution, session metadata, slash-command prediction and
//! the line-based prompt helpers. Terminal, network and file I/O live in the
//! application crate around it.
pub mod text;
pub mod agent;
pub mod commands;
pub mod ai;
pub mod app;
pub mod cli;
