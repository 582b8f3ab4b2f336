//! The frontends' pure parts: the line REPL's input handling and history
//! listing, the terminal UI's command routing, small renderings and the
//! closing of a failed turn, the plain-text transcript, and the replay of a
//! loaded history as transcript items.
pub mod repl;
pub mod tui;
pub mod args;
pub mod render;
pub mod transcript;
