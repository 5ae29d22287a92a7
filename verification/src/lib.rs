//! nowayprompt — a small Wayland prompt utility with a TTY fallback.
//!
//! The library holds the protocol, configuration, frontend-decision and
//! rendering-layout logic, each function stated by a contract.

pub mod command;
pub mod config;
pub mod frontend;
pub mod text;
pub mod protocol;
pub mod secret;
