//! Keyboard-binding resolution and session-name resolution.
//!
//! The crate parses textual key specifications into structured key records,
//! maintains a table from key records to abstract actions, builds that table
//! from a string-keyed configuration while collecting diagnostics, and
//! resolves a desired session name against the set of existing names.

pub mod chars;
pub mod config;
pub mod display;
pub mod keybinds;
pub mod keys;
pub mod laws;
pub mod parse;
pub mod session;
