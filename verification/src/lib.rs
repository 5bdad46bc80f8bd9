//! Brackets an interactive shell session with per-profile setup and teardown
//! hooks.  A profile is a named pair of command lists (`before`, `after`)
//! loaded from a TOML document; a run executes every profile's `before` hook
//! in order, the shell once, and every `after` hook in order, stopping a
//! phase at its first failing hook.

pub mod config;
pub mod errs;
pub mod load;
pub mod runner;
pub mod session;
pub mod strutil;
