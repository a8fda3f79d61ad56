//! A boot-time guard that keeps a client patcher in step with the
//! application it patches.
//!
//! - `config` reads the recorded versions out of the patcher's configuration.
//! - `cache` holds points in time, the freshness window and the record of the
//!   last successful run.
//! - `guard` decides what a run does and steps through it.
//! - `settings` reads the command timeout; `log` writes the log's lines.
//!
//! Finding files, running programs and reading the clock are left to the
//! caller, which hands the results in as plain values.

pub mod text;
pub mod config;
pub mod cache;
pub mod guard;
pub mod settings;
pub mod log;
