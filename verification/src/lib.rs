//! A verified core for a speed-radar capture pipeline.
//!
//! The crate models the host-side half of a radar installation: an actor
//! runtime with mailboxes, monitors and reference-counted shutdown, and the
//! infraction pipeline that runs on it — log-line parsing, the trigger
//! policy with its cooldown window, evidence bookkeeping, the uploader's
//! retry discipline, and the configuration/telemetry bridge. Everything
//! that decides or computes lives here with a contract; the thin shell that
//! performs I/O (serial port, camera, disk, network) drives these functions
//! from outside.

pub mod actor;
pub mod arith;
pub mod bridge;
pub mod clock;
pub mod command;
pub mod config;
pub mod evidence;
pub mod fake;
pub mod json;
pub mod lex;
pub mod numtext;
pub mod reader;
pub mod recorder;
pub mod target;
pub mod uploader;
