//! Backend session manager for a terminal-panel application.
//!
//! The crate owns a table of live pseudo-terminal sessions, builds the
//! shell command line that each session runs, decides what the per-session
//! relay loop emits, and persists a list of named terminal instances as a
//! JSON document with a proved round trip.

pub mod codec;
pub mod pty;
pub mod shellcmd;
pub mod state;
pub mod strutil;
