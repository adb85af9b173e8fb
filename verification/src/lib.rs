//! Launching detached command-line AI agents and normalizing their streamed
//! output.
//!
//! The crate covers the lifecycle of one agent run: building a shell-safe
//! launch command, registering the spawned process for cooperative
//! cancellation, tailing the append-only log the agent writes, normalizing
//! each backend's JSON lines into one canonical event stream, and deciding
//! from file content, process liveness and wall-clock time when the run is
//! complete, cancelled, or stalled.

pub mod args;
pub mod codex;
pub mod escape;
pub mod events;
pub mod json;
pub mod launch;
pub mod models;
pub mod normalize;
pub mod server_status;
pub mod registry;
pub mod strutil;
pub mod supervise;
pub mod tail;
