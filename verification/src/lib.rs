//! A Steam launch-option shim, as a verified library.
//!
//! Steam lets a game's "Launch options" wrap the real invocation: the shim
//! receives the original command as a pass-through tail after `--`, may
//! substitute a different executable, overlays extra environment variables,
//! and forwards the child's exit code. The decision logic lives here; the
//! thin process-and-file shell around it is ordinary, unverified code.

pub mod args;
pub mod envs;
pub mod launch;
