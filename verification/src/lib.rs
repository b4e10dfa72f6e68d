//! A watch-and-diff capture engine: it reconciles a desired set of watched
//! file paths against the currently watched set, captures full content
//! snapshots when a path enters the watch set, records binary diffs against
//! the prior snapshot when a watched path changes, and answers queries about
//! the watch state and the recorded history.
//!
//! The engine is driven through a single ordered event bus: every
//! state-changing event is handled by exactly one consumer, so all state
//! transitions are serial. The host process owns the channels, the OS file
//! watcher and the durable store; this crate owns the state, the decisions
//! and the capture pipeline.

pub mod correlator;
pub mod engine;
pub mod events;
pub mod models;
pub mod patch;
pub mod reconcile;
pub mod store;

use vstd::prelude::*;

verus! {

} // verus!
