//! The progress stream a sync pass emits: at-most-once, emission-ordered
//! notifications the interactive surface drains independently.

use vstd::prelude::*;

verus! {

/// One notification on the progress stream.
#[derive(Debug, Clone)]
pub enum SyncEvent {
    Started { timestamp: String },
    Progress { source: SyncSource, status: ProgressStatus, message: String },
    SourceCompleted { source: SyncSource, new_events: usize, updated_events: usize },
    Completed { total_new: usize, total_updated: usize, duration_ms: u128 },
    Cancelled { timestamp: String },
    Failed { source: Option<SyncSource>, error: String },
}

/// The source a notification speaks of.
#[derive(Debug, Clone, Copy, PartialEq, Eq, Structural)]
pub enum SyncSource {
    Calendar,
    Git,
    Browser,
}

/// How far a source's phase has come.
#[derive(Debug, Clone, Copy, PartialEq, Eq, Structural)]
pub enum ProgressStatus {
    Starting,
    InProgress,
    Completed,
    Failed,
}

} // verus!
