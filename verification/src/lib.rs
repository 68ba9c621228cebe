//! Core of a personal activity aggregator: source adapters that turn raw
//! calendar, version-control and browser records into one canonical event
//! shape, an idempotent upsert store keyed by (event type, external id), a
//! cancellable multi-phase sync orchestrator, and a rule engine that assigns
//! projects to stored events.

pub mod browser;
pub mod calendar;
pub mod db;
pub mod git;
pub mod orchestrator;
pub mod sync;
pub mod sync_events;
pub mod text;
pub mod timefmt;

use vstd::prelude::*;

verus! {

/// The error kinds the core reports.
#[derive(Debug, Clone, Copy, PartialEq, Eq, Structural)]
pub enum CoreError {
    /// An authorization the host system refused.
    PermissionDenied,
    /// A missing configuration, or an unreachable external file or path.
    SourceUnavailable,
    /// A malformed timestamp or URL.
    ParseError,
    /// A store constraint violation or lock failure.
    StoreError,
    /// A malformed organization name.
    ValidationError,
}

} // verus!
