//! Structured pipeline events for progress reporting and observability.
//!
//! Each event carries a monotonic timestamp and a typed payload describing
//! what happened. Counters are cumulative, so a metrics scraper only needs
//! the latest one of each kind.

use vstd::prelude::*;
use std::time::Instant;

verus! {

/// The monotonic clock reading an event carries.
#[verifier::external_type_specification]
#[verifier::external_body]
pub struct ExInstant(std::time::Instant);

/// `Clone` of a clock reading, which events derive; nothing is claimed of
/// the copy.
pub assume_specification[ <std::time::Instant as Clone>::clone ](i: &Instant) -> Instant;

/// Reads the monotonic clock with `std::time::Instant::now`. Nothing is
/// claimed of the reading: it depends on when the call is made.
#[verifier::external_body]
fn clock_now() -> (r: Instant) {
    Instant::now()
}

/// A structured event emitted by the pipeline during execution.
#[derive(Debug, Clone)]
pub struct PipelineEvent {
    /// When this event occurred (monotonic clock).
    pub timestamp: Instant,
    /// What happened.
    pub kind: PipelineEventKind,
}

/// The kind of pipeline event that occurred.
///
/// Each variant carries a cumulative `count`: the total number of items
/// processed so far, not a delta.
#[derive(Debug, Clone)]
#[non_exhaustive]
pub enum PipelineEventKind {
    /// Compressed packets read from the demuxer.
    PacketsRead { count: u64 },
    /// Frames decoded from compressed packets.
    FramesDecoded { count: u64 },
    /// Frames encoded into compressed packets.
    FramesEncoded { count: u64 },
    /// Compressed packets written to the muxer.
    PacketsWritten { count: u64 },
    /// A non-fatal error occurred during pipeline execution.
    Error { message: String },
}

impl PipelineEvent {
    /// Creates an event of the given kind, stamped with the current time.
    pub fn new(kind: PipelineEventKind) -> (r: PipelineEvent)
        ensures
            r.kind == kind,
    {
        PipelineEvent { timestamp: clock_now(), kind }
    }
}

} // verus!
