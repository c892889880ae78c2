//! The pipeline's sequencing, as a state machine.
//!
//! The streaming loop itself performs I/O and lives with the caller; what it
//! decides is here. A run starts in `Init`, enters `Streaming` once the
//! column mapping is resolved, loops one record per step, and ends in `Done`
//! on a clean end of stream or in `Failed` on the first error — from any
//! state. Exactly one flush is requested, on the clean end; an error aborts
//! with no flush, so whatever was already written stays as it is.

use vstd::prelude::*;

verus! {

/// Where a run stands.
#[derive(Debug, Clone, Copy, PartialEq, Eq, Structural)]
pub enum PipelineState {
    /// The column mapping is still being resolved; nothing streams yet.
    Init,
    /// Records flow, one in flight at a time.
    Streaming,
    /// The stream ended cleanly and the writer was told to flush.
    Done,
    /// A fatal error ended the run; no flush follows.
    Failed,
}

/// What the caller observed since the last step.
#[derive(Debug, Clone, Copy, PartialEq, Eq, Structural)]
pub enum PipelineEvent {
    /// The column mapping (and, for name-based reorder, the header) is
    /// resolved.
    Resolved,
    /// One record was read, projected and written.
    RecordDone,
    /// The reader signalled a clean end of stream.
    EndOfStream,
    /// A read, parse, resolution, projection or write error surfaced.
    ErrorRaised,
}

/// What the caller must do after a step.
#[derive(Debug, Clone, Copy, PartialEq, Eq, Structural)]
pub enum PipelineAction {
    /// Keep going: read the next record (or, from `Init`, start reading).
    Proceed,
    /// Flush the writer once and stop: the run succeeded.
    Flush,
    /// Stop without flushing: the run failed.
    Abort,
}

/// The transition function of the pipeline. An error fails the run from any
/// state; an event that its state cannot produce also fails the run rather
/// than streaming on.
pub fn pipeline_step(state: PipelineState, event: PipelineEvent) -> (r: (
    PipelineState,
    PipelineAction,
))
    ensures
        r == match (state, event) {
            (PipelineState::Init, PipelineEvent::Resolved) => (
                PipelineState::Streaming,
                PipelineAction::Proceed,
            ),
            (PipelineState::Streaming, PipelineEvent::RecordDone) => (
                PipelineState::Streaming,
                PipelineAction::Proceed,
            ),
            (PipelineState::Streaming, PipelineEvent::EndOfStream) => (
                PipelineState::Done,
                PipelineAction::Flush,
            ),
            _ => (PipelineState::Failed, PipelineAction::Abort),
        },
        r.0 == PipelineState::Done ==> r.1 == PipelineAction::Flush,
        r.0 == PipelineState::Failed ==> r.1 == PipelineAction::Abort,
        event == PipelineEvent::ErrorRaised ==> r.0 == PipelineState::Failed,
{
    match (state, event) {
        (PipelineState::Init, PipelineEvent::Resolved) => (
            PipelineState::Streaming,
            PipelineAction::Proceed,
        ),
        (PipelineState::Streaming, PipelineEvent::RecordDone) => (
            PipelineState::Streaming,
            PipelineAction::Proceed,
        ),
        (PipelineState::Streaming, PipelineEvent::EndOfStream) => (
            PipelineState::Done,
            PipelineAction::Flush,
        ),
        _ => (PipelineState::Failed, PipelineAction::Abort),
    }
}

} // verus!
