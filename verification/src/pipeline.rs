//! The pipeline orchestrator's state machine.
//!
//! A run walks `Start -> Loaded -> Deduplicated -> {ExtractionSkipped |
//! Extracted} -> Reconciled -> Pruned -> Finished`.  From `Deduplicated`
//! the run skips extraction entirely — no oracle call is made — exactly
//! when both output files already exist and the overwrite flag is unset.
//! A fatal fault in any state aborts the run without advancing further,
//! as does an event that does not belong to the current state.  The
//! caller performs the I/O of each stage and reports the corresponding
//! event.

use vstd::prelude::*;

verus! {

/// The stages of one pipeline run.
#[derive(Clone, Copy, Debug, PartialEq, Eq, Structural)]
pub enum PipelineState {
    Start,
    Loaded,
    Deduplicated,
    ExtractionSkipped,
    Extracted,
    Reconciled,
    Pruned,
    Finished,
    Aborted,
}

/// What the caller reports after performing a stage's work.
#[derive(Clone, Copy, Debug, PartialEq, Eq, Structural)]
pub enum PipelineEvent {
    RawLoaded,
    Deduped,
    OutputsChecked { success_exists: bool, failure_exists: bool, overwrite: bool },
    ExtractionFinished,
    ReconciledLoaded,
    PrunedDone,
    FinalWritten,
    Fatal,
}

/// Whether extraction may be skipped: both output files exist already
/// and the caller did not ask to overwrite them.
pub open spec fn skip_spec(overwrite: bool, success_exists: bool, failure_exists: bool) -> bool {
    !overwrite && success_exists && failure_exists
}

/// The transition function of the run.
pub open spec fn next_state(s: PipelineState, e: PipelineEvent) -> PipelineState {
    match (s, e) {
        (PipelineState::Start, PipelineEvent::RawLoaded) => PipelineState::Loaded,
        (PipelineState::Loaded, PipelineEvent::Deduped) => PipelineState::Deduplicated,
        (
            PipelineState::Deduplicated,
            PipelineEvent::OutputsChecked { success_exists, failure_exists, overwrite },
        ) => if skip_spec(overwrite, success_exists, failure_exists) {
            PipelineState::ExtractionSkipped
        } else {
            PipelineState::Deduplicated
        },
        (PipelineState::Deduplicated, PipelineEvent::ExtractionFinished) => (
        PipelineState::Extracted),
        (PipelineState::ExtractionSkipped, PipelineEvent::ReconciledLoaded) => (
        PipelineState::Reconciled),
        (PipelineState::Extracted, PipelineEvent::ReconciledLoaded) => PipelineState::Reconciled,
        (PipelineState::Reconciled, PipelineEvent::PrunedDone) => PipelineState::Pruned,
        (PipelineState::Pruned, PipelineEvent::FinalWritten) => PipelineState::Finished,
        _ => PipelineState::Aborted,
    }
}

/// Decides whether a fresh extraction run is needed, or the cached
/// output files may be reused.
pub fn decide_extraction(overwrite: bool, success_exists: bool, failure_exists: bool) -> (skip:
    bool)
    ensures
        skip == skip_spec(overwrite, success_exists, failure_exists),
{
    !overwrite && success_exists && failure_exists
}

/// Advances the run by one reported event.
pub fn advance(s: PipelineState, e: PipelineEvent) -> (r: PipelineState)
    ensures
        r == next_state(s, e),
{
    match (s, e) {
        (PipelineState::Start, PipelineEvent::RawLoaded) => PipelineState::Loaded,
        (PipelineState::Loaded, PipelineEvent::Deduped) => PipelineState::Deduplicated,
        (
            PipelineState::Deduplicated,
            PipelineEvent::OutputsChecked { success_exists, failure_exists, overwrite },
        ) => {
            if decide_extraction(overwrite, success_exists, failure_exists) {
                PipelineState::ExtractionSkipped
            } else {
                PipelineState::Deduplicated
            }
        },
        (PipelineState::Deduplicated, PipelineEvent::ExtractionFinished) => {
            PipelineState::Extracted
        },
        (PipelineState::ExtractionSkipped, PipelineEvent::ReconciledLoaded) => {
            PipelineState::Reconciled
        },
        (PipelineState::Extracted, PipelineEvent::ReconciledLoaded) => PipelineState::Reconciled,
        (PipelineState::Reconciled, PipelineEvent::PrunedDone) => PipelineState::Pruned,
        (PipelineState::Pruned, PipelineEvent::FinalWritten) => PipelineState::Finished,
        _ => PipelineState::Aborted,
    }
}

/// Resumption: with both output files present and no overwrite flag, the
/// run leaves `Deduplicated` for `ExtractionSkipped` — a state whose only
/// onward step is loading the reconciled file — so no oracle request is
/// ever issued and the cached output files are never rewritten.
pub proof fn lemma_resumption(e: PipelineEvent)
    ensures
        next_state(
            PipelineState::Deduplicated,
            PipelineEvent::OutputsChecked {
                success_exists: true,
                failure_exists: true,
                overwrite: false,
            },
        ) == PipelineState::ExtractionSkipped,
        next_state(PipelineState::ExtractionSkipped, e) == PipelineState::Reconciled || next_state(
            PipelineState::ExtractionSkipped,
            e,
        ) == PipelineState::Aborted,
{
}

} // verus!
