//! The phases that a height goes through, as a function from the phase and
//! what happened to the next phase and what to do.
//!
//! A height collects transactions until its producer is elected, is
//! assembled, proved, attested and finalized. Whoever runs the pipeline does
//! the waiting and the work; this module decides. A proof that is late does
//! not hold the height up: the block goes out with its receipt pending. A
//! height that cannot be assembled or proved, or that is not attested in
//! time, is skipped, and its producer is penalized. Only a divergence of the
//! state after finalization stops the pipeline.

use vstd::prelude::*;

verus! {

/// Where a height stands.
#[derive(Debug, Clone, Copy, PartialEq, Eq, Structural)]
pub enum PipelinePhase {
    Collecting,
    Assembling,
    Proving,
    Attesting,
    Finalizing,
    Finalized,
    /// The state has diverged; recovery has to rebuild it.
    Halted,
}

/// What happened.
#[derive(Debug, Clone, Copy, PartialEq, Eq, Structural)]
pub enum PipelineEvent {
    /// The producer of the height has been elected.
    ProducerElected,
    /// The block has been assembled.
    Assembled,
    /// The block could not be assembled.
    AssemblyFailed,
    /// The proof is there.
    ProofReady,
    /// The block time ran out before the proof was there.
    ProofDeadline,
    /// The proving backend failed.
    ProvingFailed,
    /// The attestations have reached the finality threshold.
    ThresholdReached,
    /// The time for attestations ran out below the threshold.
    AttestationDeadline,
    /// The block has been applied to the state and appended to the chain.
    Applied,
    /// The state after applying the block is not the one it was validated for.
    Diverged,
    /// The next height begins.
    NextHeight,
}

/// What to do.
#[derive(Debug, Clone, Copy, PartialEq, Eq, Structural)]
pub enum PipelineAction {
    /// Nothing: the event is not one that the phase waits for.
    Ignore,
    /// Assemble the block from the queue.
    Assemble,
    /// Ask the backend for the proof of the block.
    Prove,
    /// Broadcast the header with the receipt attached, and collect attestations.
    Attest,
    /// Mark the receipt pending, broadcast the header, and collect
    /// attestations; the receipt is folded in when it arrives.
    AttestWithPendingReceipt,
    /// Apply the block and feed its receipt to the composer.
    Finalize,
    /// Raise the producer's score and go on to the next height.
    RewardProducer,
    /// Lower the producer's score and give the height up.
    PenalizeAndSkip,
    /// Stop applying blocks and start recovery.
    Recover,
    /// Go back to collecting transactions.
    Collect,
}

/// The phase and the action that follow from a phase and an event.
pub open spec fn step_spec(phase: PipelinePhase, event: PipelineEvent) -> (
    PipelinePhase,
    PipelineAction,
) {
    match (phase, event) {
        (PipelinePhase::Collecting, PipelineEvent::ProducerElected) => (
            PipelinePhase::Assembling,
            PipelineAction::Assemble,
        ),
        (PipelinePhase::Assembling, PipelineEvent::Assembled) => (
            PipelinePhase::Proving,
            PipelineAction::Prove,
        ),
        (PipelinePhase::Assembling, PipelineEvent::AssemblyFailed) => (
            PipelinePhase::Collecting,
            PipelineAction::PenalizeAndSkip,
        ),
        (PipelinePhase::Proving, PipelineEvent::ProofReady) => (
            PipelinePhase::Attesting,
            PipelineAction::Attest,
        ),
        (PipelinePhase::Proving, PipelineEvent::ProofDeadline) => (
            PipelinePhase::Attesting,
            PipelineAction::AttestWithPendingReceipt,
        ),
        (PipelinePhase::Proving, PipelineEvent::ProvingFailed) => (
            PipelinePhase::Collecting,
            PipelineAction::PenalizeAndSkip,
        ),
        (PipelinePhase::Attesting, PipelineEvent::ThresholdReached) => (
            PipelinePhase::Finalizing,
            PipelineAction::Finalize,
        ),
        (PipelinePhase::Attesting, PipelineEvent::AttestationDeadline) => (
            PipelinePhase::Collecting,
            PipelineAction::PenalizeAndSkip,
        ),
        (PipelinePhase::Finalizing, PipelineEvent::Applied) => (
            PipelinePhase::Finalized,
            PipelineAction::RewardProducer,
        ),
        (PipelinePhase::Finalizing, PipelineEvent::Diverged) => (
            PipelinePhase::Halted,
            PipelineAction::Recover,
        ),
        (PipelinePhase::Finalized, PipelineEvent::NextHeight) => (
            PipelinePhase::Collecting,
            PipelineAction::Collect,
        ),
        _ => (phase, PipelineAction::Ignore),
    }
}

/// Takes an event in a phase: gives the next phase and what to do.
pub fn step(phase: PipelinePhase, event: PipelineEvent) -> (r: (PipelinePhase, PipelineAction))
    ensures
        r == step_spec(phase, event),
{
    match (phase, event) {
        (PipelinePhase::Collecting, PipelineEvent::ProducerElected) => (
            PipelinePhase::Assembling,
            PipelineAction::Assemble,
        ),
        (PipelinePhase::Assembling, PipelineEvent::Assembled) => (
            PipelinePhase::Proving,
            PipelineAction::Prove,
        ),
        (PipelinePhase::Assembling, PipelineEvent::AssemblyFailed) => (
            PipelinePhase::Collecting,
            PipelineAction::PenalizeAndSkip,
        ),
        (PipelinePhase::Proving, PipelineEvent::ProofReady) => (
            PipelinePhase::Attesting,
            PipelineAction::Attest,
        ),
        (PipelinePhase::Proving, PipelineEvent::ProofDeadline) => (
            PipelinePhase::Attesting,
            PipelineAction::AttestWithPendingReceipt,
        ),
        (PipelinePhase::Proving, PipelineEvent::ProvingFailed) => (
            PipelinePhase::Collecting,
            PipelineAction::PenalizeAndSkip,
        ),
        (PipelinePhase::Attesting, PipelineEvent::ThresholdReached) => (
            PipelinePhase::Finalizing,
            PipelineAction::Finalize,
        ),
        (PipelinePhase::Attesting, PipelineEvent::AttestationDeadline) => (
            PipelinePhase::Collecting,
            PipelineAction::PenalizeAndSkip,
        ),
        (PipelinePhase::Finalizing, PipelineEvent::Applied) => (
            PipelinePhase::Finalized,
            PipelineAction::RewardProducer,
        ),
        (PipelinePhase::Finalizing, PipelineEvent::Diverged) => (
            PipelinePhase::Halted,
            PipelineAction::Recover,
        ),
        (PipelinePhase::Finalized, PipelineEvent::NextHeight) => (
            PipelinePhase::Collecting,
            PipelineAction::Collect,
        ),
        _ => (phase, PipelineAction::Ignore),
    }
}

/// How far a phase is along the height.
pub open spec fn progress(phase: PipelinePhase) -> int {
    match phase {
        PipelinePhase::Collecting => 0,
        PipelinePhase::Assembling => 1,
        PipelinePhase::Proving => 2,
        PipelinePhase::Attesting => 3,
        PipelinePhase::Finalizing => 4,
        PipelinePhase::Finalized => 5,
        PipelinePhase::Halted => 6,
    }
}

/// A step either leaves the phase, moves it on by one, or gives the height
/// up and goes back to collecting; a late proof moves the height on as a
/// proof does; only a divergence halts, and nothing leaves a halt.
pub proof fn lemma_pipeline_steps(phase: PipelinePhase, event: PipelineEvent)
    ensures
        ({
            let (next, action) = step_spec(phase, event);
            &&& next == phase || progress(next) == progress(phase) + 1 || next
                == PipelinePhase::Collecting || next == PipelinePhase::Halted
            &&& action == PipelineAction::Ignore <==> next == phase
            &&& next == PipelinePhase::Halted && phase != PipelinePhase::Halted ==> event
                == PipelineEvent::Diverged
            &&& phase == PipelinePhase::Halted ==> next == PipelinePhase::Halted
            &&& phase == PipelinePhase::Proving && event == PipelineEvent::ProofDeadline ==> next
                == step_spec(phase, PipelineEvent::ProofReady).0
        }),
{
}

} // verus!
