use zk_sac_engine::consensus::attestations::AttestationPool;
use zk_sac_engine::consensus::pipeline::{step, PipelineAction, PipelineEvent, PipelinePhase};
use zk_sac_engine::types::{Address, SignatureType, ValidatorSignature};

fn attestation(id: u8, stake: u64) -> ValidatorSignature {
    ValidatorSignature {
        validator_address: Address::new(id),
        stake_weight: stake,
        signature: vec![id; 64],
        sig_type: SignatureType::Ed25519,
    }
}

#[test]
fn a_height_runs_through_its_phases() {
    let run = [
        (PipelineEvent::ProducerElected, PipelinePhase::Assembling, PipelineAction::Assemble),
        (PipelineEvent::Assembled, PipelinePhase::Proving, PipelineAction::Prove),
        (PipelineEvent::ProofReady, PipelinePhase::Attesting, PipelineAction::Attest),
        (PipelineEvent::ThresholdReached, PipelinePhase::Finalizing, PipelineAction::Finalize),
        (PipelineEvent::Applied, PipelinePhase::Finalized, PipelineAction::RewardProducer),
        (PipelineEvent::NextHeight, PipelinePhase::Collecting, PipelineAction::Collect),
    ];
    let mut phase = PipelinePhase::Collecting;
    for (event, next, action) in run {
        assert_eq!(step(phase, event), (next, action));
        phase = next;
    }
}

#[test]
fn a_late_proof_degrades_and_failures_skip_the_height() {
    assert_eq!(
        step(PipelinePhase::Proving, PipelineEvent::ProofDeadline),
        (PipelinePhase::Attesting, PipelineAction::AttestWithPendingReceipt)
    );
    for (phase, event) in [
        (PipelinePhase::Assembling, PipelineEvent::AssemblyFailed),
        (PipelinePhase::Proving, PipelineEvent::ProvingFailed),
        (PipelinePhase::Attesting, PipelineEvent::AttestationDeadline),
    ] {
        assert_eq!(step(phase, event), (PipelinePhase::Collecting, PipelineAction::PenalizeAndSkip));
    }
    assert_eq!(
        step(PipelinePhase::Finalizing, PipelineEvent::Diverged),
        (PipelinePhase::Halted, PipelineAction::Recover)
    );
    assert_eq!(
        step(PipelinePhase::Halted, PipelineEvent::NextHeight),
        (PipelinePhase::Halted, PipelineAction::Ignore)
    );
    assert_eq!(
        step(PipelinePhase::Collecting, PipelineEvent::ProofReady),
        (PipelinePhase::Collecting, PipelineAction::Ignore)
    );
    assert_eq!(
        step(PipelinePhase::Attesting, PipelineEvent::Diverged),
        (PipelinePhase::Attesting, PipelineAction::Ignore)
    );
}

#[test]
fn attestations_are_collected_in_any_order() {
    let mut forwards = AttestationPool::new();
    assert!(forwards.add(attestation(1, 10)));
    assert!(forwards.add(attestation(3, 30)));
    assert!(forwards.add(attestation(2, 20)));
    let mut backwards = AttestationPool::new();
    assert!(backwards.add(attestation(2, 20)));
    assert!(backwards.add(attestation(3, 30)));
    assert!(backwards.add(attestation(1, 10)));
    assert_eq!(forwards.len(), 3);
    assert_eq!(forwards.attestations(), backwards.attestations());
    assert_eq!(
        forwards.attestations(),
        vec![attestation(1, 10), attestation(2, 20), attestation(3, 30)]
    );
    assert!(!forwards.add(attestation(2, 25)));
    assert_eq!(forwards.len(), 3);
    assert_eq!(forwards.attestations()[1].stake_weight, 25);
    assert_eq!(AttestationPool::new().attestations(), vec![]);
}
