use zk_sac_engine::crypto::hash::{blake3_hash, keccak256_hash};
use zk_sac_engine::types::{Address, BlockHash, Transaction};
use zk_sac_engine::zkvm::composer::{
    amendment_verdicts, check_rules, prove_amendment, verify_amendment, ChainReceipt, ComposeError,
};
use zk_sac_engine::zkvm::programs::guest_program::{
    compute_transaction_hash, finalize_state_root, update_state_root, verify_state_transition,
    verify_transaction_signature, StateTransitionInput, StateTransitionOutput, TransactionData,
};
use zk_sac_engine::zkvm::programs::state_transition;
use zk_sac_engine::zkvm::real_proofs::{
    compute_image_id, create_mock_amendment_elf, create_mock_guest_elf, create_mock_recursive_elf,
    find_break, receipt_body, total_receipts, verify_receipt, ImageIds, ProofKind, RealZKProver,
    ZKProofResult,
};
use zk_sac_engine::zkvm::{MemoryProfile, ProverError, ProverMode, Risc0Executor, ZKVMConfig};

fn guest_tx(from: u8, to: u8, value: u64, nonce: u64, data: Vec<u8>) -> TransactionData {
    TransactionData { from: [from; 20], to: [to; 20], value, nonce, data }
}

#[test]
fn guest_functions_mix_as_defined() {
    let tx = guest_tx(0x0F, 0xF0, 0x0102030405060708, 0x1112131415161718, vec![]);
    let hash = compute_transaction_hash(&tx);
    let mut expected = [0u8; 32];
    for i in 0..20 {
        expected[i] = 0xFF;
    }
    for i in 0..8 {
        expected[i] ^= 0x0102030405060708u64.to_le_bytes()[i];
        expected[i + 8] ^= 0x1112131415161718u64.to_le_bytes()[i];
    }
    assert_eq!(hash, expected);

    let root = update_state_root([0xAA; 32], [0x0F; 32], 0x0102);
    let mut expected = [0xA5u8; 32];
    expected[0] ^= 2;
    expected[1] ^= 1;
    assert_eq!(root, expected);

    let root = finalize_state_root([0; 32], 0x01, 0x0200);
    let mut expected = [0u8; 32];
    expected[0] = 1;
    expected[9] = 2;
    assert_eq!(root, expected);

    assert!(verify_transaction_signature(&guest_tx(1, 2, 0, 0, vec![])));
    assert!(!verify_transaction_signature(&guest_tx(0, 2, 0, 0, vec![])));
    assert!(!verify_transaction_signature(&guest_tx(1, 0, 0, 0, vec![])));
    let mut last_byte_only = guest_tx(0, 2, 0, 0, vec![]);
    last_byte_only.from[19] = 1;
    assert!(verify_transaction_signature(&last_byte_only));
}

#[test]
fn the_relation_folds_transactions_into_the_root() {
    let txs = vec![guest_tx(1, 2, 10, 0, vec![1, 2, 3]), guest_tx(3, 4, 20, 1, vec![])];
    let mut root = [9u8; 32];
    root = update_state_root(root, compute_transaction_hash(&txs[0]), 0);
    root = update_state_root(root, compute_transaction_hash(&txs[1]), 1);
    root = finalize_state_root(root, 5, 1000);
    let input = |transactions| StateTransitionInput {
        prev_state_root: [9; 32],
        transactions,
        block_number: 5,
        timestamp: 1000,
    };
    let output = verify_state_transition(input(txs));
    assert_eq!(
        output,
        StateTransitionOutput {
            new_state_root: root,
            transaction_count: 2,
            gas_used: 21000 + 48 + 21000,
            success: true
        }
    );
    let again = verify_state_transition(input(vec![
        guest_tx(1, 2, 10, 0, vec![1, 2, 3]),
        guest_tx(3, 4, 20, 1, vec![]),
    ]));
    assert_eq!(output, again);
    let empty = verify_state_transition(input(vec![]));
    assert_eq!(
        empty,
        StateTransitionOutput {
            new_state_root: finalize_state_root([9; 32], 5, 1000),
            transaction_count: 0,
            gas_used: 0,
            success: true
        }
    );
}

#[test]
fn a_failing_transaction_leaves_the_root_where_it_was() {
    let txs = vec![
        guest_tx(1, 2, 10, 0, vec![1]),
        guest_tx(0, 4, 20, 1, vec![]),
        guest_tx(5, 6, 20, 1, vec![]),
    ];
    let output = verify_state_transition(StateTransitionInput {
        prev_state_root: [9; 32],
        transactions: txs,
        block_number: 5,
        timestamp: 1000,
    });
    assert_eq!(
        output,
        StateTransitionOutput {
            new_state_root: [9; 32],
            transaction_count: 3,
            gas_used: 21016,
            success: false
        }
    );
}

#[test]
fn byte_level_transition() {
    let tx = Transaction::new(Address([0xF0; 20]), Address([0x0F; 20]), 1, 2);
    let input = state_transition::StateTransitionInput {
        prev_state: vec![0xFF; 24],
        transactions: vec![tx],
        block_number: 3,
        timestamp: 4,
    };
    let output = state_transition::execute_state_transition(input);
    let mut expected = vec![0x0F; 20];
    expected.extend_from_slice(&[0xF0; 4]);
    assert_eq!(output.new_state, expected);
    assert_eq!(output.state_root, blake3_hash(&expected).to_vec());
    assert_eq!(output.transaction_count, 1);
    let mut block_data = vec![0xFF; 24];
    block_data.extend_from_slice(&output.state_root);
    block_data.extend_from_slice(&3u64.to_le_bytes());
    block_data.extend_from_slice(&4u64.to_le_bytes());
    assert_eq!(output.block_hash, blake3_hash(&block_data).to_vec());
    let short = state_transition::execute_state_transition(state_transition::StateTransitionInput {
        prev_state: vec![],
        transactions: vec![Transaction::new(Address::new(1), Address::new(2), 1, 2)],
        block_number: 0,
        timestamp: 0,
    });
    assert_eq!(short.new_state, Vec::<u8>::new());
    state_transition::sp1_main();
}

#[test]
fn image_ids_are_digests_of_the_binaries() {
    let elf = create_mock_guest_elf();
    assert_eq!(elf.len(), 128);
    assert_eq!(&elf[..8], &[0x7f, 0x45, 0x4c, 0x46, 2, 1, 1, 0]);
    assert_eq!(&elf[16..24], &[2, 0, 0xf3, 0, 1, 0, 0, 0]);
    assert!(elf[24..].iter().all(|b| *b == 0));
    let mut recursive = elf.clone();
    recursive[17] = 2;
    assert_eq!(create_mock_recursive_elf(), recursive);
    let mut amendment = elf.clone();
    amendment[17] = 3;
    assert_eq!(create_mock_amendment_elf(), amendment);
    let ids = ImageIds::mock();
    assert_eq!(ids.state_transition, blake3_hash(&elf));
    assert_eq!(ids.recursion, compute_image_id(&recursive));
    assert_eq!(ids.amendment, blake3_hash(&amendment));
    assert_ne!(ids.state_transition, ids.recursion);
    assert_ne!(ids.amendment, ids.recursion);
}

fn base(prover: &RealZKProver, prev: [u8; 32], block: u64) -> ZKProofResult {
    let txs = vec![Transaction::new(Address::new(1), Address::new(2), block, block)];
    prover
        .generate_state_transition_proof(BlockHash(prev), &txs, block, 1000 + block)
        .unwrap()
}

#[test]
fn a_base_receipt_makes_the_relation_public() {
    let prover = RealZKProver::new().unwrap();
    let ids = ImageIds::mock();
    let receipt = base(&prover, [4; 32], 7);
    let direct = verify_state_transition(StateTransitionInput {
        prev_state_root: [4; 32],
        transactions: vec![TransactionData {
            from: Address::new(1).0,
            to: Address::new(2).0,
            value: 7,
            nonce: 7,
            data: vec![],
        }],
        block_number: 7,
        timestamp: 1007,
    });
    assert_eq!(receipt.public_outputs, direct);
    assert_eq!(receipt.prev_state_root, [4; 32]);
    assert_eq!((receipt.first_block, receipt.last_block), (7, 7));
    assert_eq!(receipt.proof_kind, ProofKind::Base);
    assert_eq!(receipt.program_image_id, ids.state_transition);
    assert_eq!(receipt.proof_size, 32);
    assert_eq!(receipt.generation_time_ms, 0);
    let batch = zk_sac_engine::consensus::validation::transactions_root(&[Transaction::new(
        Address::new(1),
        Address::new(2),
        7,
        7,
    )]);
    assert_eq!(receipt.tx_batch_commitment, batch.0);
    let mut bytes = vec![6u8];
    bytes.extend_from_slice(&[4; 32]);
    bytes.extend_from_slice(&direct.new_state_root);
    bytes.extend_from_slice(&7u64.to_le_bytes());
    bytes.extend_from_slice(&7u64.to_le_bytes());
    bytes.extend_from_slice(&1u64.to_le_bytes());
    bytes.extend_from_slice(&21000u64.to_le_bytes());
    bytes.push(1);
    bytes.extend_from_slice(&batch.0);
    assert_eq!(receipt.receipt, keccak256_hash(&bytes).to_vec());
    assert_eq!(receipt.receipt.len(), 32);
    assert_eq!(
        receipt.receipt,
        receipt_body(&[4; 32], &direct.new_state_root, 7, 7, 1, 21000, true, &batch.0)
    );
    assert_ne!(
        receipt.receipt,
        receipt_body(&[4; 32], &direct.new_state_root, 7, 7, 1, 21000, false, &batch.0)
    );
    let mut other_batch = base(&prover, [4; 32], 7);
    other_batch.tx_batch_commitment = [0; 32];
    assert_eq!(prover.verify_proof(&other_batch), Ok(false));
    assert_eq!(prover.verify_proof(&receipt), Ok(true));
    assert!(verify_receipt(&receipt, &ids.state_transition));
    assert!(!verify_receipt(&receipt, &ids.recursion));
    let mut forged = base(&prover, [4; 32], 7);
    forged.public_outputs.new_state_root = [0; 32];
    assert_eq!(prover.verify_proof(&forged), Ok(false));
    let failing = prover
        .generate_state_transition_proof(
            BlockHash([4; 32]),
            &[Transaction::new(Address::zero(), Address::new(2), 1, 0)],
            7,
            0,
        )
        .unwrap();
    assert!(!failing.public_outputs.success);
    assert_eq!(failing.public_outputs.new_state_root, [4; 32]);
    assert_eq!(prover.verify_proof(&failing), Ok(false));
    // The body commits to the outcome: a receipt of a transition that
    // failed is not accepted with the outcome changed.
    let mut turned = failing;
    turned.public_outputs.success = true;
    assert_eq!(prover.verify_proof(&turned), Ok(false));
    let mut counted = base(&prover, [4; 32], 7);
    counted.public_outputs.transaction_count += 1;
    assert_eq!(prover.verify_proof(&counted), Ok(false));
    let mut burnt = base(&prover, [4; 32], 7);
    burnt.public_outputs.gas_used += 1;
    assert_eq!(prover.verify_proof(&burnt), Ok(false));
    let mut unmade = base(&prover, [4; 32], 7);
    unmade.receipt = vec![0; 32];
    assert_eq!(prover.verify_proof(&unmade), Ok(false));
    let mut resized = base(&prover, [4; 32], 7);
    resized.proof_size = 31;
    assert_eq!(prover.verify_proof(&resized), Ok(false));
}

#[test]
fn a_receipt_is_verified_under_the_image_id_of_its_relation() {
    let prover = RealZKProver::new().unwrap();
    let ids = ImageIds::mock();
    let receipt = base(&prover, [4; 32], 7);
    assert_eq!(prover.verify_proof(&receipt), Ok(true));
    // A base receipt that names another image id is not accepted, though
    // its body commits to its public values.
    let mut renamed = base(&prover, [4; 32], 7);
    renamed.program_image_id = ids.recursion;
    assert_eq!(prover.verify_proof(&renamed), Ok(false));
    let mut unknown = base(&prover, [4; 32], 7);
    unknown.program_image_id = [0; 32];
    assert_eq!(prover.verify_proof(&unknown), Ok(false));
    assert!(verify_receipt(&unknown, &[0; 32]));

    let next = base(&prover, receipt.public_outputs.new_state_root, 8);
    let composed = prover.generate_recursive_proof(vec![receipt, next]).unwrap();
    assert_eq!(composed.proof_size, 32);
    assert_eq!(composed.generation_time_ms, 0);
    assert_eq!(composed.program_image_id, ids.recursion);
    assert_eq!(prover.verify_proof(&composed), Ok(true));
    let mut renamed = composed;
    renamed.program_image_id = ids.state_transition;
    assert_eq!(prover.verify_proof(&renamed), Ok(false));
}

#[test]
fn recursive_fold_of_three_receipts() {
    let prover = RealZKProver::new().unwrap();
    let ids = ImageIds::mock();
    let root0 = [1u8; 32];
    let b1 = base(&prover, root0, 1);
    let root1 = b1.public_outputs.new_state_root;
    let b2 = base(&prover, root1, 2);
    let root2 = b2.public_outputs.new_state_root;
    let b3 = base(&prover, root2, 3);
    let root3 = b3.public_outputs.new_state_root;
    assert_ne!(root3, root0);

    let leaves = vec![b1.tx_batch_commitment.to_vec(), b2.tx_batch_commitment.to_vec()];
    let r12 = prover.generate_recursive_proof(vec![b1, b2]).unwrap();
    assert_eq!(r12.public_outputs.new_state_root, root2);
    assert_eq!(r12.tx_batch_commitment, zk_sac_engine::crypto::hash::merkle_root(&leaves));
    let r3 = prover.generate_recursive_proof(vec![r12, b3]).unwrap();
    assert!(verify_receipt(&r3, &ids.recursion));
    assert_eq!(r3.public_outputs.new_state_root, root3);
    assert_eq!(r3.prev_state_root, root0);
    assert_eq!((r3.first_block, r3.last_block), (1, 3));
    assert_eq!(r3.public_outputs.transaction_count, 3);
    assert_eq!(r3.public_outputs.gas_used, 63000);
    assert!(r3.public_outputs.success);
    assert_eq!(r3.proof_kind, ProofKind::Recursive);
    assert_eq!(r3.program_image_id, ids.recursion);

    let mut chain = ChainReceipt::genesis(root0, &ids);
    assert!(chain.verify(&ids.recursion));
    let mut prev = root0;
    for block in 1..=3u64 {
        let b = base(&prover, prev, block);
        prev = b.public_outputs.new_state_root;
        chain = chain.fold(&b, verify_receipt(&b, &ids.state_transition), &[], &[], &ids).unwrap();
        assert_eq!(chain.height, block);
        assert_eq!(chain.state_root, prev);
    }
    assert!(chain.verify(&ids.recursion));
    assert!(!chain.verify(&ids.state_transition));
    assert_eq!(chain.state_root, root3);
    assert_eq!(chain.genesis_state_root, root0);
    assert_eq!(chain.cumulative_tx_count, 3);
    let mut bytes = vec![6u8];
    bytes.extend_from_slice(&root0);
    bytes.extend_from_slice(&root3);
    bytes.extend_from_slice(&3u64.to_le_bytes());
    bytes.extend_from_slice(&3u64.to_le_bytes());
    assert_eq!(chain.receipt, keccak256_hash(&bytes).to_vec());
}

fn crafted(prev: [u8; 32], new: [u8; 32], block: u64, count: u64, gas: u64) -> ZKProofResult {
    let receipt = receipt_body(&prev, &new, block, block, count, gas, true, &[9; 32]);
    ZKProofResult {
        proof_size: receipt.len(),
        receipt,
        public_outputs: zk_sac_engine::zkvm::programs::guest_program::StateTransitionOutput {
            new_state_root: new,
            transaction_count: count,
            gas_used: gas,
            success: true,
        },
        generation_time_ms: 0,
        prev_state_root: prev,
        first_block: block,
        last_block: block,
        tx_batch_commitment: [9; 32],
        program_image_id: ImageIds::mock().state_transition,
        proof_kind: ProofKind::Base,
    }
}

#[test]
fn composition_errors_each_have_their_input() {
    let prover = RealZKProver::new().unwrap();
    assert_eq!(prover.generate_recursive_proof(vec![]), Err(ProverError::EmptyComposition));
    let b1 = base(&prover, [1; 32], 1);
    let root1 = b1.public_outputs.new_state_root;
    let wrong_root = base(&prover, [2; 32], 2);
    assert_eq!(
        prover.generate_recursive_proof(vec![base(&prover, [1; 32], 1), wrong_root]),
        Err(ProverError::BrokenChain { position: 1 })
    );
    let wrong_height = base(&prover, root1, 3);
    assert_eq!(find_break(&vec![base(&prover, [1; 32], 1), wrong_height]), Some(1));
    assert_eq!(total_receipts(&vec![base(&prover, [1; 32], 1), base(&prover, root1, 2)]), Some((2, 42000, true)));

    // Totals that do not fit in 64 bits.
    assert!(prover.verify_proof(&crafted([1; 32], [2; 32], 1, 1, u64::MAX)).unwrap());
    assert_eq!(
        prover.generate_recursive_proof(vec![
            crafted([1; 32], [2; 32], 1, 1, u64::MAX),
            crafted([2; 32], [3; 32], 2, 1, 1),
        ]),
        Err(ProverError::Overflow)
    );
    assert_eq!(
        prover.generate_recursive_proof(vec![
            crafted([1; 32], [2; 32], 1, u64::MAX, 0),
            crafted([2; 32], [3; 32], 2, 1, 0),
        ]),
        Err(ProverError::Overflow)
    );

    let single = prover.generate_recursive_proof(vec![base(&prover, [1; 32], 1)]).unwrap();
    assert_eq!(single.public_outputs.new_state_root, root1);
    assert_eq!(prover.verify_proof(&single), Ok(true));
}

#[test]
fn only_accepted_receipts_are_composed() {
    let prover = RealZKProver::new().unwrap();
    let b1 = base(&prover, [1; 32], 1);
    let root1 = b1.public_outputs.new_state_root;

    // A receipt whose public values were changed after proving.
    let mut heavy = base(&prover, root1, 2);
    heavy.public_outputs.gas_used = u64::MAX;
    assert_eq!(
        prover.generate_recursive_proof(vec![base(&prover, [1; 32], 1), heavy]),
        Err(ProverError::InputRejected { position: 1 })
    );
    // A receipt of a transition that failed.
    let failed = prover
        .generate_state_transition_proof(
            BlockHash(root1),
            &[Transaction::new(Address::zero(), Address::new(2), 1, 0)],
            2,
            0,
        )
        .unwrap();
    assert!(!failed.public_outputs.success);
    assert_eq!(
        prover.generate_recursive_proof(vec![base(&prover, [1; 32], 1), failed]),
        Err(ProverError::InputRejected { position: 1 })
    );
    // Receipts without a body, under no image id.
    let mut empty = base(&prover, [1; 32], 1);
    empty.receipt = Vec::new();
    empty.program_image_id = [0; 32];
    let mut next = base(&prover, root1, 2);
    next.receipt = Vec::new();
    next.program_image_id = [0; 32];
    assert_eq!(
        prover.generate_recursive_proof(vec![empty, next]),
        Err(ProverError::InputRejected { position: 0 })
    );
    // The first that is not accepted is named, before any break of the run.
    let mut forged = base(&prover, [7; 32], 9);
    forged.public_outputs.new_state_root = [0; 32];
    assert_eq!(
        prover.generate_recursive_proof(vec![base(&prover, [1; 32], 1), base(&prover, [5; 32], 5), forged]),
        Err(ProverError::InputRejected { position: 2 })
    );
    // A composed receipt is accepted, and can be composed on.
    let composed = prover
        .generate_recursive_proof(vec![base(&prover, [1; 32], 1), base(&prover, root1, 2)])
        .unwrap();
    assert!(composed.public_outputs.success);
    assert_eq!(prover.verify_proof(&composed), Ok(true));
    let root2 = composed.public_outputs.new_state_root;
    let on = prover.generate_recursive_proof(vec![composed, base(&prover, root2, 3)]).unwrap();
    assert_eq!((on.first_block, on.last_block), (1, 3));
    assert_eq!(prover.verify_proof(&on), Ok(true));
}

#[test]
fn an_amendment_is_for_one_height_only() {
    let prover = RealZKProver::new().unwrap();
    let ids = ImageIds::mock();
    let mut chain = ChainReceipt::genesis([1; 32], &ids);
    let mut prev = [1u8; 32];
    for block in 1..=4u64 {
        let b = base(&prover, prev, block);
        prev = b.public_outputs.new_state_root;
        chain = chain.fold(&b, true, &[], &[], &ids).unwrap();
    }
    let b5 = base(&prover, prev, 5);
    let rule = prove_amendment(42, vec![1, 2, 3], 5, &ids);
    assert!(verify_amendment(&rule, &ids.amendment));
    let composed = chain.fold(&b5, true, &[rule.clone()], &[true], &ids).unwrap();
    assert_eq!(composed.height, 5);
    assert_eq!(composed.activated_rules, vec![42]);
    assert!(composed.verify(&ids.recursion));
    assert_eq!(composed.state_root, b5.public_outputs.new_state_root);

    let early = prove_amendment(43, vec![], 4, &ids);
    assert_eq!(
        chain.fold(&b5, true, &[rule.clone(), early.clone()], &[true, true], &ids),
        Err(ComposeError::ActivationHeightMismatch { rule_id: 43 })
    );
    let late = prove_amendment(44, vec![], 6, &ids);
    assert_eq!(
        check_rules(&[late], &[true], &ids.amendment, 5),
        Err(ComposeError::ActivationHeightMismatch { rule_id: 44 })
    );
    assert_eq!(
        chain.fold(&b5, true, &[rule.clone()], &[false], &ids),
        Err(ComposeError::AmendmentReceiptInvalid { rule_id: 42 })
    );
    let mut other_relation = rule.clone();
    other_relation.validity_proof.verification_key = ids.state_transition.to_vec();
    assert_eq!(
        chain.fold(&b5, true, &[other_relation.clone()], &[true], &ids),
        Err(ComposeError::AmendmentReceiptInvalid { rule_id: 42 })
    );
    let mut changed = rule.clone();
    changed.activation_epoch = 4;
    assert_eq!(
        amendment_verdicts(&[rule, other_relation, changed], &ids.amendment),
        vec![true, false, false]
    );
}

#[test]
fn fold_errors_each_have_their_input() {
    let prover = RealZKProver::new().unwrap();
    let ids = ImageIds::mock();
    let chain = ChainReceipt::genesis([1; 32], &ids);
    let good = base(&prover, [1; 32], 1);
    assert_eq!(chain.fold(&good, false, &[], &[], &ids), Err(ComposeError::ProofRejected));
    let mut failed = base(&prover, [1; 32], 1);
    failed.public_outputs.success = false;
    assert_eq!(chain.fold(&failed, true, &[], &[], &ids), Err(ComposeError::ProofRejected));
    let mut other = base(&prover, [1; 32], 1);
    other.program_image_id = ids.recursion;
    assert_eq!(chain.fold(&other, true, &[], &[], &ids), Err(ComposeError::ProofRejected));
    assert_eq!(
        chain.fold(&base(&prover, [2; 32], 1), true, &[], &[], &ids),
        Err(ComposeError::StateRootMismatch)
    );
    assert_eq!(
        chain.fold(&base(&prover, [1; 32], 2), true, &[], &[], &ids),
        Err(ComposeError::HeightMismatch)
    );
    let mut full = ChainReceipt::genesis([1; 32], &ids);
    full.cumulative_tx_count = u64::MAX;
    assert_eq!(full.fold(&good, true, &[], &[], &ids), Err(ComposeError::CountOverflow));
    let mut tampered = ChainReceipt::genesis([1; 32], &ids);
    tampered.height = 1;
    assert!(!tampered.verify(&ids.recursion));
}

#[test]
fn the_stand_in_executor() {
    let executor = Risc0Executor::new().unwrap();
    assert_eq!(executor.config(), ZKVMConfig::default());
    assert_eq!(
        ZKVMConfig::default(),
        ZKVMConfig {
            memory_optimization: MemoryProfile::Standard,
            prover_mode: ProverMode::Cpu,
            parallel_execution: true
        }
    );
    let custom = ZKVMConfig {
        memory_optimization: MemoryProfile::Streaming,
        prover_mode: ProverMode::Mock,
        parallel_execution: false,
    };
    assert_eq!(Risc0Executor::with_config(custom).unwrap().config(), custom);
    assert_eq!(executor.generate_state_transition_proof(vec![1], vec![]), Ok(vec![0; 32]));
    assert_eq!(executor.generate_recursive_proof(vec![vec![1], vec![2]]), Ok(vec![0; 32]));
    assert_eq!(executor.verify_proof(&[1, 2, 3]), Ok(true));
}
