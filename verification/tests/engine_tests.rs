use zk_sac_engine::consensus::election::ValidatorError;
use zk_sac_engine::consensus::engine::{
    ConsensusEngine, ConsensusError, ErrorClass, FatalError, ResourceError, ZkSacConsensusEngine,
    DEFAULT_BLOCK_GAS_LIMIT,
};
use zk_sac_engine::consensus::execution::TransactionError;
use zk_sac_engine::consensus::mempool::AdmissionError;
use zk_sac_engine::consensus::validation::{header_hash, signing_bytes, transactions_root, ValidationError};
use zk_sac_engine::crypto::hash::{blake3_hash, merkle_root};
use zk_sac_engine::crypto::signatures::SignatureEngine;
use zk_sac_engine::serialization::{encode, encode_blockchain_data};
use zk_sac_engine::types::{
    Account, Address, Block, BlockHash, ConfigError, ProtocolConfig, SignatureType, StorageSlot,
    Transaction, Validator, WorldState,
};
use zk_sac_engine::zkvm::composer::{chain_body, prove_amendment, ChainReceipt, ComposeError};

fn sign(engine: &ZkSacConsensusEngine, mut tx: Transaction) -> Transaction {
    tx.signature = engine
        .signature_engine
        .sign_ed25519(&tx.from, &signing_bytes(&tx))
        .unwrap();
    tx
}

fn transfer(engine: &ZkSacConsensusEngine, from: u8, to: u8, value: u64, nonce: u64) -> Transaction {
    sign(engine, Transaction::new(Address::new(from), Address::new(to), value, nonce))
}

fn validator(id: u8, stake: u64) -> Validator {
    let mut keys = SignatureEngine::new();
    let public_key = keys.generate_keypair_from_seed(Address::new(id), &[id; 32]).unwrap();
    Validator { address: Address::new(id), stake, public_key, performance_score: 10000 }
}

fn engine_with(accounts: &[(u8, u64)], validators: &[(u8, u64)]) -> ZkSacConsensusEngine {
    let mut genesis = WorldState::default();
    for (id, balance) in accounts {
        genesis.insert_account(Address::new(*id), Account::new(*balance));
    }
    let set: Vec<Validator> = validators.iter().map(|(id, stake)| validator(*id, *stake)).collect();
    let mut engine = ZkSacConsensusEngine::new(genesis, set, ProtocolConfig::default()).unwrap();
    for id in 1..=20u8 {
        engine
            .signature_engine
            .generate_keypair_from_seed(Address::new(id), &[id; 32])
            .unwrap();
    }
    engine
}

fn next_block(engine: &mut ZkSacConsensusEngine, timestamp: u64) -> Block {
    let number = engine.get_block_count() as u64 + 1;
    let producer = engine.select_block_producer(number).unwrap();
    let mut block = engine.produce_block(producer, timestamp).unwrap();
    engine.collect_validator_signatures(&mut block);
    block
}

#[test]
fn genesis_and_two_transfers() {
    let mut engine = engine_with(&[(1, 1000), (2, 1000)], &[(10, 1000000)]);
    let genesis_root = engine.current_state.state_root;
    let first = transfer(&engine, 1, 2, 100, 0);
    let second = transfer(&engine, 2, 3, 50, 0);
    engine.add_transaction(first).unwrap();
    engine.add_transaction(second).unwrap();

    let block = next_block(&mut engine, 1700000000);
    assert_eq!(block.transactions.len(), 2);
    assert_eq!(block.header.block_number, 1);
    assert_eq!(block.header.gas_used, 42000);
    assert_eq!(block.header.gas_limit, DEFAULT_BLOCK_GAS_LIMIT);
    assert_eq!(block.header.previous_hash, BlockHash::zero());
    assert_eq!(engine.validate_block(&block), Ok(true));
    engine.apply_block(block).unwrap();

    assert_eq!(engine.get_account_balance(&Address::new(1)), 900);
    assert_eq!(engine.get_account_balance(&Address::new(2)), 1050);
    assert_eq!(engine.get_account_balance(&Address::new(3)), 50);
    assert_ne!(engine.current_state.state_root, genesis_root);
    assert_eq!(engine.current_state.state_root, engine.blocks[0].header.state_root);
    assert_eq!(engine.current_state.block_number, 1);
    assert_eq!(engine.current_state.nonce_of(&Address::new(1)), 1);
    assert_eq!(engine.current_state.nonce_of(&Address::new(2)), 1);
    assert_eq!(engine.current_state.nonce_of(&Address::new(3)), 0);
    assert_eq!(engine.pending_transactions.len(), 0);
}

#[test]
fn insufficient_funds_are_rejected_at_admission() {
    let mut engine = engine_with(&[(1, 100)], &[(10, 1000000)]);
    let root = engine.current_state.state_root;
    let tx = transfer(&engine, 1, 2, 200, 0);
    assert_eq!(
        engine.add_transaction(tx),
        Err(ConsensusError::Admission(AdmissionError::InsufficientBalance))
    );
    assert_eq!(engine.pending_transactions.len(), 0);
    let block = next_block(&mut engine, 5);
    assert_eq!(block.transactions.len(), 0);
    engine.apply_block(block).unwrap();
    assert_eq!(engine.get_account_balance(&Address::new(1)), 100);
    assert_eq!(engine.get_account_balance(&Address::new(2)), 0);
    assert_ne!(engine.current_state.state_root, root);
}

#[test]
fn nonce_gap_waits_for_the_missing_nonce() {
    let mut engine = engine_with(&[(1, 1000)], &[(10, 1000000)]);
    let first = transfer(&engine, 1, 2, 10, 0);
    let third = transfer(&engine, 1, 2, 30, 2);
    engine.add_transaction(first).unwrap();
    engine.add_transaction(third).unwrap();
    assert_eq!(engine.pending_transactions.len(), 2);

    let block = next_block(&mut engine, 10);
    assert_eq!(block.transactions.len(), 1);
    assert_eq!(block.transactions[0].nonce, 0);
    engine.apply_block(block).unwrap();
    assert_eq!(engine.pending_transactions.len(), 1);
    assert_eq!(engine.pending_transactions.get(0).nonce, 2);
    assert_eq!(engine.get_account_balance(&Address::new(2)), 10);

    let block = next_block(&mut engine, 20);
    assert_eq!(block.transactions.len(), 0);
    engine.apply_block(block).unwrap();
    assert_eq!(engine.pending_transactions.len(), 1);

    let second = transfer(&engine, 1, 2, 20, 1);
    engine.add_transaction(second).unwrap();
    let block = next_block(&mut engine, 30);
    assert_eq!(block.transactions.len(), 2);
    assert_eq!(block.transactions[0].nonce, 1);
    assert_eq!(block.transactions[1].nonce, 2);
    engine.apply_block(block).unwrap();
    assert_eq!(engine.get_account_balance(&Address::new(2)), 60);
    assert_eq!(engine.get_account_balance(&Address::new(1)), 940);
    assert_eq!(engine.pending_transactions.len(), 0);
}

#[test]
fn admission_errors_each_have_their_input() {
    let mut engine = engine_with(&[(1, 100000), (2, 100000)], &[(10, 1000000)]);
    let admission = |e: AdmissionError| Err::<(), ConsensusError>(ConsensusError::Admission(e));

    let mut too_little_gas = Transaction::new(Address::new(1), Address::new(2), 1, 0);
    too_little_gas.data = vec![1];
    let too_little_gas = sign(&engine, too_little_gas);
    assert_eq!(engine.add_transaction(too_little_gas), admission(AdmissionError::Malformed));

    let unsigned = Transaction::new(Address::new(1), Address::new(2), 1, 0);
    assert_eq!(engine.add_transaction(unsigned), admission(AdmissionError::InvalidSignature));

    let mut wrong_scheme = Transaction::new(Address::new(1), Address::new(2), 1, 0);
    wrong_scheme.sig_type = SignatureType::Secp256k1;
    assert_eq!(engine.add_transaction(wrong_scheme), admission(AdmissionError::InvalidSignature));

    let ok = transfer(&engine, 1, 2, 1, 0);
    engine.add_transaction(ok).unwrap();
    let same_again = transfer(&engine, 1, 2, 2, 0);
    assert_eq!(engine.add_transaction(same_again), admission(AdmissionError::DuplicateNonce));
    assert_eq!(engine.pending_transactions.get(0).value, 1);

    let mut higher = Transaction::new(Address::new(1), Address::new(2), 3, 0);
    higher.gas_limit = 30000;
    let higher = sign(&engine, higher);
    engine.add_transaction(higher).unwrap();
    assert_eq!(engine.pending_transactions.len(), 1);
    assert_eq!(engine.pending_transactions.get(0).value, 3);

    for nonce in 1..16 {
        let tx = transfer(&engine, 1, 2, 1, nonce);
        engine.add_transaction(tx).unwrap();
    }
    let one_too_many = transfer(&engine, 1, 2, 1, 16);
    assert_eq!(engine.add_transaction(one_too_many), admission(AdmissionError::SenderQueueFull));

    let block = next_block(&mut engine, 1);
    engine.apply_block(block).unwrap();
    let stale = transfer(&engine, 1, 2, 1, 0);
    assert_eq!(engine.add_transaction(stale), admission(AdmissionError::NonceTooLow));
}

#[test]
fn the_queue_as_a_whole_is_bounded() {
    let mut genesis = WorldState::default();
    for id in 1..=3u8 {
        genesis.insert_account(Address::new(id), Account::new(1000));
    }
    let mut config = ProtocolConfig::default();
    config.max_transactions_per_block = 1;
    let mut engine = ZkSacConsensusEngine::new(genesis, vec![validator(10, 5)], config).unwrap();
    for id in 1..=3u8 {
        engine
            .signature_engine
            .generate_keypair_from_seed(Address::new(id), &[id; 32])
            .unwrap();
    }
    let a = transfer(&engine, 1, 2, 1, 0);
    let b = transfer(&engine, 2, 3, 1, 0);
    let c = transfer(&engine, 3, 1, 1, 0);
    engine.add_transaction(a).unwrap();
    engine.add_transaction(b).unwrap();
    assert_eq!(
        engine.add_transaction(c),
        Err(ConsensusError::Admission(AdmissionError::QueueFull))
    );
}

#[test]
fn the_queue_is_walked_by_sender_then_nonce() {
    let mut engine = engine_with(&[(1, 1000), (2, 1000)], &[(10, 7)]);
    let txs = vec![
        transfer(&engine, 2, 1, 1, 1),
        transfer(&engine, 1, 2, 1, 1),
        transfer(&engine, 2, 1, 1, 0),
        transfer(&engine, 1, 2, 1, 0),
    ];
    for tx in txs {
        engine.add_transaction(tx).unwrap();
    }
    let order: Vec<(Address, u64)> = (0..4)
        .map(|i| {
            let tx = engine.pending_transactions.get(i);
            (tx.from, tx.nonce)
        })
        .collect();
    assert_eq!(
        order,
        vec![
            (Address::new(1), 0),
            (Address::new(1), 1),
            (Address::new(2), 0),
            (Address::new(2), 1)
        ]
    );
}

#[test]
fn a_block_takes_no_more_than_it_may() {
    let mut genesis = WorldState::default();
    genesis.insert_account(Address::new(1), Account::new(1000));
    let mut config = ProtocolConfig::default();
    config.max_transactions_per_block = 2;
    let mut engine = ZkSacConsensusEngine::new(genesis, vec![validator(10, 5)], config).unwrap();
    for id in [1u8, 10u8] {
        engine
            .signature_engine
            .generate_keypair_from_seed(Address::new(id), &[id; 32])
            .unwrap();
    }
    for nonce in 0..3 {
        let tx = transfer(&engine, 1, 2, 1, nonce);
        engine.add_transaction(tx).unwrap();
    }
    let block = next_block(&mut engine, 1);
    assert_eq!(block.transactions.len(), 2);
    assert_eq!(engine.pending_transactions.len(), 1);
    engine.apply_block(block).unwrap();
    let block = next_block(&mut engine, 2);
    assert_eq!(block.transactions.len(), 1);
    assert_eq!(block.transactions[0].nonce, 2);
}

#[test]
fn header_commits_to_transactions_and_chain() {
    let mut engine = engine_with(&[(1, 1000)], &[(10, 7)]);
    let tx = transfer(&engine, 1, 2, 5, 0);
    engine.add_transaction(tx).unwrap();
    let block = next_block(&mut engine, 100);
    let leaves: Vec<Vec<u8>> = block.transactions.iter().map(|t| encode(t)).collect();
    assert_eq!(block.header.merkle_root.0, merkle_root(&leaves));
    assert_eq!(block.header.merkle_root, transactions_root(&block.transactions));
    let first_hash = header_hash(&block.header);
    let mut tagged = vec![2u8];
    tagged.extend_from_slice(&encode_blockchain_data(&block.header).unwrap());
    assert_eq!(first_hash.0, blake3_hash(&tagged));
    engine.apply_block(block).unwrap();

    let block = next_block(&mut engine, 101);
    assert_eq!(block.header.previous_hash, first_hash);
    assert_eq!(block.header.block_number, 2);
    assert_eq!(block.header.merkle_root, BlockHash::zero());
    engine.apply_block(block).unwrap();
    assert_eq!(engine.blocks[1].header.block_number, engine.blocks[0].header.block_number + 1);
    assert!(engine.blocks[1].header.timestamp > engine.blocks[0].header.timestamp);
}

#[test]
fn invalid_blocks_change_nothing_and_say_why() {
    let mut engine = engine_with(&[(1, 1000)], &[(10, 7)]);
    let tx = transfer(&engine, 1, 2, 5, 0);
    engine.add_transaction(tx).unwrap();
    let good = next_block(&mut engine, 100);
    let rejects = |engine: &mut ZkSacConsensusEngine, block: Block, e: ValidationError| {
        assert_eq!(engine.check_block(&block), Err(e));
        assert_eq!(engine.validate_block(&block), Ok(false));
        assert_eq!(engine.apply_block(block), Err(ConsensusError::Validation(e)));
        assert_eq!(engine.get_block_count(), 0);
        assert_eq!(engine.get_account_balance(&Address::new(1)), 1000);
    };
    let copy = |b: &Block| Block {
        header: b.header.clone(),
        transactions: b.transactions.clone(),
        validator_signatures: b.validator_signatures.clone(),
        recursive_proof: b.recursive_proof.clone(),
        protocol_updates: b.protocol_updates.clone(),
    };
    let resign = |engine: &ZkSacConsensusEngine, mut b: Block| {
        engine.collect_validator_signatures(&mut b);
        b
    };

    let mut b = copy(&good);
    b.header.previous_hash = BlockHash([1; 32]);
    rejects(&mut engine, b, ValidationError::BrokenLinkage);

    let mut b = copy(&good);
    b.header.block_number = 2;
    rejects(&mut engine, b, ValidationError::WrongBlockNumber);

    let mut b = copy(&good);
    b.transactions[0].gas_limit = 20999;
    rejects(&mut engine, b, ValidationError::MalformedTransaction { index: 0 });

    let mut b = copy(&good);
    b.transactions[0].value = 6;
    rejects(&mut engine, b, ValidationError::InvalidTransactionSignature { index: 0 });

    let mut b = copy(&good);
    b.header.merkle_root = BlockHash([9; 32]);
    rejects(&mut engine, b, ValidationError::MerkleRootMismatch);

    let mut b = copy(&good);
    b.header.gas_limit = 1;
    rejects(&mut engine, b, ValidationError::GasLimitMismatch);

    let mut b = copy(&good);
    b.header.state_root = BlockHash([9; 32]);
    rejects(&mut engine, b, ValidationError::StateRootMismatch);

    let mut b = copy(&good);
    b.header.gas_used = 1;
    rejects(&mut engine, b, ValidationError::GasMismatch);

    let mut b = copy(&good);
    b.recursive_proof.proof_data[0] ^= 1;
    rejects(&mut engine, b, ValidationError::ProofRejected);

    let mut b = copy(&good);
    b.recursive_proof.verification_key = vec![0; 32];
    rejects(&mut engine, b, ValidationError::ProofRejected);

    let mut b = copy(&good);
    b.validator_signatures.clear();
    rejects(&mut engine, b, ValidationError::StakeBelowThreshold);

    let mut b = copy(&good);
    b.validator_signatures[0].signature[0] ^= 1;
    rejects(&mut engine, b, ValidationError::InvalidAttestation { index: 0 });

    let mut b = copy(&good);
    b.validator_signatures[0].stake_weight = 8;
    rejects(&mut engine, b, ValidationError::UnknownAttester { index: 0 });

    let mut b = copy(&good);
    b.validator_signatures[0].validator_address = Address::new(11);
    rejects(&mut engine, b, ValidationError::UnknownAttester { index: 0 });

    let mut b = copy(&good);
    let twice = b.validator_signatures[0].clone();
    b.validator_signatures.push(twice);
    rejects(&mut engine, b, ValidationError::AttestationsOutOfOrder { index: 1 });

    let mut b = copy(&good);
    b.protocol_updates.push(prove_amendment(7, vec![1], 2, &engine.image_ids));
    rejects(&mut engine, b, ValidationError::AmendmentHeightMismatch { rule_id: 7 });

    let mut b = copy(&good);
    let mut rule = prove_amendment(7, vec![1], 1, &engine.image_ids);
    rule.rule_data = vec![2];
    b.protocol_updates.push(rule);
    rejects(&mut engine, b, ValidationError::AmendmentReceiptInvalid { rule_id: 7 });

    let mut b = copy(&good);
    b.transactions.push(transfer(&engine, 1, 2, 5, 7));
    b.header.merkle_root = transactions_root(&b.transactions);
    let b = resign(&engine, b);
    rejects(
        &mut engine,
        b,
        ValidationError::ExecutionFailed { index: 1, reason: TransactionError::NonceMismatch },
    );

    engine.apply_block(copy(&good)).unwrap();
    assert_eq!(engine.get_block_count(), 1);
    let mut late = next_block(&mut engine, 200);
    late.header.timestamp = 100;
    assert_eq!(engine.check_block(&late), Err(ValidationError::TimestampNotIncreasing));
    assert_eq!(
        engine.produce_block(Address::new(10), 100),
        Err(ConsensusError::Validation(ValidationError::TimestampNotIncreasing))
    );
}

#[test]
fn too_many_transactions_are_rejected() {
    let mut genesis = WorldState::default();
    genesis.insert_account(Address::new(1), Account::new(1000));
    let mut config = ProtocolConfig::default();
    config.max_transactions_per_block = 1;
    let mut engine = ZkSacConsensusEngine::new(genesis, vec![validator(10, 5)], config).unwrap();
    for id in [1u8, 10u8] {
        engine
            .signature_engine
            .generate_keypair_from_seed(Address::new(id), &[id; 32])
            .unwrap();
    }
    let tx = transfer(&engine, 1, 2, 1, 0);
    engine.add_transaction(tx).unwrap();
    let mut block = next_block(&mut engine, 1);
    block.transactions.push(transfer(&engine, 1, 2, 1, 1));
    assert_eq!(engine.check_block(&block), Err(ValidationError::TooManyTransactions));
}

#[test]
fn finality_needs_two_thirds_of_the_stake() {
    let mut engine = engine_with(&[(1, 1000)], &[(10, 1), (11, 1), (12, 1)]);
    let good = next_block(&mut engine, 1);
    assert_eq!(good.validator_signatures.len(), 3);
    let mut two = next_block(&mut engine, 1);
    two.validator_signatures.remove(1);
    assert_eq!(engine.check_block(&two), Ok(()));
    let mut one = next_block(&mut engine, 1);
    one.validator_signatures.truncate(1);
    assert_eq!(engine.check_block(&one), Err(ValidationError::StakeBelowThreshold));
    let mut swapped = next_block(&mut engine, 1);
    swapped.validator_signatures.swap(0, 1);
    assert_eq!(
        engine.check_block(&swapped),
        Err(ValidationError::AttestationsOutOfOrder { index: 1 })
    );
    engine.apply_block(good).unwrap();
}

#[test]
fn a_pending_receipt_is_accepted_within_the_lag() {
    let mut engine = engine_with(&[(1, 1000)], &[(10, 1)]);
    for height in 1..=17u64 {
        let mut block = next_block(&mut engine, height);
        block.recursive_proof.proof_data.clear();
        assert_eq!(engine.check_block(&block), Ok(()));
        engine.apply_block(block).unwrap();
        assert_eq!(engine.chain_receipt.height, 0);
    }
    let mut block = next_block(&mut engine, 18);
    block.recursive_proof.proof_data.clear();
    assert_eq!(engine.check_block(&block), Err(ValidationError::ReceiptLagExceeded));
    let with_receipt = next_block(&mut engine, 18);
    engine.apply_block(with_receipt).unwrap();
    assert_eq!(engine.get_block_count(), 18);
    assert_eq!(engine.chain_receipt.height, 0);
}

#[test]
fn a_block_activates_rules_for_its_height_only() {
    let mut engine = engine_with(&[(1, 1000)], &[(10, 1)]);
    for height in 1..=4u64 {
        let block = next_block(&mut engine, height);
        engine.apply_block(block).unwrap();
    }
    assert_eq!(engine.chain_receipt.height, 4);
    let early = prove_amendment(8, vec![1, 2], 4, &engine.image_ids);
    assert_eq!(
        engine.produce_block_with_rules(Address::new(10), 5, vec![early]),
        Err(ConsensusError::Validation(ValidationError::AmendmentHeightMismatch { rule_id: 8 }))
    );
    let rule = prove_amendment(9, vec![1, 2], 5, &engine.image_ids);
    let mut block = engine.produce_block_with_rules(Address::new(10), 5, vec![rule]).unwrap();
    engine.collect_validator_signatures(&mut block);
    engine.apply_block(block).unwrap();
    assert_eq!(engine.chain_receipt.height, 5);
    assert_eq!(engine.chain_receipt.activated_rules, vec![9]);
    assert!(engine.chain_receipt.verify(&engine.image_ids.recursion));
    assert_eq!(engine.chain_receipt.state_root, engine.blocks[4].header.state_root.0);
}

#[test]
fn producing_raises_the_producers_score() {
    let mut genesis = WorldState::default();
    genesis.insert_account(Address::new(1), Account::new(1000));
    let mut v = validator(10, 5);
    v.performance_score = 9950;
    let mut engine = ZkSacConsensusEngine::new(genesis, vec![v], ProtocolConfig::default()).unwrap();
    engine
        .signature_engine
        .generate_keypair_from_seed(Address::new(10), &[10; 32])
        .unwrap();
    let block = next_block(&mut engine, 1);
    engine.apply_block(block).unwrap();
    assert_eq!(engine.validator_set.validators[0].performance_score, 10000);
    assert_eq!(engine.validator_set.total_stake, 5);
}

#[test]
fn engine_rejects_bad_configuration_and_validators() {
    let err = |r: Result<ZkSacConsensusEngine, ConsensusError>| match r {
        Ok(_) => panic!("accepted"),
        Err(e) => e,
    };
    let mut config = ProtocolConfig::default();
    config.block_time_ms = 0;
    assert_eq!(
        err(ZkSacConsensusEngine::new(WorldState::default(), vec![], config)),
        ConsensusError::Config(ConfigError::ZeroBlockTime)
    );
    assert_eq!(
        err(ZkSacConsensusEngine::new(
            WorldState::default(),
            vec![validator(1, 1), validator(1, 2)],
            ProtocolConfig::default()
        )),
        ConsensusError::Validator(ValidatorError::DuplicateValidator)
    );
    let empty = ZkSacConsensusEngine::new(WorldState::default(), vec![], ProtocolConfig::default()).unwrap();
    assert_eq!(
        empty.select_block_producer(1),
        Err(ConsensusError::Validator(ValidatorError::NoValidators))
    );
    assert_eq!(empty.get_last_block_hash(), BlockHash::zero());
}

#[test]
fn recursive_proof_goes_with_valid_updates_only() {
    let engine = engine_with(&[(1, 1000)], &[(10, 1)]);
    let proof = engine.generate_recursive_proof(vec![]).unwrap();
    assert_ne!(proof.proof_data, engine.chain_receipt.receipt);
    assert_eq!(proof.verification_key, engine.image_ids.recursion.to_vec());
    let rule = prove_amendment(1, vec![], 1, &engine.image_ids);
    assert!(engine.generate_recursive_proof(vec![rule]).is_ok());
    let rule = prove_amendment(1, vec![], 3, &engine.image_ids);
    assert_eq!(
        engine.generate_recursive_proof(vec![rule]),
        Err(ConsensusError::Validation(ValidationError::AmendmentHeightMismatch { rule_id: 1 }))
    );
    let mut forged = prove_amendment(1, vec![], 1, &engine.image_ids);
    forged.validity_proof.proof_data[0] ^= 1;
    assert_eq!(
        engine.generate_recursive_proof(vec![forged]),
        Err(ConsensusError::Validation(ValidationError::AmendmentReceiptInvalid { rule_id: 1 }))
    );
}

#[test]
fn recursive_proof_reports_the_rules_activated_at_its_height() {
    let mut engine = engine_with(&[(1, 1000)], &[(10, 1000000)]);
    let genesis_root = engine.genesis_state_root;
    for height in 1..=4u64 {
        let block = next_block(&mut engine, 100 + height);
        engine.apply_block(block).unwrap();
    }
    assert_eq!(engine.chain_receipt.height, 4);

    let rule = prove_amendment(0x0102_0304, vec![9, 9], 5, &engine.image_ids);
    let other = prove_amendment(7, vec![], 5, &engine.image_ids);
    let proof = engine.generate_recursive_proof(vec![rule, other]).unwrap();

    // The public values end with the identifiers of the rules, in order.
    let n = proof.public_inputs.len();
    assert_eq!(n, 32 + 32 + 8 + 8 + 8);
    assert_eq!(&proof.public_inputs[..32], &genesis_root.0);
    assert_eq!(&proof.public_inputs[64..72], &0u64.to_le_bytes());
    assert_eq!(&proof.public_inputs[72..80], &5u64.to_le_bytes());
    assert_eq!(&proof.public_inputs[80..84], &[4, 3, 2, 1]);
    assert_eq!(&proof.public_inputs[84..88], &[7, 0, 0, 0]);
    let mut state_root = [0u8; 32];
    state_root.copy_from_slice(&proof.public_inputs[32..64]);
    assert_ne!(state_root, engine.current_state.state_root.0);
    assert_eq!(
        proof.proof_data,
        chain_body(&genesis_root.0, &state_root, 0, 5, &vec![0x0102_0304, 7])
    );
    assert_eq!(proof.verification_key, engine.image_ids.recursion.to_vec());

    // It is the receipt that the chain has once an empty block with these
    // rules is applied.
    let rule = prove_amendment(0x0102_0304, vec![9, 9], 5, &engine.image_ids);
    let other = prove_amendment(7, vec![], 5, &engine.image_ids);
    let producer = engine.select_block_producer(5).unwrap();
    let mut block = engine.produce_block_with_rules(producer, 200, vec![rule, other]).unwrap();
    engine.collect_validator_signatures(&mut block);
    engine.apply_block(block).unwrap();
    assert_eq!(engine.chain_receipt.height, 5);
    assert_eq!(engine.chain_receipt.activated_rules, vec![0x0102_0304, 7]);
    assert_eq!(engine.chain_receipt.state_root, state_root);
    assert_eq!(engine.chain_receipt.to_proof(), proof);
    assert!(engine.chain_receipt.verify(&engine.image_ids.recursion));

    // A rule for the height before is rejected.
    let late = prove_amendment(8, vec![], 5, &engine.image_ids);
    assert_eq!(
        engine.generate_recursive_proof(vec![late]),
        Err(ConsensusError::Validation(ValidationError::AmendmentHeightMismatch { rule_id: 8 }))
    );
}

#[test]
fn recursive_proof_needs_the_chain_receipt_to_have_kept_up() {
    let mut engine = engine_with(&[(1, 1000)], &[(10, 1000000)]);
    let mut block = next_block(&mut engine, 10);
    block.recursive_proof.proof_data = Vec::new();
    engine.collect_validator_signatures(&mut block);
    engine.apply_block(block).unwrap();
    assert_eq!(engine.chain_receipt.height, 0);
    let fresh = ChainReceipt::genesis(engine.genesis_state_root.0, &engine.image_ids);
    assert_eq!(fresh, engine.chain_receipt);
    assert_eq!(
        engine.generate_recursive_proof(vec![]),
        Err(ConsensusError::Compose(ComposeError::StateRootMismatch))
    );
}

#[test]
fn a_new_engine_holds_the_validators_as_given() {
    let given = vec![validator(30, 5), validator(10, 7), validator(20, 9)];
    let config = ProtocolConfig::default();
    let per_block = config.max_transactions_per_block;
    let genesis = WorldState::default();
    let root = genesis.state_root;
    let engine = ZkSacConsensusEngine::new(genesis, given, config).unwrap();
    assert_eq!(
        engine.validator_set.validators,
        vec![validator(30, 5), validator(10, 7), validator(20, 9)]
    );
    assert_eq!(engine.validator_set.total_stake, 21);
    assert_eq!(engine.current_state.state_root, root);
    assert_eq!(engine.current_state.block_number, 0);
    assert_eq!(engine.current_state.account_count(), 0);
    assert_eq!(engine.genesis_state_root, root);
    assert_eq!(engine.get_block_count(), 0);
    assert_eq!(engine.pending_transactions.len(), 0);
    assert_eq!(engine.signature_engine.key_count(), 0);
    assert_eq!(engine.pending_transactions.capacity(), per_block * 2);
    assert_eq!(engine.pending_transactions.per_sender_limit(), 16);
    assert_eq!(engine.chain_receipt.cumulative_tx_count, 0);
    assert!(engine.chain_receipt.verify(&engine.image_ids.recursion));

    // The producer is elected as from the same validators in another order.
    let sorted = ZkSacConsensusEngine::new(
        WorldState::default(),
        vec![validator(10, 7), validator(20, 9), validator(30, 5)],
        ProtocolConfig::default(),
    )
    .unwrap();
    for height in 1..=20u64 {
        let election = engine.elect(height).unwrap();
        assert_eq!(sorted.elect(height).unwrap().producer, election.producer);
        assert_eq!(engine.validator_set.validators[election.index].address, election.producer);
        assert_eq!(engine.select_block_producer(height), Ok(election.producer));
    }
}

#[test]
fn a_genesis_state_must_be_at_height_zero_with_storage_in_order() {
    let mut late = WorldState::default();
    late.block_number = 1;
    assert_eq!(
        ZkSacConsensusEngine::new(late, vec![validator(1, 1)], ProtocolConfig::default()).map(|_| ()),
        Err(ConsensusError::GenesisNotAtHeightZero)
    );
    let mut account = Account::new(5);
    account.set_storage([2; 32], [1; 32]);
    account.set_storage([1; 32], [2; 32]);
    let mut genesis = WorldState::default();
    genesis.insert_account(Address::new(1), account);
    assert!(ZkSacConsensusEngine::new(genesis, vec![validator(1, 1)], ProtocolConfig::default()).is_ok());
    let mut account = Account::new(5);
    account.storage.push(StorageSlot { key: [2; 32], value: [0; 32] });
    account.storage.push(StorageSlot { key: [1; 32], value: [0; 32] });
    let mut genesis = WorldState::default();
    genesis.insert_account(Address::new(1), account);
    assert_eq!(
        ZkSacConsensusEngine::new(genesis, vec![validator(1, 1)], ProtocolConfig::default()).map(|_| ()),
        Err(ConsensusError::GenesisStorageOutOfOrder)
    );
    // The errors are looked for in order.
    let mut late = WorldState::default();
    late.block_number = 1;
    assert_eq!(
        ZkSacConsensusEngine::new(late, vec![validator(1, 1), validator(1, 2)], ProtocolConfig::default())
            .map(|_| ()),
        Err(ConsensusError::Validator(ValidatorError::DuplicateValidator))
    );
    assert_eq!(ConsensusError::GenesisNotAtHeightZero.class(), ErrorClass::Admission);
    assert_eq!(ConsensusError::GenesisStorageOutOfOrder.class(), ErrorClass::Admission);
}

#[test]
fn executing_a_batch_is_all_or_nothing() {
    let engine = engine_with(&[(1, 1000), (2, 0)], &[(10, 1)]);
    let good = vec![transfer(&engine, 1, 2, 100, 0), transfer(&engine, 2, 3, 40, 0)];
    let (next, proof) = engine.execute_transactions_with_zkvm(&good).unwrap();
    assert_eq!(next.balance_of(&Address::new(1)), 900);
    assert_eq!(next.balance_of(&Address::new(2)), 60);
    assert_eq!(next.balance_of(&Address::new(3)), 40);
    assert_eq!(proof.verification_key, engine.image_ids.state_transition.to_vec());
    let (again, proof_again) = engine.execute_transactions_with_zkvm(&good).unwrap();
    assert_eq!(again.state_root, next.state_root);
    assert_eq!(proof_again, proof);
    let bad = vec![transfer(&engine, 1, 2, 100, 0), transfer(&engine, 2, 3, 400, 0)];
    assert_eq!(
        engine.execute_transactions_with_zkvm(&bad).map(|_| ()),
        Err(ConsensusError::Validation(ValidationError::ExecutionFailed {
            index: 1,
            reason: TransactionError::InsufficientBalance,
        }))
    );
    assert_eq!(engine.get_account_balance(&Address::new(1)), 1000);
}

#[test]
fn a_scheduled_set_takes_over_at_the_end_of_the_epoch() {
    let mut genesis = WorldState::default();
    genesis.insert_account(Address::new(1), Account::new(1000));
    let mut config = ProtocolConfig::default();
    config.epoch_length_blocks = 2;
    let mut engine =
        ZkSacConsensusEngine::new(genesis, vec![validator(10, 5)], config).unwrap();
    for id in [10u8, 11, 12] {
        engine
            .signature_engine
            .generate_keypair_from_seed(Address::new(id), &[id; 32])
            .unwrap();
    }
    assert_eq!(
        engine.schedule_validator_set(vec![validator(11, 1), validator(11, 2)]),
        Err(ConsensusError::Validator(ValidatorError::DuplicateValidator))
    );
    assert!(engine.next_validator_set.is_none());
    engine.schedule_validator_set(vec![validator(12, 7), validator(11, 3)]).unwrap();
    assert_eq!(engine.validator_set.total_stake, 5);

    let block = next_block(&mut engine, 1);
    engine.apply_block(block).unwrap();
    assert_eq!(engine.validator_set.total_stake, 5);
    assert!(engine.next_validator_set.is_some());

    let block = next_block(&mut engine, 2);
    engine.apply_block(block).unwrap();
    assert!(engine.next_validator_set.is_none());
    assert_eq!(engine.validator_set.total_stake, 10);
    let order: Vec<Address> = engine.validator_set.validators.iter().map(|v| v.address).collect();
    assert_eq!(order, vec![Address::new(12), Address::new(11)]);

    let block = next_block(&mut engine, 3);
    assert_eq!(block.validator_signatures.len(), 2);
    engine.apply_block(block).unwrap();
    assert_eq!(engine.get_block_count(), 3);
}

#[test]
fn slashing_takes_effect_at_once() {
    let mut engine = engine_with(&[(1, 1000)], &[(10, 1000), (11, 3000)]);
    engine.schedule_validator_set(vec![validator(10, 2000)]).unwrap();
    assert_eq!(engine.slash_validator(&Address::new(10)), Ok(50));
    assert_eq!(engine.validator_set.validators[0].stake, 950);
    assert_eq!(engine.validator_set.validators[0].performance_score, 9000);
    assert_eq!(engine.validator_set.total_stake, 3950);
    let scheduled = engine.next_validator_set.as_ref().unwrap();
    assert_eq!(scheduled.validators[0].stake, 1900);
    assert_eq!(scheduled.total_stake, 1900);
    assert_eq!(
        engine.slash_validator(&Address::new(12)),
        Err(ConsensusError::Validator(ValidatorError::UnknownValidator))
    );
    assert_eq!(engine.slash_validator(&Address::new(11)), Ok(150));
    assert_eq!(engine.next_validator_set.as_ref().unwrap().total_stake, 1900);
    assert!(engine.penalize_producer(&Address::new(11)));
    assert_eq!(engine.validator_set.validators[1].performance_score, 8000);
    assert!(!engine.penalize_producer(&Address::new(12)));
}

#[test]
fn a_late_proof_leaves_the_receipt_pending() {
    let mut engine = engine_with(&[(1, 1000)], &[(10, 1)]);
    let mut block = next_block(&mut engine, 1);
    zk_sac_engine::consensus::engine::mark_receipt_pending(&mut block);
    assert!(block.recursive_proof.proof_data.is_empty());
    assert_eq!(block.recursive_proof.verification_key, engine.image_ids.state_transition.to_vec());
    let state_root = block.header.state_root;
    let batch = block.header.merkle_root;
    engine.apply_block(block).unwrap();
    assert_eq!(engine.chain_receipt.height, 0);

    let prover_receipt = zk_sac_engine::zkvm::real_proofs::ZKProofResult {
        receipt: zk_sac_engine::zkvm::real_proofs::receipt_body(
            &engine.genesis_state_root.0,
            &state_root.0,
            1,
            1,
            0,
            0,
            true,
            &batch.0,
        ),
        public_outputs: zk_sac_engine::zkvm::programs::guest_program::StateTransitionOutput {
            new_state_root: state_root.0,
            transaction_count: 0,
            gas_used: 0,
            success: true,
        },
        proof_size: 32,
        generation_time_ms: 0,
        prev_state_root: engine.genesis_state_root.0,
        first_block: 1,
        last_block: 1,
        tx_batch_commitment: batch.0,
        program_image_id: engine.image_ids.state_transition,
        proof_kind: zk_sac_engine::zkvm::real_proofs::ProofKind::Base,
    };
    assert_eq!(
        engine.advance_chain_receipt(&prover_receipt, false),
        Err(ConsensusError::Compose(zk_sac_engine::zkvm::composer::ComposeError::ProofRejected))
    );
    assert_eq!(engine.advance_chain_receipt(&prover_receipt, true), Ok(()));
    assert_eq!(engine.chain_receipt.height, 1);
    assert_eq!(engine.chain_receipt.state_root, state_root.0);
    assert_eq!(
        engine.advance_chain_receipt(&prover_receipt, true),
        Err(ConsensusError::NothingToCompose)
    );
}

#[test]
fn errors_fall_into_classes() {
    let cases = vec![
        (ConsensusError::Admission(AdmissionError::InsufficientBalance), ErrorClass::Admission),
        (ConsensusError::Admission(AdmissionError::QueueFull), ErrorClass::Resource),
        (ConsensusError::Admission(AdmissionError::SenderQueueFull), ErrorClass::Resource),
        (ConsensusError::Config(ConfigError::ZeroBlockTime), ErrorClass::Admission),
        (ConsensusError::Validator(ValidatorError::NoValidators), ErrorClass::Admission),
        (ConsensusError::Validation(ValidationError::BrokenLinkage), ErrorClass::Validation),
        (ConsensusError::NothingToCompose, ErrorClass::Validation),
        (ConsensusError::Resource(ResourceError::DeadlineExceeded), ErrorClass::Resource),
        (ConsensusError::Fatal(FatalError::StateDivergence), ErrorClass::Fatal),
    ];
    for (error, class) in cases {
        assert_eq!(error.class(), class);
        assert_eq!(error.terminates_pipeline(), class == ErrorClass::Fatal);
    }
}

#[test]
fn the_producer_is_rewarded_with_a_fraction_of_its_stake() {
    let mut engine = engine_with(&[(1, 1000)], &[(10, 1000), (11, 999)]);
    assert_eq!(engine.reward_producer(&Address::new(10)), Ok(40));
    assert_eq!(engine.validator_set.validators[0].stake, 1040);
    assert_eq!(engine.validator_set.total_stake, 2039);
    assert_eq!(engine.reward_producer(&Address::new(11)), Ok(39));
    assert_eq!(
        engine.reward_producer(&Address::new(12)),
        Err(ConsensusError::Validator(ValidatorError::UnknownValidator))
    );
    let mut rich = engine_with(&[], &[(10, u64::MAX - 10)]);
    assert_eq!(
        rich.reward_producer(&Address::new(10)),
        Err(ConsensusError::Validator(ValidatorError::StakeOverflow))
    );
    assert_eq!(rich.validator_set.total_stake, u64::MAX - 10);
}

#[test]
fn recovery_starts_from_the_chain_receipt() {
    let mut engine = engine_with(&[(1, 1000)], &[(10, 1)]);
    assert_eq!(engine.recovery_point(), (0, engine.genesis_state_root.0));
    let block = next_block(&mut engine, 1);
    engine.apply_block(block).unwrap();
    let mut pending = next_block(&mut engine, 2);
    zk_sac_engine::consensus::engine::mark_receipt_pending(&mut pending);
    engine.apply_block(pending).unwrap();
    assert_eq!(engine.get_block_count(), 2);
    assert_eq!(engine.recovery_point(), (1, engine.blocks[0].header.state_root.0));
}

#[test]
fn the_invariant_of_the_engine_can_be_checked() {
    let mut engine = engine_with(&[(1, 1000), (2, 1000)], &[(10, 1000000)]);
    assert!(engine.is_consistent());
    engine.add_transaction(transfer(&engine, 1, 2, 100, 0)).unwrap();
    for height in 1..=3u64 {
        let block = next_block(&mut engine, 100 + height);
        engine.apply_block(block).unwrap();
        assert!(engine.is_consistent());
    }

    // The state must be the one after the last block.
    let balance = engine.get_account_balance(&Address::new(1));
    engine.current_state.insert_account(Address::new(1), Account::new(balance + 1));
    assert!(!engine.is_consistent());
    engine.current_state.insert_account(Address::new(1), {
        let mut account = Account::new(balance);
        account.nonce = 1;
        account
    });
    assert!(engine.is_consistent());
    engine.current_state.block_number = 2;
    assert!(!engine.is_consistent());
    engine.current_state.block_number = 3;

    // The blocks must make a chain.
    let time = engine.blocks[1].header.timestamp;
    engine.blocks[1].header.timestamp = engine.blocks[0].header.timestamp;
    assert!(!engine.is_consistent());
    engine.blocks[1].header.timestamp = time;
    assert!(engine.is_consistent());

    // The chain receipt must make public the root of the block at its height.
    engine.chain_receipt.height = 2;
    assert!(!engine.is_consistent());
    engine.chain_receipt.height = 4;
    assert!(!engine.is_consistent());
    engine.chain_receipt.height = 3;
    assert!(engine.is_consistent());

    // The storage of every account must be in order.
    let mut unordered = Account::new(balance);
    unordered.nonce = 1;
    unordered.storage.push(StorageSlot { key: [2; 32], value: [0; 32] });
    unordered.storage.push(StorageSlot { key: [1; 32], value: [0; 32] });
    engine.current_state.insert_account(Address::new(1), unordered);
    assert!(!engine.is_consistent());
    engine.current_state.insert_account(Address::new(1), {
        let mut account = Account::new(balance);
        account.nonce = 1;
        account
    });
    assert!(engine.is_consistent());

    // The parts must be well formed.
    engine.validator_set.total_stake += 1;
    assert!(!engine.is_consistent());
    engine.validator_set.total_stake -= 1;
    engine.protocol_config.epoch_length_blocks = 0;
    assert!(!engine.is_consistent());
}

#[test]
fn a_block_is_in_the_order_of_senders_and_nonces_whatever_the_arrival() {
    let mut one = engine_with(&[(1, 1000), (2, 1000)], &[(10, 1000000)]);
    let mut other = engine_with(&[(1, 1000), (2, 1000)], &[(10, 1000000)]);
    let txs = vec![
        transfer(&one, 1, 3, 1, 0),
        transfer(&one, 1, 3, 2, 1),
        transfer(&one, 1, 3, 3, 2),
        transfer(&one, 2, 3, 4, 0),
        transfer(&one, 2, 3, 5, 1),
    ];
    for i in [4usize, 2, 0, 3, 1] {
        one.add_transaction(txs[i].clone()).unwrap();
    }
    for i in [1usize, 3, 0, 2, 4] {
        other.add_transaction(txs[i].clone()).unwrap();
    }
    let a = next_block(&mut one, 10);
    let b = next_block(&mut other, 10);
    assert_eq!(a.transactions, txs);
    assert_eq!(b.transactions, txs);
    assert_eq!(a.header.state_root, b.header.state_root);
}

#[test]
fn the_election_goes_by_the_configured_threshold_and_attempts() {
    let given = vec![validator(10, 7), validator(20, 9), validator(30, 5)];
    let mut config = ProtocolConfig::default();
    config.max_election_attempts = 0;
    let engine = ZkSacConsensusEngine::new(WorldState::default(), given, config).unwrap();
    for height in 1..=6u64 {
        let election = engine.elect(height).unwrap();
        assert!(election.round_robin);
        assert_eq!(election.attempts, 0);
        assert_eq!(election.index, (height % 3) as usize);
    }
    let mut low = validator(10, 7);
    low.performance_score = 10;
    let mut config = ProtocolConfig::default();
    config.min_producer_score = 11;
    let engine = ZkSacConsensusEngine::new(WorldState::default(), vec![low], config).unwrap();
    let election = engine.elect(1).unwrap();
    assert!(election.round_robin);
    assert_eq!(election.attempts, 8);
    let mut low = validator(10, 7);
    low.performance_score = 10;
    let mut config = ProtocolConfig::default();
    config.min_producer_score = 10;
    let engine = ZkSacConsensusEngine::new(WorldState::default(), vec![low], config).unwrap();
    let election = engine.elect(1).unwrap();
    assert!(!election.round_robin);
    assert_eq!(election.attempts, 1);
    let mut config = ProtocolConfig::default();
    config.min_producer_score = 10001;
    assert_eq!(
        ZkSacConsensusEngine::new(WorldState::default(), vec![], config).map(|_| ()),
        Err(ConsensusError::Config(ConfigError::ProducerScoreOutOfRange))
    );
}
