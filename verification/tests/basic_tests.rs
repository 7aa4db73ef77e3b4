use zk_sac_engine::consensus::engine::{ConsensusEngine, ZkSacConsensusEngine};
use zk_sac_engine::consensus::validation::signing_bytes;
use zk_sac_engine::crypto::hash::blake3_hash;
use zk_sac_engine::crypto::signatures::{PostQuantumSigner, SignatureEngine};
use zk_sac_engine::serialization::{
    create_block_metadata, decode_batch, decode_blockchain_data, decode_network_message,
    decode_zkvm_output, encode_batch, encode_blockchain_data, encode_network_message,
    encode_zkvm_output, estimate_size, to_json_pretty_bytes,
};
use zk_sac_engine::types::{
    Account, Address, BlockHash, ProofType, ProtocolConfig, SignatureType, Transaction, Validator,
    WorldState,
};

fn signed(engine: &ZkSacConsensusEngine, from: Address, to: Address, value: u64, nonce: u64) -> Transaction {
    let mut tx = Transaction::new(from, to, value, nonce);
    tx.signature = engine
        .signature_engine
        .sign_ed25519(&from, &signing_bytes(&tx))
        .unwrap();
    tx
}

fn engine_with(accounts: &[(u8, u64)], sender_ids: &[u8]) -> ZkSacConsensusEngine {
    let mut genesis = WorldState::default();
    for (id, balance) in accounts {
        genesis.insert_account(Address::new(*id), Account::new(*balance));
    }
    let mut keys = SignatureEngine::new();
    let validator_key = keys
        .generate_keypair_from_seed(Address::new(10), &[10u8; 32])
        .unwrap();
    let validators = vec![Validator {
        address: Address::new(10),
        stake: 1000000,
        public_key: validator_key,
        performance_score: 10000,
    }];
    let mut engine = ZkSacConsensusEngine::new(genesis, validators, ProtocolConfig::default()).unwrap();
    engine
        .signature_engine
        .generate_keypair_from_seed(Address::new(10), &[10u8; 32])
        .unwrap();
    for id in sender_ids {
        engine
            .signature_engine
            .generate_keypair_from_seed(Address::new(*id), &[*id; 32])
            .unwrap();
    }
    engine
}

#[test]
fn test_signature_engine_creation() {
    let engine = SignatureEngine::new();
    assert_eq!(engine.key_count(), 0);
}

#[test]
fn test_post_quantum_signer_creation() {
    let signer = PostQuantumSigner::new().unwrap();
    assert_eq!(signer.get_signature_size(&SignatureType::PostQuantum), 1024);
}

#[test]
fn test_types_basic_operations() {
    let addr1 = Address::random();
    let addr2 = Address::random();

    assert_ne!(addr1, addr2);

    let zero = Address::zero();
    assert_eq!(zero.as_bytes(), &[0u8; 20]);
}

#[test]
fn test_crypto_hash_consistency() {
    let data = b"test_data";

    let hash1 = blake3_hash(data);
    let hash2 = blake3_hash(data);

    assert_eq!(hash1, hash2);
}

#[test]
fn test_serialization_roundtrip() {
    let transaction = Transaction {
        from: Address::random(),
        to: Address::random(),
        value: 1000,
        data: vec![1, 2, 3, 4],
        nonce: 42,
        gas_limit: 21000,
        signature: vec![0; 64],
        sig_type: SignatureType::Ed25519,
    };

    let serialized = encode_blockchain_data(&transaction).unwrap();
    let deserialized: Transaction = decode_blockchain_data(&serialized).unwrap();

    assert_eq!(transaction.from, deserialized.from);
    assert_eq!(transaction.value, deserialized.value);
    assert_eq!(transaction.nonce, deserialized.nonce);
}

#[test]
fn test_blockchain_data_encoding() {
    let address = Address([1u8; 20]);

    let encoded = encode_blockchain_data(&address).unwrap();
    let decoded: Address = decode_blockchain_data(&encoded).unwrap();

    assert_eq!(address, decoded);
}

#[test]
fn test_zkvm_input_encoding() {
    let proof_type = ProofType::SP1;

    let encoded = encode_zkvm_output(&proof_type).unwrap();
    let decoded: ProofType = decode_zkvm_output(&encoded).unwrap();

    assert_eq!(format!("{:?}", proof_type), format!("{:?}", decoded));
}

#[test]
fn test_network_message_encoding() {
    let block_hash = BlockHash([42u8; 32]);

    let encoded = encode_network_message(&block_hash).unwrap();
    let decoded: BlockHash = decode_network_message(&encoded).unwrap();

    assert_eq!(block_hash, decoded);
}

#[test]
fn test_batch_operations() {
    let addresses = vec![Address([1u8; 20]), Address([2u8; 20]), Address([3u8; 20])];

    let encoded_batch = encode_batch(&addresses).unwrap();
    let decoded_batch: Vec<Address> = decode_batch(&encoded_batch).unwrap();

    assert_eq!(addresses, decoded_batch);
}

#[test]
fn test_size_estimation() {
    let transaction = Transaction {
        from: Address([1u8; 20]),
        to: Address([2u8; 20]),
        value: 1000,
        data: vec![1, 2, 3, 4, 5],
        gas_limit: 21000,
        nonce: 1,
        signature: vec![0; 64],
        sig_type: SignatureType::Ed25519,
    };

    let size = estimate_size(&transaction).unwrap();
    assert!(size > 0);
    println!("Transaction size: {} bytes", size);
}

#[test]
fn test_block_metadata_creation() {
    let transactions = vec![
        Transaction {
            from: Address([1u8; 20]),
            to: Address([2u8; 20]),
            value: 1000,
            data: vec![1, 2, 3],
            gas_limit: 21000,
            nonce: 1,
            signature: vec![0; 64],
            sig_type: SignatureType::Ed25519,
        },
        Transaction {
            from: Address([2u8; 20]),
            to: Address([1u8; 20]),
            value: 500,
            data: vec![4, 5, 6],
            gas_limit: 10000,
            nonce: 2,
            signature: vec![1; 64],
            sig_type: SignatureType::Ed25519,
        },
    ];
    let producer = Address([3u8; 20]);

    let metadata = create_block_metadata(&transactions, producer).unwrap();

    assert_eq!(metadata.transaction_count, 2);
    assert_eq!(metadata.total_gas_used, 31000);
    assert_eq!(metadata.total_value_transferred, 1500);
    assert_eq!(metadata.producer, producer);
    let mut as_list = (transactions.len() as u64).to_le_bytes().to_vec();
    for tx in &transactions {
        as_list.extend_from_slice(&encode_blockchain_data(tx).unwrap());
    }
    assert_eq!(metadata.encoding_stats.compressed_size, as_list.len());
    assert_eq!(metadata.encoding_stats.compression_ratio_percent, 100);
}

#[test]
fn test_pretty_bytes() {
    let block_hash = BlockHash([255u8; 32]);

    let pretty_bytes = to_json_pretty_bytes(&block_hash).unwrap();
    let pretty_string = String::from_utf8(pretty_bytes).unwrap();

    // Should contain newlines and proper formatting
    assert!(pretty_string.contains('\n'));
    assert!(pretty_string.contains("  ")); // Indentation

    println!("Pretty JSON bytes: {}", pretty_string);
}

#[test]
fn test_address_creation() {
    let addr1 = Address::random();
    let addr2 = Address::random();

    // Addresses should be different
    assert_ne!(addr1, addr2);

    // Zero address should be all zeros
    let zero = Address::zero();
    assert_eq!(zero.as_bytes(), &[0u8; 20]);
}

#[test]
fn test_transaction_creation() {
    let tx = Transaction {
        from: Address::random(),
        to: Address::random(),
        value: 1000,
        data: vec![1, 2, 3],
        nonce: 5,
        gas_limit: 21000,
        signature: vec![0; 64],
        sig_type: SignatureType::Ed25519,
    };

    assert_eq!(tx.value, 1000);
    assert_eq!(tx.nonce, 5);
    assert_eq!(tx.data.len(), 3);
}

#[test]
fn test_basic_hashing() {
    let data = b"test_data";

    // Blake3 test
    let hash1 = blake3_hash(data);
    let hash2 = blake3_hash(data);

    // Same data should produce same hash
    assert_eq!(hash1, hash2);
    assert_eq!(hash1.len(), 32);
}

#[test]
fn test_basic_types() {
    let addr1 = Address::zero();
    let addr2 = Address::zero();

    // Zero addresses should be equal
    assert_eq!(addr1, addr2);

    // Should be 20 bytes of zeros
    assert_eq!(addr1.as_bytes().len(), 20);
    assert!(addr1.as_bytes().iter().all(|&b| b == 0));
}

#[test]
fn main_test_full_consensus_flow() {
    let mut engine = engine_with(&[(1, 1000), (2, 1000)], &[1]);

    // Add transaction
    let tx = signed(&engine, Address::new(1), Address::new(2), 100, 0);
    engine.add_transaction(tx).unwrap();

    // Produce block
    let producer = engine.select_block_producer(1).unwrap();
    let mut block = engine.produce_block(producer, 1).unwrap();

    // Collect signatures and verify
    engine.collect_validator_signatures(&mut block);
    engine.verify_and_add_block(block).unwrap();

    assert_eq!(engine.get_block_count(), 1);
    assert_eq!(engine.get_account_balance(&Address::new(1)), 900);
    assert_eq!(engine.get_account_balance(&Address::new(2)), 1100);
}

#[test]
fn test_recursive_proof_chain() {
    let mut engine = engine_with(&[(1, 1000)], &[1]);

    // Produce multiple blocks to test recursive proofs
    for i in 0..3u64 {
        let tx = signed(&engine, Address::new(1), Address::new(1), 1, i);
        engine.add_transaction(tx).unwrap();

        let producer = engine.select_block_producer(i + 1).unwrap();
        let mut block = engine.produce_block(producer, i + 1).unwrap();
        engine.collect_validator_signatures(&mut block);
        engine.verify_and_add_block(block).unwrap();
    }

    assert_eq!(engine.get_block_count(), 3);

    // Each block should have a recursive proof that proves the entire chain
    for (i, block) in engine.blocks.iter().enumerate() {
        assert!(!block.recursive_proof.proof_data.is_empty());
        println!(
            "Block {} recursive proof size: {} bytes",
            i + 1,
            block.recursive_proof.proof_data.len()
        );
    }
    assert_eq!(engine.chain_receipt.height, 3);
    assert_eq!(engine.chain_receipt.cumulative_tx_count, 3);
    assert_eq!(engine.chain_receipt.state_root, engine.blocks[2].header.state_root.0);
    assert!(engine.chain_receipt.verify(&engine.image_ids.recursion));
}
