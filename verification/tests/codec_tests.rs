use zk_sac_engine::serialization::{
    create_block_metadata, decode, decode_batch, decode_blockchain_data, decode_state_data, encode,
    encode_state_data, estimate_size, extract_block_summary, to_json_pretty, SerializationError,
};
use zk_sac_engine::types::{
    Account, Address, Block, BlockHash, BlockHeader, ProofType, ProtocolRule, SignatureType,
    StorageSlot, Transaction, ValidatorSignature, ZkProof,
};

fn sample_transaction() -> Transaction {
    Transaction {
        from: Address([1; 20]),
        to: Address([2; 20]),
        value: 0x0102030405060708,
        data: vec![0xAA, 0xBB],
        gas_limit: 21032,
        nonce: 3,
        signature: vec![9; 3],
        sig_type: SignatureType::PostQuantum,
    }
}

fn sample_header() -> BlockHeader {
    BlockHeader {
        previous_hash: BlockHash([1; 32]),
        merkle_root: BlockHash([2; 32]),
        state_root: BlockHash([3; 32]),
        timestamp: 4,
        block_number: 5,
        gas_limit: 7,
        gas_used: 6,
        producer: Address([8; 20]),
        extra_data: vec![9],
    }
}

fn sample_proof() -> ZkProof {
    ZkProof {
        proof_data: vec![1, 2],
        public_inputs: vec![],
        verification_key: vec![3],
        proof_type: ProofType::Plonky3,
    }
}

fn sample_block() -> Block {
    Block {
        header: sample_header(),
        transactions: vec![sample_transaction(), Transaction::new(Address::new(1), Address::new(2), 3, 4)],
        validator_signatures: vec![ValidatorSignature {
            validator_address: Address([7; 20]),
            stake_weight: 11,
            signature: vec![1; 64],
            sig_type: SignatureType::Ed25519,
        }],
        recursive_proof: sample_proof(),
        protocol_updates: vec![ProtocolRule {
            rule_id: 0x01020304,
            rule_data: vec![5, 6, 7],
            validity_proof: sample_proof(),
            activation_epoch: 5,
        }],
    }
}

#[test]
fn transaction_wire_format() {
    let mut expected = Vec::new();
    expected.extend_from_slice(&[1; 20]);
    expected.extend_from_slice(&[2; 20]);
    expected.extend_from_slice(&[8, 7, 6, 5, 4, 3, 2, 1]);
    expected.extend_from_slice(&3u64.to_le_bytes());
    expected.extend_from_slice(&21032u64.to_le_bytes());
    expected.extend_from_slice(&2u64.to_le_bytes());
    expected.extend_from_slice(&[0xAA, 0xBB]);
    expected.push(2);
    expected.extend_from_slice(&3u64.to_le_bytes());
    expected.extend_from_slice(&[9; 3]);
    assert_eq!(encode(&sample_transaction()), expected);
    assert_eq!(estimate_size(&sample_transaction()), Ok(expected.len()));
}

#[test]
fn header_wire_format() {
    let mut expected = Vec::new();
    expected.extend_from_slice(&[1; 32]);
    expected.extend_from_slice(&[2; 32]);
    expected.extend_from_slice(&[3; 32]);
    expected.extend_from_slice(&4u64.to_le_bytes());
    expected.extend_from_slice(&5u64.to_le_bytes());
    expected.extend_from_slice(&6u64.to_le_bytes());
    expected.extend_from_slice(&7u64.to_le_bytes());
    expected.extend_from_slice(&[8; 20]);
    expected.extend_from_slice(&1u64.to_le_bytes());
    expected.push(9);
    assert_eq!(encode(&sample_header()), expected);
}

#[test]
fn block_wire_format_is_its_parts_in_order() {
    let block = sample_block();
    let mut expected = encode(&block.header);
    expected.extend_from_slice(&2u64.to_le_bytes());
    expected.extend_from_slice(&encode(&block.transactions[0]));
    expected.extend_from_slice(&encode(&block.transactions[1]));
    expected.extend_from_slice(&1u64.to_le_bytes());
    expected.extend_from_slice(&encode(&block.validator_signatures[0]));
    expected.extend_from_slice(&encode(&block.recursive_proof));
    expected.extend_from_slice(&1u64.to_le_bytes());
    expected.extend_from_slice(&encode(&block.protocol_updates[0]));
    assert_eq!(encode(&block), expected);

    let mut attestation = Vec::new();
    attestation.extend_from_slice(&[7; 20]);
    attestation.extend_from_slice(&11u64.to_le_bytes());
    attestation.push(0);
    attestation.extend_from_slice(&64u64.to_le_bytes());
    attestation.extend_from_slice(&[1; 64]);
    assert_eq!(encode(&block.validator_signatures[0]), attestation);

    let mut proof = Vec::new();
    proof.extend_from_slice(&2u64.to_le_bytes());
    proof.extend_from_slice(&[1, 2]);
    proof.extend_from_slice(&0u64.to_le_bytes());
    proof.extend_from_slice(&1u64.to_le_bytes());
    proof.push(3);
    proof.push(2);
    assert_eq!(encode(&block.recursive_proof), proof);

    let mut rule = vec![4, 3, 2, 1];
    rule.extend_from_slice(&3u64.to_le_bytes());
    rule.extend_from_slice(&[5, 6, 7]);
    rule.extend_from_slice(&proof);
    rule.extend_from_slice(&5u64.to_le_bytes());
    assert_eq!(encode(&block.protocol_updates[0]), rule);
}

#[test]
fn decoding_inverts_encoding() {
    let tx = sample_transaction();
    assert_eq!(decode::<Transaction>(&encode(&tx)), Ok(sample_transaction()));
    assert_eq!(decode::<BlockHeader>(&encode(&sample_header())), Ok(sample_header()));
    assert_eq!(decode::<Block>(&encode(&sample_block())), Ok(sample_block()));
    let empty = Block {
        header: sample_header(),
        transactions: vec![],
        validator_signatures: vec![],
        recursive_proof: ZkProof {
            proof_data: vec![],
            public_inputs: vec![],
            verification_key: vec![],
            proof_type: ProofType::SP1,
        },
        protocol_updates: vec![],
    };
    let bytes = encode(&empty);
    let decoded: Block = decode(&bytes).unwrap();
    assert_eq!(encode(&decoded), bytes);
    assert_eq!(decode::<u64>(&encode(&7u64)), Ok(7));
    assert_eq!(encode(&0x01020304u32), vec![4, 3, 2, 1]);
    assert_eq!(decode::<Vec<u8>>(&encode(&vec![1u8, 2, 3])), Ok(vec![1, 2, 3]));
    for t in [SignatureType::Ed25519, SignatureType::Secp256k1, SignatureType::PostQuantum] {
        assert_eq!(decode::<SignatureType>(&encode(&t)), Ok(t));
    }
    for t in [ProofType::SP1, ProofType::Risc0, ProofType::Plonky3] {
        assert_eq!(decode::<ProofType>(&encode(&t)), Ok(t));
    }
}

#[test]
fn account_round_trip() {
    let account = Account {
        balance: 5,
        nonce: 6,
        code: vec![1, 2],
        storage: vec![StorageSlot { key: [1; 32], value: [2; 32] }],
    };
    let bytes = encode_state_data(&account).unwrap();
    let mut expected = Vec::new();
    expected.extend_from_slice(&5u64.to_le_bytes());
    expected.extend_from_slice(&6u64.to_le_bytes());
    expected.extend_from_slice(&2u64.to_le_bytes());
    expected.extend_from_slice(&[1, 2]);
    expected.extend_from_slice(&1u64.to_le_bytes());
    expected.extend_from_slice(&[1; 32]);
    expected.extend_from_slice(&[2; 32]);
    assert_eq!(bytes, expected);
    assert_eq!(decode_state_data::<Account>(&bytes), Ok(account));
}

#[test]
fn what_is_no_encoding_is_rejected() {
    let bytes = encode(&sample_transaction());
    for cut in 0..bytes.len() {
        assert_eq!(
            decode::<Transaction>(&bytes[..cut]),
            Err(SerializationError::Malformed),
            "cut at {}",
            cut
        );
    }
    let mut longer = bytes.clone();
    longer.push(0);
    assert_eq!(decode::<Transaction>(&longer), Err(SerializationError::TrailingBytes));
    let mut bad_tag = bytes.clone();
    bad_tag[74] = 3;
    assert_eq!(decode::<Transaction>(&bad_tag), Err(SerializationError::Malformed));
    let mut huge_length = bytes.clone();
    huge_length[64..72].copy_from_slice(&u64::MAX.to_le_bytes());
    assert_eq!(decode::<Transaction>(&huge_length), Err(SerializationError::Malformed));
    assert_eq!(decode::<Address>(&[0; 19]), Err(SerializationError::Malformed));
    assert_eq!(decode::<Address>(&[0; 21]), Err(SerializationError::TrailingBytes));
    assert_eq!(decode::<SignatureType>(&[3]), Err(SerializationError::Malformed));
    let mut many = 3u64.to_le_bytes().to_vec();
    many.extend_from_slice(&encode(&sample_transaction()));
    let mut block_bytes = encode(&sample_header());
    block_bytes.extend_from_slice(&many);
    assert_eq!(decode::<Block>(&block_bytes), Err(SerializationError::Malformed));
    assert_eq!(
        decode_batch::<Address>(&[vec![0; 20], vec![0; 3], vec![0; 21]]),
        Err(SerializationError::Malformed)
    );
    assert_eq!(
        decode_batch::<Address>(&[vec![0; 20], vec![0; 21], vec![0; 3]]),
        Err(SerializationError::TrailingBytes)
    );
    assert_eq!(decode_blockchain_data::<BlockHash>(&[7; 32]), Ok(BlockHash([7; 32])));
}

#[test]
fn metadata_totals_and_overflow() {
    let mut a = sample_transaction();
    a.value = u64::MAX;
    let mut b = sample_transaction();
    b.value = 1;
    assert_eq!(
        create_block_metadata(&[a, b], Address::new(1)),
        Err(SerializationError::Overflow)
    );
    let mut a = sample_transaction();
    a.gas_limit = u64::MAX;
    a.value = 0;
    let mut b = sample_transaction();
    b.gas_limit = 1;
    assert_eq!(
        create_block_metadata(&[a, b], Address::new(1)),
        Err(SerializationError::Overflow)
    );
    let metadata = create_block_metadata(&[], Address::new(1)).unwrap();
    assert_eq!(metadata.transaction_count, 0);
    assert_eq!(metadata.total_gas_used, 0);
    assert_eq!(metadata.total_value_transferred, 0);
    assert_eq!(metadata.encoding_stats.compressed_size, 8);
}

#[test]
fn summary_of_a_block() {
    let block = sample_block();
    let summary = extract_block_summary(&block);
    assert_eq!(summary.block_number, 5);
    assert_eq!(summary.transaction_count, 2);
    assert_eq!(summary.producer, Address([8; 20]));
    assert_eq!(summary.timestamp, 4);
    assert_eq!(summary.total_size, encode(&block).len());
}

#[test]
fn debugging_text_is_json() {
    assert_eq!(to_json_pretty(&[1, 2]), Ok("[\n  1,\n  2\n]".to_string()));
    assert_eq!(to_json_pretty(&[]), Ok("[]".to_string()));
}

#[test]
fn state_snapshot_round_trip() {
    let mut state = zk_sac_engine::types::WorldState::default();
    state.insert_account(Address::new(2), Account::new(20));
    state.insert_account(
        Address::new(1),
        Account {
            balance: 10,
            nonce: 3,
            code: vec![7],
            storage: vec![StorageSlot { key: [1; 32], value: [2; 32] }],
        },
    );
    state.global_nonce = 5;
    state.state_root = BlockHash([9; 32]);
    state.block_number = 6;
    let bytes = encode(&state);
    let mut expected = 2u64.to_le_bytes().to_vec();
    expected.extend_from_slice(&Address::new(1).0);
    expected.extend_from_slice(&encode(state.get_account(&Address::new(1)).unwrap()));
    expected.extend_from_slice(&Address::new(2).0);
    expected.extend_from_slice(&encode(&Account::new(20)));
    expected.extend_from_slice(&5u64.to_le_bytes());
    expected.extend_from_slice(&[9; 32]);
    expected.extend_from_slice(&6u64.to_le_bytes());
    assert_eq!(bytes, expected);

    let decoded: zk_sac_engine::types::WorldState = decode_state_data(&bytes).unwrap();
    assert_eq!(decoded.account_count(), 2);
    assert_eq!(decoded.get_account(&Address::new(1)), state.get_account(&Address::new(1)));
    assert_eq!(decoded.balance_of(&Address::new(2)), 20);
    assert_eq!(decoded.global_nonce, 5);
    assert_eq!(decoded.state_root, BlockHash([9; 32]));
    assert_eq!(decoded.block_number, 6);
    assert_eq!(encode(&decoded), bytes);

    let mut out_of_order = 2u64.to_le_bytes().to_vec();
    out_of_order.extend_from_slice(&Address::new(2).0);
    out_of_order.extend_from_slice(&encode(&Account::new(20)));
    out_of_order.extend_from_slice(&Address::new(1).0);
    out_of_order.extend_from_slice(&encode(&Account::new(10)));
    out_of_order.extend_from_slice(&5u64.to_le_bytes());
    out_of_order.extend_from_slice(&[9; 32]);
    out_of_order.extend_from_slice(&6u64.to_le_bytes());
    assert!(matches!(
        decode_state_data::<zk_sac_engine::types::WorldState>(&out_of_order),
        Err(SerializationError::Malformed)
    ));
    let mut twice = 2u64.to_le_bytes().to_vec();
    for _ in 0..2 {
        twice.extend_from_slice(&Address::new(1).0);
        twice.extend_from_slice(&encode(&Account::new(10)));
    }
    twice.extend_from_slice(&[0; 48]);
    assert!(matches!(
        decode_state_data::<zk_sac_engine::types::WorldState>(&twice),
        Err(SerializationError::Malformed)
    ));
    let empty = encode(&zk_sac_engine::types::WorldState::default());
    assert_eq!(empty.len(), 8 + 8 + 32 + 8);
}

#[test]
fn witness_and_output_round_trip() {
    let output = zk_sac_engine::zkvm::programs::guest_program::StateTransitionOutput {
        new_state_root: [3; 32],
        transaction_count: 2,
        gas_used: 42000,
        success: true,
    };
    let bytes = zk_sac_engine::serialization::encode_zkvm_output(&output).unwrap();
    let mut expected = vec![3u8; 32];
    expected.extend_from_slice(&2u64.to_le_bytes());
    expected.extend_from_slice(&42000u64.to_le_bytes());
    expected.push(1);
    assert_eq!(bytes, expected);
    assert_eq!(zk_sac_engine::serialization::decode_zkvm_output(&bytes), Ok(output));
    let mut bad_flag = bytes.clone();
    bad_flag[48] = 2;
    assert_eq!(
        zk_sac_engine::serialization::decode_zkvm_output::<
            zk_sac_engine::zkvm::programs::guest_program::StateTransitionOutput,
        >(&bad_flag),
        Err(SerializationError::Malformed)
    );

    let witness = zk_sac_engine::types::ZkVMContext {
        previous_state_root: BlockHash([1; 32]),
        transactions: vec![sample_transaction()],
        block_number: 2,
        timestamp: 3,
        gas_limit: 4,
    };
    let bytes = encode(&witness);
    let mut expected = vec![1u8; 32];
    expected.extend_from_slice(&1u64.to_le_bytes());
    expected.extend_from_slice(&encode(&sample_transaction()));
    expected.extend_from_slice(&2u64.to_le_bytes());
    expected.extend_from_slice(&3u64.to_le_bytes());
    expected.extend_from_slice(&4u64.to_le_bytes());
    assert_eq!(bytes, expected);
    assert_eq!(decode::<zk_sac_engine::types::ZkVMContext>(&bytes), Ok(witness));

    let input = zk_sac_engine::zkvm::programs::guest_program::StateTransitionInput {
        prev_state_root: [1; 32],
        transactions: vec![zk_sac_engine::zkvm::programs::guest_program::TransactionData {
            from: [1; 20],
            to: [2; 20],
            value: 3,
            nonce: 4,
            data: vec![5],
        }],
        block_number: 6,
        timestamp: 7,
    };
    let bytes = encode(&input);
    assert_eq!(bytes.len(), 32 + 8 + (20 + 20 + 8 + 8 + 8 + 1) + 8 + 8);
    assert_eq!(
        decode::<zk_sac_engine::zkvm::programs::guest_program::StateTransitionInput>(&bytes),
        Ok(input)
    );
    let validator = zk_sac_engine::types::Validator {
        address: Address::new(1),
        stake: 2,
        public_key: vec![3; 32],
        performance_score: 4,
    };
    let bytes = encode(&validator);
    assert_eq!(bytes.len(), 20 + 8 + 8 + 32 + 8);
    assert_eq!(decode::<zk_sac_engine::types::Validator>(&bytes), Ok(validator));
}
