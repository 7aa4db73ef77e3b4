use zk_sac_engine::account_storage::key_order;
use zk_sac_engine::address_map::{address_order, AddressMap};
use zk_sac_engine::consensus::execution::{
    apply_transaction, compute_state_commitment, entry_key, execute_batch, fingerprint_account,
    gas_for_payload, BatchFailure, TransactionError,
};
use zk_sac_engine::crypto::hash::keccak256_hash;
use zk_sac_engine::serialization::encode;
use zk_sac_engine::types::{
    Account, Address, BlockHash, ConfigError, ProtocolConfig, StorageSlot, Transaction, WorldState,
    ZkVMConfig,
};

fn state_with(accounts: &[(u8, u64)]) -> WorldState {
    let mut state = WorldState::default();
    for (id, balance) in accounts {
        state.insert_account(Address::new(*id), Account::new(*balance));
    }
    state
}

fn transfer(from: u8, to: u8, value: u64, nonce: u64) -> Transaction {
    Transaction::new(Address::new(from), Address::new(to), value, nonce)
}

#[test]
fn a_transfer_moves_value_and_raises_the_nonce() {
    let mut state = state_with(&[(1, 1000)]);
    assert_eq!(apply_transaction(&mut state, &transfer(1, 2, 100, 0), true, 0), Ok(21000));
    assert_eq!(state.balance_of(&Address::new(1)), 900);
    assert_eq!(state.nonce_of(&Address::new(1)), 1);
    assert_eq!(state.balance_of(&Address::new(2)), 100);
    assert_eq!(state.nonce_of(&Address::new(2)), 0);
    assert_eq!(state.account_count(), 2);
    assert_eq!(state.get_account(&Address::new(2)), Some(&Account::new(100)));
    assert_eq!(state.get_account(&Address::new(3)), None);
}

#[test]
fn the_fee_is_for_the_gas_consumed() {
    let mut state = state_with(&[(1, 1000000)]);
    let mut tx = transfer(1, 2, 100, 0);
    tx.data = vec![0; 10];
    tx.gas_limit = 30000;
    assert_eq!(apply_transaction(&mut state, &tx, true, 3), Ok(21160));
    assert_eq!(state.balance_of(&Address::new(1)), 1000000 - 100 - 3 * 21160);
    assert_eq!(state.balance_of(&Address::new(2)), 100);
    assert_eq!(gas_for_payload(0), Some(21000));
    assert_eq!(gas_for_payload(1), Some(21016));
    assert_eq!(gas_for_payload(usize::MAX), None);
}

#[test]
fn a_transfer_to_oneself_costs_the_fee_only() {
    let mut state = state_with(&[(1, 100000)]);
    assert_eq!(apply_transaction(&mut state, &transfer(1, 1, 500, 0), true, 1), Ok(21000));
    assert_eq!(state.balance_of(&Address::new(1)), 79000);
    assert_eq!(state.nonce_of(&Address::new(1)), 1);
    assert_eq!(state.account_count(), 1);
}

#[test]
fn code_and_storage_stay_with_the_account() {
    let mut state = WorldState::default();
    let account = Account {
        balance: 10,
        nonce: 0,
        code: vec![1, 2, 3],
        storage: vec![StorageSlot { key: [1; 32], value: [2; 32] }],
    };
    state.insert_account(Address::new(1), account.clone());
    state.insert_account(Address::new(2), account.clone());
    apply_transaction(&mut state, &transfer(1, 2, 4, 0), true, 0).unwrap();
    let sender = state.get_account(&Address::new(1)).unwrap();
    assert_eq!(sender.code, vec![1, 2, 3]);
    assert_eq!(sender.storage, account.storage);
    assert_eq!(sender.balance, 6);
    let receiver = state.get_account(&Address::new(2)).unwrap();
    assert_eq!(receiver.code, vec![1, 2, 3]);
    assert_eq!(receiver.balance, 14);
}

#[test]
fn execution_errors_each_have_their_input() {
    let mut state = state_with(&[(1, 1000), (2, u64::MAX)]);
    let before = state.clone();
    let same = |a: &WorldState, b: &WorldState| {
        a.balance_of(&Address::new(1)) == b.balance_of(&Address::new(1))
            && a.nonce_of(&Address::new(1)) == b.nonce_of(&Address::new(1))
            && a.balance_of(&Address::new(2)) == b.balance_of(&Address::new(2))
            && a.account_count() == b.account_count()
    };
    assert_eq!(
        apply_transaction(&mut state, &transfer(1, 3, 1, 0), false, 0),
        Err(TransactionError::InvalidSignature)
    );
    assert_eq!(
        apply_transaction(&mut state, &transfer(1, 3, 1, 1), true, 0),
        Err(TransactionError::NonceMismatch)
    );
    let mut low_gas = transfer(1, 3, 1, 0);
    low_gas.data = vec![1];
    assert_eq!(
        apply_transaction(&mut state, &low_gas, true, 0),
        Err(TransactionError::GasLimitTooLow)
    );
    assert_eq!(
        apply_transaction(&mut state, &transfer(1, 3, 1001, 0), true, 0),
        Err(TransactionError::InsufficientBalance)
    );
    assert_eq!(
        apply_transaction(&mut state, &transfer(1, 3, 1000, 0), true, 1),
        Err(TransactionError::InsufficientBalance)
    );
    assert_eq!(
        apply_transaction(&mut state, &transfer(1, 3, 1, 0), true, u64::MAX),
        Err(TransactionError::InsufficientBalance)
    );
    assert_eq!(
        apply_transaction(&mut state, &transfer(3, 1, 1, 0), true, 0),
        Err(TransactionError::InsufficientBalance)
    );
    assert_eq!(
        apply_transaction(&mut state, &transfer(1, 2, 1, 0), true, 0),
        Err(TransactionError::BalanceOverflow)
    );
    assert!(same(&state, &before));
    let mut worn = WorldState::default();
    worn.insert_account(
        Address::new(1),
        Account { balance: 10, nonce: u64::MAX, code: vec![], storage: vec![] },
    );
    assert_eq!(
        apply_transaction(&mut worn, &transfer(1, 2, 1, u64::MAX), true, 0),
        Err(TransactionError::NonceExhausted)
    );
    assert_eq!(apply_transaction(&mut state, &transfer(3, 4, 0, 0), true, 0), Ok(21000));
    assert_eq!(state.nonce_of(&Address::new(3)), 1);
}

#[test]
fn a_batch_fails_as_a_whole() {
    let state = state_with(&[(1, 1000)]);
    let txs = vec![transfer(1, 2, 100, 0), transfer(2, 3, 50, 0), transfer(1, 3, 1, 1)];
    let (next, gas) = execute_batch(&state, &txs, &[true, true, true], 0, 100000).unwrap();
    assert_eq!(gas, 63000);
    assert_eq!(next.balance_of(&Address::new(1)), 899);
    assert_eq!(next.balance_of(&Address::new(2)), 50);
    assert_eq!(next.balance_of(&Address::new(3)), 51);
    assert_eq!(state.balance_of(&Address::new(1)), 1000);
    assert_eq!(next.state_root, compute_state_commitment(&next, &state.state_root));

    let failure = |r: Result<(WorldState, u64), BatchFailure>| r.map(|_| ()).unwrap_err();
    assert_eq!(
        failure(execute_batch(&state, &txs, &[true, false, true], 0, 100000)),
        BatchFailure { index: 1, error: TransactionError::InvalidSignature }
    );
    assert_eq!(
        failure(execute_batch(&state, &txs, &[true, true, true], 0, 62999)),
        BatchFailure { index: 2, error: TransactionError::BlockGasExceeded }
    );
    let bad = vec![transfer(1, 2, 100, 0), transfer(1, 2, 100, 0)];
    assert_eq!(
        failure(execute_batch(&state, &bad, &[true, true], 0, 100000)),
        BatchFailure { index: 1, error: TransactionError::NonceMismatch }
    );
    let (same, gas) = execute_batch(&state, &[], &[], 0, 0).unwrap();
    assert_eq!(gas, 0);
    assert_eq!(same.balance_of(&Address::new(1)), 1000);
}

#[test]
fn the_state_root_commits_to_the_accounts_in_address_order() {
    let mut forwards = WorldState::default();
    forwards.insert_account(Address::new(1), Account::new(10));
    forwards.insert_account(Address::new(2), Account::new(20));
    let mut backwards = WorldState::default();
    backwards.insert_account(Address::new(2), Account::new(20));
    backwards.insert_account(Address::new(1), Account::new(10));
    let prev = BlockHash([5; 32]);
    let root = compute_state_commitment(&forwards, &prev);
    assert_eq!(root, compute_state_commitment(&backwards, &prev));

    let mut bytes = vec![5u8; 32];
    for (id, balance) in [(1u8, 10u64), (2, 20)] {
        let mut key = [0u8; 32];
        key[31] = id;
        assert_eq!(entry_key(&Address::new(id)), key);
        bytes.extend_from_slice(&key);
        let mut tagged = vec![3u8];
        tagged.extend_from_slice(&encode(&Account::new(balance)));
        assert_eq!(fingerprint_account(&Account::new(balance)), keccak256_hash(&tagged));
        bytes.extend_from_slice(&keccak256_hash(&tagged));
    }
    assert_eq!(root.0, keccak256_hash(&bytes));
    assert_ne!(root, compute_state_commitment(&forwards, &BlockHash([6; 32])));
    forwards.insert_account(Address::new(1), Account::new(11));
    assert_ne!(root, compute_state_commitment(&forwards, &prev));
    assert_eq!(compute_state_commitment(&WorldState::default(), &prev).0, keccak256_hash(&[5; 32]));
}

#[test]
fn address_map_keeps_the_order_of_the_bytes() {
    let mut map: AddressMap<u64> = AddressMap::new();
    let mut high = [0u8; 20];
    high[0] = 1;
    map.insert(Address(high), 1);
    map.insert(Address::new(255), 2);
    map.insert(Address::new(3), 3);
    map.insert(Address::new(255), 4);
    assert_eq!(map.len(), 3);
    assert_eq!(map.entry_at(0).address, Address::new(3));
    assert_eq!(map.entry_at(1).address, Address::new(255));
    assert_eq!(map.entry_at(1).value, 4);
    assert_eq!(map.entry_at(2).address, Address(high));
    assert_eq!(map.get(&Address::new(3)), Some(&3));
    assert_eq!(map.get(&Address::new(4)), None);
    assert!(map.contains_key(&Address(high)));
    assert!(!map.contains_key(&Address::zero()));
    assert_eq!(address_order(&Address::new(3), &Address::new(255)), -1);
    assert_eq!(address_order(&Address(high), &Address::new(255)), 1);
    assert_eq!(address_order(&Address::new(3), &Address::new(3)), 0);
}

#[test]
fn default_state_and_constructors() {
    let state = WorldState::default();
    assert_eq!(state.account_count(), 0);
    assert_eq!(state.global_nonce, 0);
    assert_eq!(state.state_root, BlockHash::zero());
    assert_eq!(state.block_number, 0);
    assert_eq!(state.balance_of(&Address::new(1)), 0);
    let mut id = [0u8; 20];
    id[19] = 7;
    assert_eq!(Address::new(7), Address(id));
    assert_eq!(Address::from_bytes(id), Address(id));
    assert_eq!(BlockHash::new([3; 32]).as_bytes(), &[3; 32]);
    assert_ne!(BlockHash::random(), BlockHash::random());
    let tx = Transaction::new(Address::new(1), Address::new(2), 5, 6);
    assert_eq!(tx.gas_limit, 21000);
    assert_eq!(tx.signature, vec![0; 64]);
    assert!(tx.data.is_empty());
    let pq = Transaction::with_post_quantum(Address::new(1), Address::new(2), 5, 6);
    assert_eq!(pq.signature, Vec::<u8>::new());
    assert_eq!(pq.value, 5);
    assert_eq!(pq.nonce, 6);
    assert_eq!(Account::new(9), Account { balance: 9, nonce: 0, code: vec![], storage: vec![] });
}

#[test]
fn configuration_ranges() {
    let config = ProtocolConfig::default();
    assert_eq!(config.validate(), Ok(()));
    assert_eq!(config.block_time_ms, 4000);
    assert_eq!(config.max_block_size, 1000000);
    assert_eq!(config.max_transactions_per_block, 10000);
    assert_eq!(config.min_stake_threshold, 32000000000);
    assert_eq!(config.slashing_rate, 500);
    assert_eq!(config.reward_rate, 400);
    assert_eq!((config.finality_numerator, config.finality_denominator), (2, 3));
    assert_eq!(config.zkvm_config, ZkVMConfig::default());
    assert_eq!(config.zkvm_config.memory_limit, 1024 * 1024 * 1024);
    assert_eq!(config.zkvm_config.max_circuits, 16);
    let check = |change: &dyn Fn(&mut ProtocolConfig), e: ConfigError| {
        let mut c = ProtocolConfig::default();
        change(&mut c);
        assert_eq!(c.validate(), Err(e));
    };
    check(&|c| c.block_time_ms = 0, ConfigError::ZeroBlockTime);
    check(&|c| c.max_block_size = 0, ConfigError::ZeroMaxBlockSize);
    check(&|c| c.max_transactions_per_block = 0, ConfigError::ZeroMaxTransactions);
    check(&|c| c.min_stake_threshold = 0, ConfigError::ZeroMinStake);
    check(&|c| c.slashing_rate = 10001, ConfigError::SlashingRateOutOfRange);
    check(&|c| c.reward_rate = 10001, ConfigError::RewardRateOutOfRange);
    check(&|c| c.finality_denominator = 0, ConfigError::FinalityThresholdOutOfRange);
    check(&|c| c.finality_numerator = 4, ConfigError::FinalityThresholdOutOfRange);
    check(&|c| c.epoch_length_blocks = 0, ConfigError::ZeroEpochLength);
    check(&|c| c.min_producer_score = 10001, ConfigError::ProducerScoreOutOfRange);
    check(
        &|c| {
            c.block_time_ms = 0;
            c.epoch_length_blocks = 0
        },
        ConfigError::ZeroBlockTime,
    );
    let mut edge = ProtocolConfig::default();
    edge.slashing_rate = 10000;
    edge.finality_numerator = 3;
    edge.min_producer_score = 10000;
    edge.max_election_attempts = 0;
    assert_eq!(edge.validate(), Ok(()));
}

#[test]
fn storage_is_a_map_held_in_the_order_of_its_keys() {
    let mut account = Account::new(7);
    assert!(account.is_well_formed());
    assert_eq!(account.storage_at(&[1; 32]), None);
    account.set_storage([5; 32], [50; 32]);
    account.set_storage([1; 32], [10; 32]);
    account.set_storage([9; 32], [90; 32]);
    account.set_storage([3; 32], [30; 32]);
    let keys: Vec<u8> = account.storage.iter().map(|s| s.key[0]).collect();
    assert_eq!(keys, vec![1, 3, 5, 9]);
    assert!(account.is_well_formed());
    assert_eq!(account.storage_at(&[5; 32]), Some([50; 32]));
    assert_eq!(account.storage_at(&[4; 32]), None);
    assert_eq!(account.storage_at(&[10; 32]), None);

    // A key occurs once: setting it again replaces what it held.
    account.set_storage([5; 32], [51; 32]);
    assert_eq!(account.storage.len(), 4);
    assert_eq!(account.storage_at(&[5; 32]), Some([51; 32]));
    assert_eq!(account.storage_at(&[3; 32]), Some([30; 32]));
    assert_eq!((account.balance, account.nonce), (7, 0));

    // The order of setting does not show, nor in what commits to the account.
    let mut other = Account::new(7);
    other.set_storage([9; 32], [90; 32]);
    other.set_storage([5; 32], [0; 32]);
    other.set_storage([3; 32], [30; 32]);
    other.set_storage([5; 32], [51; 32]);
    other.set_storage([1; 32], [10; 32]);
    assert_eq!(other, account);
    assert_eq!(fingerprint_account(&other), fingerprint_account(&account));

    // The order is that of the bytes from the first on.
    let mut low = [0u8; 32];
    low[31] = 255;
    let mut high = [0u8; 32];
    high[0] = 1;
    assert_eq!(key_order(&low, &high), -1);
    assert_eq!(key_order(&high, &low), 1);
    assert_eq!(key_order(&high, &high), 0);
}

#[test]
fn storage_out_of_order_is_recognised() {
    let mut account = Account::new(0);
    account.storage.push(StorageSlot { key: [2; 32], value: [0; 32] });
    assert!(account.is_well_formed());
    account.storage.push(StorageSlot { key: [1; 32], value: [0; 32] });
    assert!(!account.is_well_formed());
    account.storage[1].key = [2; 32];
    assert!(!account.is_well_formed());
    account.storage[1].key = [3; 32];
    assert!(account.is_well_formed());

    let mut state = state_with(&[(1, 5), (2, 6)]);
    assert!(state.has_storage_in_order());
    state.insert_account(Address::new(3), account);
    assert!(state.has_storage_in_order());
    let mut twice = Account::new(0);
    twice.storage.push(StorageSlot { key: [4; 32], value: [0; 32] });
    twice.storage.push(StorageSlot { key: [4; 32], value: [1; 32] });
    state.insert_account(Address::new(2), twice);
    assert!(!state.has_storage_in_order());
    assert!(WorldState::default().has_storage_in_order());
}

#[test]
fn a_transfer_leaves_storage_as_it_is() {
    let mut state = state_with(&[(2, 0)]);
    let mut sender = Account::new(1_000_000);
    sender.set_storage([1; 32], [2; 32]);
    state.insert_account(Address::new(1), sender);
    let mut receiver = Account::new(0);
    receiver.set_storage([3; 32], [4; 32]);
    state.insert_account(Address::new(2), receiver);
    assert_eq!(apply_transaction(&mut state, &transfer(1, 2, 5, 0), true, 1), Ok(21000));
    assert_eq!(state.get_account(&Address::new(1)).unwrap().storage_at(&[1; 32]), Some([2; 32]));
    assert_eq!(state.get_account(&Address::new(2)).unwrap().storage_at(&[3; 32]), Some([4; 32]));
    assert!(state.has_storage_in_order());
}
