//! Executing transactions against the world state.
//!
//! A transaction fails if its signature is invalid, its nonce is not the
//! sender's, or the sender cannot pay the value and the fee for its whole gas
//! limit. Otherwise the value and the fee for the gas consumed leave the
//! sender, its nonce goes up by one, and the value reaches the receiver, whose
//! account is created if there is none. A batch is executed as a whole: if
//! any transaction fails, nothing changes.

use crate::crypto::hash::{
    compute_state_root_enhanced, keccak256_digest, keccak256_hash, state_root_preimage,
    DOMAIN_STATE_ENTRY,
};
use crate::serialization::{item_views, Canonical};
use crate::types::{
    balance_in, nonce_in, Account, AccountView, Address, BlockHash, Transaction, TransactionView,
    WorldState,
};
use vstd::prelude::*;

verus! {

/// Why a transaction cannot be executed.
#[derive(Debug, Clone, Copy, PartialEq, Eq, Structural)]
pub enum TransactionError {
    /// The signature does not verify for the sender.
    InvalidSignature,
    /// The nonce is not the sender's current nonce.
    NonceMismatch,
    /// The gas limit is below what the transaction consumes.
    GasLimitTooLow,
    /// The sender's balance is below the value and the fee for the gas limit.
    InsufficientBalance,
    /// The sender's nonce cannot go up any more.
    NonceExhausted,
    /// The receiver's balance would not fit in 64 bits.
    BalanceOverflow,
    /// The batch's gas would go beyond the block's gas limit.
    BlockGasExceeded,
}

/// The gas that a transaction consumes: 21000 and 16 for each byte of payload.
pub open spec fn intrinsic_gas(tx: TransactionView) -> nat {
    21000 + 16 * tx.data.len()
}

/// The account at an address, or an empty one where there is none.
pub open spec fn account_or_fresh(accounts: Map<Seq<u8>, AccountView>, address: Seq<u8>) -> AccountView {
    if accounts.contains_key(address) {
        accounts[address]
    } else {
        AccountView::fresh(0)
    }
}

/// The sender's account once the value and the fee have left it.
pub open spec fn debited_sender(
    accounts: Map<Seq<u8>, AccountView>,
    tx: TransactionView,
    unit_price: u64,
) -> AccountView {
    let sender = account_or_fresh(accounts, tx.from);
    AccountView {
        balance: (sender.balance - tx.value - intrinsic_gas(tx) * unit_price) as u64,
        nonce: (sender.nonce + 1) as u64,
        code: sender.code,
        storage: sender.storage,
    }
}

/// The accounts after a transaction that passes its checks.
pub open spec fn apply_to_accounts(
    accounts: Map<Seq<u8>, AccountView>,
    tx: TransactionView,
    unit_price: u64,
) -> Map<Seq<u8>, AccountView> {
    let debited = accounts.insert(tx.from, debited_sender(accounts, tx, unit_price));
    let receiver = account_or_fresh(debited, tx.to);
    debited.insert(
        tx.to,
        AccountView {
            balance: (receiver.balance + tx.value) as u64,
            nonce: receiver.nonce,
            code: receiver.code,
            storage: receiver.storage,
        },
    )
}

/// What executing a transaction gives: the gas it consumes, or the first
/// check that it fails.
pub open spec fn transaction_result(
    accounts: Map<Seq<u8>, AccountView>,
    tx: TransactionView,
    signature_valid: bool,
    unit_price: u64,
) -> Result<u64, TransactionError> {
    if !signature_valid {
        Err(TransactionError::InvalidSignature)
    } else if tx.nonce != nonce_in(accounts, tx.from) {
        Err(TransactionError::NonceMismatch)
    } else if intrinsic_gas(tx) > tx.gas_limit {
        Err(TransactionError::GasLimitTooLow)
    } else if balance_in(accounts, tx.from) < tx.value + tx.gas_limit * unit_price {
        Err(TransactionError::InsufficientBalance)
    } else if tx.nonce == u64::MAX {
        Err(TransactionError::NonceExhausted)
    } else if balance_in(
        accounts.insert(tx.from, debited_sender(accounts, tx, unit_price)),
        tx.to,
    ) + tx.value > u64::MAX {
        Err(TransactionError::BalanceOverflow)
    } else {
        Ok(intrinsic_gas(tx) as u64)
    }
}

/// A copy of an account with another balance and nonce.
fn account_with(account: Option<&Account>, balance: u64, nonce: u64) -> (r: Account)
    ensures
        r@ == (match account {
            Some(a) => AccountView { balance, nonce, code: a@.code, storage: a@.storage },
            None => AccountView { balance, nonce, code: Seq::empty(), storage: Seq::empty() },
        }),
{
    match account {
        Some(a) => {
            let copy = a.clone();
            Account { balance, nonce, code: copy.code, storage: copy.storage }
        },
        None => {
            let fresh = Account::new(balance);
            Account { balance, nonce, code: fresh.code, storage: fresh.storage }
        },
    }
}

/// The gas that a payload of `len` bytes consumes, if it fits in 64 bits.
pub fn gas_for_payload(len: usize) -> (gas: Option<u64>)
    ensures
        match gas {
            Some(g) => g == 21000 + 16 * len,
            None => 21000 + 16 * len > u64::MAX,
        },
{
    if len as u64 <= (u64::MAX - 21000) / 16 {
        Some(21000 + 16 * (len as u64))
    } else {
        None
    }
}

/// Executes one transaction against the state. On an error the state is
/// left as it was.
pub fn apply_transaction(
    state: &mut WorldState,
    tx: &Transaction,
    signature_valid: bool,
    unit_price: u64,
) -> (r: Result<u64, TransactionError>)
    ensures
        r == transaction_result(old(state).account_views(), tx@, signature_valid, unit_price),
        final(state).global_nonce == old(state).global_nonce,
        final(state).state_root == old(state).state_root,
        final(state).block_number == old(state).block_number,
        match r {
            Ok(_) => final(state).account_views() == apply_to_accounts(
                old(state).account_views(),
                tx@,
                unit_price,
            ),
            Err(_) => final(state).account_views() == old(state).account_views()
                && final(state).accounts.keys() == old(state).accounts.keys(),
        },
{
    let ghost accounts = state.account_views();
    if !signature_valid {
        return Err(TransactionError::InvalidSignature);
    }
    let sender_balance = state.balance_of(&tx.from);
    let sender_nonce = state.nonce_of(&tx.from);
    if tx.nonce != sender_nonce {
        return Err(TransactionError::NonceMismatch);
    }
    let gas = match gas_for_payload(tx.data.len()) {
        Some(gas) => gas,
        None => {
            return Err(TransactionError::GasLimitTooLow);
        },
    };
    if gas > tx.gas_limit {
        return Err(TransactionError::GasLimitTooLow);
    }
    assert(tx.gas_limit * unit_price <= u64::MAX * u64::MAX) by (nonlinear_arith)
        requires
            tx.gas_limit <= u64::MAX,
            unit_price <= u64::MAX,
    ;
    assert(gas * unit_price <= tx.gas_limit * unit_price) by (nonlinear_arith)
        requires
            gas <= tx.gas_limit,
            unit_price >= 0,
    ;
    let max_fee: u128 = (tx.gas_limit as u128) * (unit_price as u128);
    if (sender_balance as u128) < tx.value as u128 + max_fee {
        return Err(TransactionError::InsufficientBalance);
    }
    if tx.nonce == u64::MAX {
        return Err(TransactionError::NonceExhausted);
    }
    let fee: u128 = (gas as u128) * (unit_price as u128);
    let debit: u64 = (tx.value as u128 + fee) as u64;
    let remaining: u64 = sender_balance - debit;
    let same = tx.from == tx.to;
    let receiver_balance = if same {
        remaining
    } else {
        state.balance_of(&tx.to)
    };
    let ghost debited_map = accounts.insert(tx.from@, debited_sender(accounts, tx@, unit_price));
    assert(balance_in(debited_map, tx.to@) == receiver_balance);
    if receiver_balance > u64::MAX - tx.value {
        return Err(TransactionError::BalanceOverflow);
    }
    let debited = account_with(state.get_account(&tx.from), remaining, sender_nonce + 1);
    assert(debited@ == debited_sender(accounts, tx@, unit_price));
    state.insert_account(tx.from, debited);
    let credited = account_with(
        state.get_account(&tx.to),
        receiver_balance + tx.value,
        state.nonce_of(&tx.to),
    );
    state.insert_account(tx.to, credited);
    Ok(gas)
}

/// Where a batch failed and why.
#[derive(Debug, Clone, Copy, PartialEq, Eq, Structural)]
pub struct BatchFailure {
    pub index: usize,
    pub error: TransactionError,
}

/// What executing the first `k` transactions of a batch gives: the accounts
/// after them with the gas they consumed, or the position of the first
/// transaction that fails, with its error. `flags[i]` says whether the
/// signature of transaction `i` is valid.
pub open spec fn batch_result(
    accounts: Map<Seq<u8>, AccountView>,
    txs: Seq<TransactionView>,
    flags: Seq<bool>,
    unit_price: u64,
    block_gas_limit: u64,
    k: nat,
) -> Result<(Map<Seq<u8>, AccountView>, nat), (nat, TransactionError)>
    decreases k,
{
    if k == 0 {
        Ok((accounts, 0nat))
    } else {
        match batch_result(accounts, txs, flags, unit_price, block_gas_limit, (k - 1) as nat) {
            Err(e) => Err(e),
            Ok((before, gas_before)) => match transaction_result(
                before,
                txs[k - 1],
                flags[k - 1],
                unit_price,
            ) {
                Err(e) => Err(((k - 1) as nat, e)),
                Ok(gas) => if gas_before + gas > block_gas_limit {
                    Err(((k - 1) as nat, TransactionError::BlockGasExceeded))
                } else {
                    Ok(
                        (
                            apply_to_accounts(before, txs[k - 1], unit_price),
                            (gas_before + gas) as nat,
                        ),
                    )
                },
            },
        }
    }
}

/// The key of a state entry: the address behind twelve zero bytes.
pub open spec fn state_entry_key(address: Seq<u8>) -> Seq<u8> {
    Seq::new(12, |i: int| 0u8) + address
}

/// The fingerprint of an account: the Keccak-256 digest of the state-entry
/// tag and the account's canonical encoding. The encoding lists the slots of
/// the storage as the account holds them, which for an account that has its
/// invariant is the order of their keys: there the fingerprint is one of the
/// storage as a map.
pub open spec fn account_fingerprint(account: AccountView) -> Seq<u8> {
    keccak256_digest(seq![DOMAIN_STATE_ENTRY] + Account::encoding(account))
}

/// The bytes that the state root is taken over: the previous root, then for
/// each of the first `k` addresses in order its key and the fingerprint of
/// its account.
pub open spec fn commitment_preimage(
    prev_root: Seq<u8>,
    keys: Seq<Seq<u8>>,
    accounts: Map<Seq<u8>, AccountView>,
    k: nat,
) -> Seq<u8>
    decreases k,
{
    if k == 0 {
        prev_root
    } else {
        commitment_preimage(prev_root, keys, accounts, (k - 1) as nat) + state_entry_key(
            keys[k - 1],
        ) + account_fingerprint(accounts[keys[k - 1]])
    }
}

/// The state root that commits to a map of accounts after `prev_root`: the
/// Keccak-256 digest over the previous root and every account in the order
/// of the addresses' bytes.
pub open spec fn commitment_of(accounts: Map<Seq<u8>, AccountView>, prev_root: Seq<u8>) -> Seq<u8> {
    let keys = crate::address_map::sorted_keys(accounts.dom());
    keccak256_digest(commitment_preimage(prev_root, keys, accounts, keys.len()))
}

/// The state root that commits to the accounts of `state` after `prev_root`.
pub open spec fn state_commitment(state: &WorldState, prev_root: Seq<u8>) -> Seq<u8> {
    commitment_of(state.account_views(), prev_root)
}

/// The fingerprint of an account.
pub fn fingerprint_account(account: &Account) -> (fingerprint: [u8; 32])
    ensures
        fingerprint@ == account_fingerprint(account@),
{
    let mut bytes: Vec<u8> = Vec::new();
    bytes.push(DOMAIN_STATE_ENTRY);
    account.write(&mut bytes);
    assert(bytes@ =~= seq![DOMAIN_STATE_ENTRY] + Account::encoding(account@));
    keccak256_hash(bytes.as_slice())
}

/// The key of the state entry of an address.
pub fn entry_key(address: &Address) -> (key: [u8; 32])
    ensures
        key@ == state_entry_key(address@),
{
    let mut key = [0u8; 32];
    let mut i: usize = 0;
    while i < 20
        invariant
            i <= 20,
            forall|j: int| 0 <= j < 12 ==> key@[j] == 0,
            forall|j: int| 0 <= j < i ==> key@[12 + j] == address@[j],
        decreases 20 - i,
    {
        key[12 + i] = address.0[i];
        i += 1;
    }
    assert(key@ =~= state_entry_key(address@));
    key
}

/// The state root that commits to the accounts of `state` after `prev_root`.
pub fn compute_state_commitment(state: &WorldState, prev_root: &BlockHash) -> (root: BlockHash)
    ensures
        root@ == state_commitment(state, prev_root@),
{
    let ghost keys = state.accounts.keys();
    let ghost accounts = state.account_views();
    let n = state.accounts.len();
    let mut updates: Vec<([u8; 32], [u8; 32])> = Vec::new();
    let mut i: usize = 0;
    proof {
        use_type_invariant(&state.accounts);
            state.accounts.lemma_keys_and_values();
        assert(accounts.dom() =~= state.accounts@.dom());
    }
    while i < n
        invariant
            i <= n,
            n == keys.len(),
            keys == state.accounts.keys(),
            accounts == state.account_views(),
            updates@.len() == i,
            state_root_preimage(prev_root@, updates@) == commitment_preimage(
                prev_root@,
                keys,
                accounts,
                i as nat,
            ),
        decreases n - i,
    {
        let entry = state.accounts.entry_at(i);
        proof {
            use_type_invariant(&state.accounts);
            state.accounts.lemma_keys_and_values();
            assert(state.accounts@.contains_key(keys[i as int]));
            assert(accounts[keys[i as int]] == entry.value@);
        }
        let key = entry_key(&entry.address);
        let fingerprint = fingerprint_account(&entry.value);
        let ghost before = updates@;
        updates.push((key, fingerprint));
        proof {
            assert(updates@.drop_last() =~= before);
            assert(updates@.last() == (key, fingerprint));
        }
        i += 1;
    }
    BlockHash(compute_state_root_enhanced(updates.as_slice(), &prev_root.0))
}

/// Executes a batch against a copy of `state`. On success the copy is
/// returned, with the accounts after the whole batch and the root that
/// commits to them after the previous root, together with the gas consumed.
/// If any transaction fails, the failure is returned and nothing else.
pub fn execute_batch(
    state: &WorldState,
    transactions: &[Transaction],
    signature_flags: &[bool],
    unit_price: u64,
    block_gas_limit: u64,
) -> (r: Result<(WorldState, u64), BatchFailure>)
    requires
        signature_flags@.len() == transactions@.len(),
    ensures
        match batch_result(
            state.account_views(),
            item_views(transactions@),
            signature_flags@,
            unit_price,
            block_gas_limit,
            transactions@.len(),
        ) {
            Ok((accounts, gas)) => r matches Ok((next, gas_used)) && {
                &&& next.account_views() == accounts
                &&& gas_used == gas
                &&& next.state_root@ == state_commitment(&next, state.state_root@)
                &&& next.global_nonce == state.global_nonce
                &&& next.block_number == state.block_number
            },
            Err((index, error)) => r == Err::<(WorldState, u64), BatchFailure>(
                BatchFailure { index: index as usize, error },
            ) && index < transactions@.len(),
        },
{
    let ghost txs = item_views(transactions@);
    let mut scratch = state.clone();
    let mut gas_used: u64 = 0;
    let mut i: usize = 0;
    while i < transactions.len()
        invariant
            i <= transactions@.len(),
            signature_flags@.len() == transactions@.len(),
            txs == item_views(transactions@),
            scratch.global_nonce == state.global_nonce,
            scratch.block_number == state.block_number,
            gas_used <= block_gas_limit,
            batch_result(
                state.account_views(),
                txs,
                signature_flags@,
                unit_price,
                block_gas_limit,
                i as nat,
            ) == Ok::<(Map<Seq<u8>, AccountView>, nat), (nat, TransactionError)>(
                (scratch.account_views(), gas_used as nat),
            ),
        decreases transactions@.len() - i,
    {
        assert(txs[i as int] == transactions@[i as int]@);
        match apply_transaction(&mut scratch, &transactions[i], signature_flags[i], unit_price) {
            Err(error) => {
                proof {
                    lemma_batch_failure_stays(
                        state.account_views(),
                        txs,
                        signature_flags@,
                        unit_price,
                        block_gas_limit,
                        (i + 1) as nat,
                        transactions@.len(),
                    );
                }
                return Err(BatchFailure { index: i, error });
            },
            Ok(gas) => {
                if gas > block_gas_limit - gas_used {
                    proof {
                        lemma_batch_failure_stays(
                            state.account_views(),
                            txs,
                            signature_flags@,
                            unit_price,
                            block_gas_limit,
                            (i + 1) as nat,
                            transactions@.len(),
                        );
                    }
                    return Err(
                        BatchFailure { index: i, error: TransactionError::BlockGasExceeded },
                    );
                }
                gas_used = gas_used + gas;
            },
        }
        i += 1;
    }
    let root = compute_state_commitment(&scratch, &state.state_root);
    scratch.state_root = root;
    Ok((scratch, gas_used))
}

/// Once a batch has failed at some transaction, it has failed there however
/// many more transactions follow.
pub proof fn lemma_batch_failure_stays(
    accounts: Map<Seq<u8>, AccountView>,
    txs: Seq<TransactionView>,
    flags: Seq<bool>,
    unit_price: u64,
    block_gas_limit: u64,
    j: nat,
    k: nat,
)
    requires
        j <= k,
        batch_result(accounts, txs, flags, unit_price, block_gas_limit, j) is Err,
    ensures
        batch_result(accounts, txs, flags, unit_price, block_gas_limit, k) == batch_result(
            accounts,
            txs,
            flags,
            unit_price,
            block_gas_limit,
            j,
        ),
    decreases k,
{
    if j < k {
        lemma_batch_failure_stays(
            accounts,
            txs,
            flags,
            unit_price,
            block_gas_limit,
            j,
            (k - 1) as nat,
        );
    }
}

/// Executing a batch is a function of the state, the batch and the block's
/// parameters: equal inputs give equal accounts, equal gas and the same
/// verdict, whoever executes them.
pub proof fn lemma_execution_deterministic(
    accounts_a: Map<Seq<u8>, AccountView>,
    accounts_b: Map<Seq<u8>, AccountView>,
    txs_a: Seq<TransactionView>,
    txs_b: Seq<TransactionView>,
    flags_a: Seq<bool>,
    flags_b: Seq<bool>,
    unit_price: u64,
    block_gas_limit: u64,
)
    requires
        accounts_a == accounts_b,
        txs_a == txs_b,
        flags_a == flags_b,
    ensures
        batch_result(accounts_a, txs_a, flags_a, unit_price, block_gas_limit, txs_a.len())
            == batch_result(accounts_b, txs_b, flags_b, unit_price, block_gas_limit, txs_b.len()),
{
}

} // verus!
