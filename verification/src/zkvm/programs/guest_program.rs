//! The state-transition relation as the guest program computes it: from the
//! previous state root, a batch of transactions and the block's number and
//! time to the new state root, the number of transactions, the gas used and
//! whether every transaction was admissible.
//!
//! The result is a function of the input alone, so two executions on equal
//! inputs agree on every output.

use vstd::bytes::{spec_u64_to_le_bytes, u64_to_le_bytes};
use vstd::prelude::*;

verus! {

/// A transaction as the guest program sees it.
#[derive(Debug, PartialEq, Eq)]
pub struct TransactionData {
    pub from: [u8; 20],
    pub to: [u8; 20],
    pub value: u64,
    pub nonce: u64,
    pub data: Vec<u8>,
}

/// A guest transaction as mathematical values.
pub struct TransactionDataView {
    pub from: Seq<u8>,
    pub to: Seq<u8>,
    pub value: u64,
    pub nonce: u64,
    pub data: Seq<u8>,
}

impl View for TransactionData {
    type V = TransactionDataView;

    open spec fn view(&self) -> TransactionDataView {
        TransactionDataView {
            from: self.from@,
            to: self.to@,
            value: self.value,
            nonce: self.nonce,
            data: self.data@,
        }
    }
}

/// What the relation takes in.
#[derive(Debug, PartialEq, Eq)]
pub struct StateTransitionInput {
    pub prev_state_root: [u8; 32],
    pub transactions: Vec<TransactionData>,
    pub block_number: u64,
    pub timestamp: u64,
}

/// The input of the relation as mathematical values.
pub struct StateTransitionInputView {
    pub prev_state_root: Seq<u8>,
    pub transactions: Seq<TransactionDataView>,
    pub block_number: u64,
    pub timestamp: u64,
}

impl View for StateTransitionInput {
    type V = StateTransitionInputView;

    open spec fn view(&self) -> StateTransitionInputView {
        StateTransitionInputView {
            prev_state_root: self.prev_state_root@,
            transactions: batch_view(self.transactions@),
            block_number: self.block_number,
            timestamp: self.timestamp,
        }
    }
}

/// What the relation makes public.
#[derive(Debug, Clone, Copy, PartialEq, Eq)]
pub struct StateTransitionOutput {
    pub new_state_root: [u8; 32],
    pub transaction_count: u64,
    pub gas_used: u64,
    pub success: bool,
}

/// The public output of the relation as mathematical values.
pub struct StateTransitionOutputView {
    pub new_state_root: Seq<u8>,
    pub transaction_count: u64,
    pub gas_used: u64,
    pub success: bool,
}

impl View for StateTransitionOutput {
    type V = StateTransitionOutputView;

    open spec fn view(&self) -> StateTransitionOutputView {
        StateTransitionOutputView {
            new_state_root: self.new_state_root@,
            transaction_count: self.transaction_count,
            gas_used: self.gas_used,
            success: self.success,
        }
    }
}

/// The views of a batch.
pub open spec fn batch_view(txs: Seq<TransactionData>) -> Seq<TransactionDataView> {
    txs.map_values(|t: TransactionData| t@)
}

/// The gas that every transaction costs.
pub const BASE_GAS: u64 = 21000;

/// The gas that each byte of payload costs.
pub const GAS_PER_DATA_BYTE: u64 = 16;

/// The gas that a transaction with `data_len` bytes of payload consumes.
pub open spec fn transaction_gas(data_len: nat) -> nat {
    21000 + 16 * data_len
}

/// Whether every byte of `s` is zero.
pub open spec fn all_zero(s: Seq<u8>) -> bool {
    forall|i: int| 0 <= i < s.len() ==> s[i] == 0
}

/// The signature condition of the relation: neither party is the zero address.
pub open spec fn signature_admissible(tx: TransactionDataView) -> bool {
    !all_zero(tx.from) && !all_zero(tx.to)
}

/// The 32-byte fingerprint of a transaction: both parties mixed together,
/// with the value over bytes 0 to 7 and the nonce over bytes 8 to 15.
pub open spec fn transaction_hash_spec(tx: TransactionDataView) -> Seq<u8> {
    Seq::new(
        32,
        |i: int|
            if i < 8 {
                tx.from[i] ^ tx.to[i] ^ spec_u64_to_le_bytes(tx.value)[i]
            } else if i < 16 {
                tx.from[i] ^ tx.to[i] ^ spec_u64_to_le_bytes(tx.nonce)[i - 8]
            } else if i < 20 {
                tx.from[i] ^ tx.to[i]
            } else {
                0u8
            },
    )
}

/// The root after the transaction with fingerprint `tx_hash` at position
/// `tx_index` is taken into `root`.
pub open spec fn update_state_root_spec(root: Seq<u8>, tx_hash: Seq<u8>, tx_index: u64) -> Seq<u8> {
    Seq::new(
        32,
        |i: int|
            if i < 8 {
                root[i] ^ tx_hash[i] ^ spec_u64_to_le_bytes(tx_index)[i]
            } else {
                root[i] ^ tx_hash[i]
            },
    )
}

/// The root once the block's number and time are bound into it.
pub open spec fn finalize_state_root_spec(root: Seq<u8>, block_number: u64, timestamp: u64) -> Seq<
    u8,
> {
    Seq::new(
        32,
        |i: int|
            if i < 8 {
                root[i] ^ spec_u64_to_le_bytes(block_number)[i]
            } else if i < 16 {
                root[i] ^ spec_u64_to_le_bytes(timestamp)[i - 8]
            } else {
                root[i]
            },
    )
}

/// The root after the first `k` transactions are taken into `root` in order.
pub open spec fn root_after(root: Seq<u8>, txs: Seq<TransactionDataView>, k: nat) -> Seq<u8>
    decreases k,
{
    if k == 0 {
        root
    } else {
        update_state_root_spec(
            root_after(root, txs, (k - 1) as nat),
            transaction_hash_spec(txs[k - 1]),
            (k - 1) as u64,
        )
    }
}

/// The gas that the first `k` transactions consume together.
pub open spec fn gas_after(txs: Seq<TransactionDataView>, k: nat) -> nat
    decreases k,
{
    if k == 0 {
        0
    } else {
        gas_after(txs, (k - 1) as nat) + transaction_gas(txs[k - 1].data.len())
    }
}

/// The number of transactions that are executed: all of them, or those
/// before the first that is inadmissible or brings the gas beyond 64 bits.
pub open spec fn executed_count(txs: Seq<TransactionDataView>, k: nat) -> nat
    decreases txs.len() - k,
{
    if k >= txs.len() {
        txs.len()
    } else if !signature_admissible(txs[k as int]) || gas_after(txs, k + 1) > u64::MAX {
        k
    } else {
        executed_count(txs, k + 1)
    }
}

/// The public values of the relation.
pub struct TransitionOutcome {
    pub new_state_root: Seq<u8>,
    pub transaction_count: nat,
    pub gas_used: nat,
    pub success: bool,
}

/// The state-transition relation. Where every transaction is admissible, the
/// new root takes in each transaction in order and is then bound to the
/// block's number and time. Otherwise the batch fails: the root stays the
/// previous root, and the gas is that of the transactions before the failure.
pub open spec fn state_transition_spec(
    prev_state_root: Seq<u8>,
    txs: Seq<TransactionDataView>,
    block_number: u64,
    timestamp: u64,
) -> TransitionOutcome {
    let executed = executed_count(txs, 0);
    let success = executed == txs.len();
    TransitionOutcome {
        new_state_root: if success {
            finalize_state_root_spec(
                root_after(prev_state_root, txs, txs.len()),
                block_number,
                timestamp,
            )
        } else {
            prev_state_root
        },
        transaction_count: txs.len(),
        gas_used: gas_after(txs, executed),
        success,
    }
}

/// Whether an address is all zero.
fn is_zero_address(a: &[u8; 20]) -> (r: bool)
    ensures
        r == all_zero(a@),
{
    let mut i: usize = 0;
    while i < 20
        invariant
            i <= 20,
            forall|j: int| 0 <= j < i ==> a@[j] == 0,
        decreases 20 - i,
    {
        if a[i] != 0 {
            return false;
        }
        i += 1;
    }
    true
}

/// Whether a transaction meets the signature condition of the relation.
pub fn verify_transaction_signature(tx: &TransactionData) -> (ok: bool)
    ensures
        ok == signature_admissible(tx@),
{
    !is_zero_address(&tx.from) && !is_zero_address(&tx.to)
}

/// The fingerprint of a transaction.
pub fn compute_transaction_hash(tx: &TransactionData) -> (hash: [u8; 32])
    ensures
        hash@ == transaction_hash_spec(tx@),
{
    let value_bytes = u64_to_le_bytes(tx.value);
    let nonce_bytes = u64_to_le_bytes(tx.nonce);
    let mut hash = [0u8; 32];
    let mut i: usize = 0;
    while i < 20
        invariant
            i <= 20,
            value_bytes@ == spec_u64_to_le_bytes(tx.value),
            nonce_bytes@ == spec_u64_to_le_bytes(tx.nonce),
            value_bytes@.len() == 8,
            nonce_bytes@.len() == 8,
            forall|j: int| 0 <= j < i ==> hash@[j] == transaction_hash_spec(tx@)[j],
            forall|j: int| i <= j < 32 ==> hash@[j] == 0,
        decreases 20 - i,
    {
        let mixed = tx.from[i] ^ tx.to[i];
        let byte = if i < 8 {
            mixed ^ value_bytes[i]
        } else if i < 16 {
            mixed ^ nonce_bytes[i - 8]
        } else {
            mixed
        };
        hash[i] = byte;
        i += 1;
    }
    assert(hash@ =~= transaction_hash_spec(tx@));
    hash
}

/// Takes the transaction with fingerprint `tx_hash` at position `tx_index`
/// into the root.
pub fn update_state_root(current_root: [u8; 32], tx_hash: [u8; 32], tx_index: u64) -> (new_root: [u8;
    32])
    ensures
        new_root@ == update_state_root_spec(current_root@, tx_hash@, tx_index),
{
    let index_bytes = u64_to_le_bytes(tx_index);
    let mut new_root = current_root;
    let mut i: usize = 0;
    while i < 32
        invariant
            i <= 32,
            index_bytes@ == spec_u64_to_le_bytes(tx_index),
            index_bytes@.len() == 8,
            forall|j: int|
                0 <= j < i ==> new_root@[j] == update_state_root_spec(
                    current_root@,
                    tx_hash@,
                    tx_index,
                )[j],
            forall|j: int| i <= j < 32 ==> new_root@[j] == current_root@[j],
        decreases 32 - i,
    {
        let mixed = current_root[i] ^ tx_hash[i];
        let byte = if i < 8 {
            mixed ^ index_bytes[i]
        } else {
            mixed
        };
        new_root[i] = byte;
        i += 1;
    }
    assert(new_root@ =~= update_state_root_spec(current_root@, tx_hash@, tx_index));
    new_root
}

/// Binds the block's number and time into the root.
pub fn finalize_state_root(state_root: [u8; 32], block_number: u64, timestamp: u64) -> (final_root:
    [u8; 32])
    ensures
        final_root@ == finalize_state_root_spec(state_root@, block_number, timestamp),
{
    let block_bytes = u64_to_le_bytes(block_number);
    let time_bytes = u64_to_le_bytes(timestamp);
    let mut final_root = state_root;
    let mut i: usize = 0;
    while i < 8
        invariant
            i <= 8,
            block_bytes@ == spec_u64_to_le_bytes(block_number),
            time_bytes@ == spec_u64_to_le_bytes(timestamp),
            block_bytes@.len() == 8,
            time_bytes@.len() == 8,
            forall|j: int|
                0 <= j < 32 ==> #[trigger] final_root@[j] == if j < i {
                    state_root@[j] ^ block_bytes@[j]
                } else if 8 <= j < 8 + i {
                    state_root@[j] ^ time_bytes@[j - 8]
                } else {
                    state_root@[j]
                },
        decreases 8 - i,
    {
        final_root[i] = state_root[i] ^ block_bytes[i];
        final_root[i + 8] = state_root[i + 8] ^ time_bytes[i];
        i += 1;
    }
    assert(final_root@ =~= finalize_state_root_spec(state_root@, block_number, timestamp));
    final_root
}

/// Executes the state-transition relation on `input`.
pub fn verify_state_transition(input: StateTransitionInput) -> (output: StateTransitionOutput)
    ensures
        ({
            let outcome = state_transition_spec(
                input.prev_state_root@,
                batch_view(input.transactions@),
                input.block_number,
                input.timestamp,
            );
            &&& output.new_state_root@ == outcome.new_state_root
            &&& output.transaction_count == outcome.transaction_count
            &&& output.gas_used == outcome.gas_used
            &&& output.success == outcome.success
        }),
{
    let ghost txs = batch_view(input.transactions@);
    let n = input.transactions.len();
    let mut new_state_root = input.prev_state_root;
    let mut total_gas_used: u64 = 0;
    let mut success = true;
    let mut i: usize = 0;
    while i < n && success
        invariant
            i <= n,
            n == input.transactions@.len(),
            txs == batch_view(input.transactions@),
            total_gas_used == gas_after(txs, if success { i as nat } else { (i - 1) as nat }),
            success ==> new_state_root@ == root_after(input.prev_state_root@, txs, i as nat),
            success ==> executed_count(txs, 0) == executed_count(txs, i as nat),
            !success ==> i >= 1 && executed_count(txs, 0) == i - 1 && i - 1 < n,
        decreases n - i + if success { 1int } else { 0int },
    {
        let tx = &input.transactions[i];
        assert(txs[i as int] == tx@);
        let data_gas = if tx.data.len() as u64 <= (u64::MAX - BASE_GAS) / GAS_PER_DATA_BYTE {
            Some(BASE_GAS + GAS_PER_DATA_BYTE * tx.data.len() as u64)
        } else {
            None
        };
        let next_gas = match data_gas {
            Some(g) => total_gas_used.checked_add(g),
            None => None,
        };
        if !verify_transaction_signature(tx) || next_gas.is_none() {
            success = false;
        } else {
            let tx_hash = compute_transaction_hash(tx);
            new_state_root = update_state_root(new_state_root, tx_hash, i as u64);
            total_gas_used = next_gas.unwrap();
        }
        i += 1;
    }
    if success {
        new_state_root = finalize_state_root(new_state_root, input.block_number, input.timestamp);
    } else {
        new_state_root = input.prev_state_root;
    }
    StateTransitionOutput {
        new_state_root,
        transaction_count: n as u64,
        gas_used: total_gas_used,
        success,
    }
}

} // verus!
