//! A byte-level state transition: the state is a byte string, and each
//! transaction is folded into it through its canonical encoding.

use crate::crypto::hash::{append_bytes, blake3_digest, blake3_hash};
use crate::serialization::{encode, item_views, write_u64, Canonical};
use crate::types::{Transaction, TransactionView};
use vstd::bytes::spec_u64_to_le_bytes;
use vstd::prelude::*;

verus! {

/// What the transition takes in.
#[derive(Debug, PartialEq, Eq)]
pub struct StateTransitionInput {
    pub prev_state: Vec<u8>,
    pub transactions: Vec<Transaction>,
    pub block_number: u64,
    pub timestamp: u64,
}

/// What the transition gives.
#[derive(Debug, PartialEq, Eq)]
pub struct StateTransitionOutput {
    pub new_state: Vec<u8>,
    pub state_root: Vec<u8>,
    pub transaction_count: usize,
    pub block_hash: Vec<u8>,
}

/// `state` with `bytes` mixed into its front, byte by byte, as far as both reach.
pub open spec fn mix_into(state: Seq<u8>, bytes: Seq<u8>) -> Seq<u8> {
    Seq::new(
        state.len(),
        |j: int|
            if j < bytes.len() {
                state[j] ^ bytes[j]
            } else {
                state[j]
            },
    )
}

/// The state after the first `k` transactions are mixed in, each through its
/// canonical encoding.
pub open spec fn state_after(state: Seq<u8>, txs: Seq<TransactionView>, k: nat) -> Seq<u8>
    decreases k,
{
    if k == 0 {
        state
    } else {
        mix_into(state_after(state, txs, (k - 1) as nat), Transaction::encoding(txs[k - 1]))
    }
}

/// The bytes that the block hash is taken over: the previous state, the new
/// state's root, the block's number and its time.
pub open spec fn block_hash_preimage(
    prev_state: Seq<u8>,
    state_root: Seq<u8>,
    block_number: u64,
    timestamp: u64,
) -> Seq<u8> {
    prev_state + state_root + spec_u64_to_le_bytes(block_number) + spec_u64_to_le_bytes(timestamp)
}

/// Executes the transition: mixes each transaction into the state, takes
/// the BLAKE3 digest of the new state as its root, and hashes the block.
pub fn execute_state_transition(input: StateTransitionInput) -> (output: StateTransitionOutput)
    ensures
        output.new_state@ == state_after(
            input.prev_state@,
            item_views(input.transactions@),
            input.transactions@.len(),
        ),
        output.state_root@ == blake3_digest(output.new_state@),
        output.transaction_count == input.transactions@.len(),
        output.block_hash@ == blake3_digest(
            block_hash_preimage(
                input.prev_state@,
                output.state_root@,
                input.block_number,
                input.timestamp,
            ),
        ),
{
    let ghost txs = item_views(input.transactions@);
    let mut new_state = crate::types::clone_bytes(&input.prev_state);
    let mut i: usize = 0;
    while i < input.transactions.len()
        invariant
            i <= input.transactions@.len(),
            txs == item_views(input.transactions@),
            new_state@ == state_after(input.prev_state@, txs, i as nat),
        decreases input.transactions@.len() - i,
    {
        let tx_bytes = encode(&input.transactions[i]);
        let ghost before = new_state@;
        let mut j: usize = 0;
        while j < tx_bytes.len() && j < new_state.len()
            invariant
                new_state@.len() == before.len(),
                j <= new_state@.len(),
                j <= tx_bytes@.len(),
                forall|k: int| 0 <= k < j ==> new_state@[k] == before[k] ^ tx_bytes@[k],
                forall|k: int| j <= k < before.len() ==> new_state@[k] == before[k],
            decreases new_state@.len() - j,
        {
            let mixed = new_state[j] ^ tx_bytes[j];
            new_state.set(j, mixed);
            j += 1;
        }
        assert(new_state@ =~= mix_into(before, tx_bytes@));
        assert(txs[i as int] == input.transactions@[i as int]@);
        i += 1;
    }
    let root = blake3_hash(new_state.as_slice());
    let state_root = vstd::slice::slice_to_vec(root.as_slice());
    let mut block_data: Vec<u8> = Vec::new();
    append_bytes(&mut block_data, input.prev_state.as_slice());
    append_bytes(&mut block_data, state_root.as_slice());
    write_u64(input.block_number, &mut block_data);
    write_u64(input.timestamp, &mut block_data);
    assert(block_data@ =~= block_hash_preimage(
        input.prev_state@,
        state_root@,
        input.block_number,
        input.timestamp,
    ));
    let hash = blake3_hash(block_data.as_slice());
    StateTransitionOutput {
        new_state,
        state_root,
        transaction_count: input.transactions.len(),
        block_hash: vstd::slice::slice_to_vec(hash.as_slice()),
    }
}

/// The entry point of the guest program. It has nothing to do here: input
/// and output go through the proving backend.
pub fn sp1_main() {
}

} // verus!
