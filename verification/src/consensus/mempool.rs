//! The admission queue: transactions wait here, by sender and nonce, until a
//! block takes them.
//!
//! The queue is bounded as a whole and for each sender. It holds at most one
//! transaction for a sender and a nonce: of two, the one with the higher gas
//! limit stays. A block is assembled by walking the queue in the order of
//! senders and nonces and executing against a copy of the state: what
//! executes is taken, what is ahead of its sender's nonce keeps waiting, and
//! what can never execute is dropped.

use crate::address_map::{address_order, be_value};
use crate::consensus::execution::{
    apply_to_accounts, apply_transaction, batch_result, gas_for_payload, intrinsic_gas,
    transaction_result, TransactionError,
};
use crate::serialization::item_views;
use crate::types::{balance_in, nonce_in, AccountView, Transaction, TransactionView, WorldState};
use vstd::prelude::*;

verus! {

/// Why a transaction was not admitted.
#[derive(Debug, Clone, Copy, PartialEq, Eq, Structural)]
pub enum AdmissionError {
    /// The gas limit is below what the transaction consumes.
    Malformed,
    /// The signature does not verify for the sender.
    InvalidSignature,
    /// The nonce lies behind the sender's.
    NonceTooLow,
    /// The sender's balance is below the value and the fee for the gas limit.
    InsufficientBalance,
    /// The queue holds a transaction of this sender and nonce with at least
    /// this gas limit.
    DuplicateNonce,
    /// The sender has as many transactions waiting as one sender may.
    SenderQueueFull,
    /// The queue is full.
    QueueFull,
}

/// Whether `a` comes before `b` in the queue: by the sender's bytes, then by nonce.
pub open spec fn queued_before(a: TransactionView, b: TransactionView) -> bool {
    be_value(a.from) < be_value(b.from) || (a.from == b.from && a.nonce < b.nonce)
}

/// Whether two transactions are of one sender and nonce.
pub open spec fn same_slot(a: TransactionView, b: TransactionView) -> bool {
    a.from == b.from && a.nonce == b.nonce
}

/// Whether the queue is in order, which leaves no two transactions of one
/// sender and nonce.
pub open spec fn queue_sorted(queue: Seq<TransactionView>) -> bool {
    forall|i: int, j: int|
        0 <= i < j < queue.len() ==> queued_before(#[trigger] queue[i], #[trigger] queue[j])
}

/// The first position from `k` on whose transaction does not come before `tx`.
pub open spec fn slot_from(queue: Seq<TransactionView>, tx: TransactionView, k: int) -> int
    decreases queue.len() - k,
{
    if k >= queue.len() {
        queue.len() as int
    } else if !queued_before(queue[k], tx) {
        k
    } else {
        slot_from(queue, tx, k + 1)
    }
}

/// The number of transactions of `sender` among the first `k` of the queue.
pub open spec fn sender_count(queue: Seq<TransactionView>, sender: Seq<u8>, k: int) -> nat
    decreases k,
{
    if k <= 0 {
        0
    } else {
        sender_count(queue, sender, k - 1) + if queue[k - 1].from == sender {
            1nat
        } else {
            0nat
        }
    }
}

/// What submitting `tx` gives: the queue with it, or the reason why it is
/// not admitted.
pub open spec fn submit_spec(
    queue: Seq<TransactionView>,
    tx: TransactionView,
    signature_valid: bool,
    accounts: Map<Seq<u8>, AccountView>,
    unit_price: u64,
    capacity: nat,
    per_sender_limit: nat,
) -> Result<Seq<TransactionView>, AdmissionError> {
    if intrinsic_gas(tx) > tx.gas_limit {
        Err(AdmissionError::Malformed)
    } else if !signature_valid {
        Err(AdmissionError::InvalidSignature)
    } else if tx.nonce < nonce_in(accounts, tx.from) {
        Err(AdmissionError::NonceTooLow)
    } else if balance_in(accounts, tx.from) < tx.value + tx.gas_limit * unit_price {
        Err(AdmissionError::InsufficientBalance)
    } else {
        let slot = slot_from(queue, tx, 0);
        if slot < queue.len() && same_slot(queue[slot], tx) {
            if queue[slot].gas_limit >= tx.gas_limit {
                Err(AdmissionError::DuplicateNonce)
            } else {
                Ok(queue.update(slot, tx))
            }
        } else if sender_count(queue, tx.from, queue.len() as int) >= per_sender_limit {
            Err(AdmissionError::SenderQueueFull)
        } else if queue.len() >= capacity {
            Err(AdmissionError::QueueFull)
        } else {
            Ok(queue.insert(slot, tx))
        }
    }
}

/// Where the assembly of a block stands: the accounts of the scratch state,
/// the gas taken so far, the transactions taken and those that keep waiting.
pub struct Assembly {
    pub accounts: Map<Seq<u8>, AccountView>,
    pub gas: nat,
    pub selected: Seq<TransactionView>,
    pub kept: Seq<TransactionView>,
}

/// The assembly after one more transaction of the queue is looked at. It is
/// taken if the block has room for it and it executes; it keeps waiting if
/// the block is full, if the block's gas would not suffice, or if its nonce
/// lies ahead of its sender's; otherwise it is dropped.
pub open spec fn assembly_step(
    s: Assembly,
    tx: TransactionView,
    max_transactions: nat,
    unit_price: u64,
    block_gas_limit: u64,
) -> Assembly {
    if s.selected.len() >= max_transactions {
        Assembly { kept: s.kept.push(tx), ..s }
    } else {
        match transaction_result(s.accounts, tx, true, unit_price) {
            Ok(gas) => if s.gas + gas > block_gas_limit {
                Assembly { kept: s.kept.push(tx), ..s }
            } else {
                Assembly {
                    accounts: apply_to_accounts(s.accounts, tx, unit_price),
                    gas: (s.gas + gas) as nat,
                    selected: s.selected.push(tx),
                    kept: s.kept,
                }
            },
            Err(TransactionError::NonceMismatch) => if tx.nonce > nonce_in(s.accounts, tx.from) {
                Assembly { kept: s.kept.push(tx), ..s }
            } else {
                s
            },
            Err(_) => s,
        }
    }
}

/// The assembly after the first `k` transactions of the queue are looked at.
pub open spec fn assemble_spec(
    accounts: Map<Seq<u8>, AccountView>,
    queue: Seq<TransactionView>,
    max_transactions: nat,
    unit_price: u64,
    block_gas_limit: u64,
    k: nat,
) -> Assembly
    decreases k,
{
    if k == 0 {
        Assembly { accounts, gas: 0, selected: Seq::empty(), kept: Seq::empty() }
    } else {
        assembly_step(
            assemble_spec(
                accounts,
                queue,
                max_transactions,
                unit_price,
                block_gas_limit,
                (k - 1) as nat,
            ),
            queue[k - 1],
            max_transactions,
            unit_price,
            block_gas_limit,
        )
    }
}

/// The transactions that wait for a block.
pub struct Mempool {
    queue: Vec<Transaction>,
    capacity: usize,
    per_sender_limit: usize,
}

/// With the queue in order, the slot of a transaction is where everything
/// before comes before it and nothing from there on does.
pub proof fn lemma_slot(queue: Seq<TransactionView>, tx: TransactionView, k: int)
    requires
        queue_sorted(queue),
        0 <= k <= queue.len(),
        forall|j: int| 0 <= j < k ==> queued_before(#[trigger] queue[j], tx),
    ensures
        ({
            let slot = slot_from(queue, tx, k);
            &&& k <= slot <= queue.len()
            &&& forall|j: int| 0 <= j < slot ==> queued_before(#[trigger] queue[j], tx)
            &&& slot < queue.len() ==> !queued_before(queue[slot], tx)
        }),
    decreases queue.len() - k,
{
    if k < queue.len() && queued_before(queue[k], tx) {
        lemma_slot(queue, tx, k + 1);
    }
}

impl Mempool {
    /// The queue as mathematical values, in order.
    pub closed spec fn view(&self) -> Seq<TransactionView> {
        item_views(self.queue@)
    }

    /// The number of transactions that the queue may hold.
    pub closed spec fn capacity_spec(&self) -> nat {
        self.capacity as nat
    }

    /// The number of transactions of one sender that the queue may hold.
    pub closed spec fn per_sender_limit_spec(&self) -> nat {
        self.per_sender_limit as nat
    }

    /// The invariant: the queue is in order and within its capacity. Every
    /// queue has it.
    #[verifier::type_invariant]
    pub closed spec fn well_formed(&self) -> bool {
        queue_sorted(self@) && self.queue@.len() <= self.capacity
    }

    /// An empty queue with the given bounds.
    pub fn new(capacity: usize, per_sender_limit: usize) -> (pool: Mempool)
        ensures
            pool@ == Seq::<TransactionView>::empty(),
            pool.capacity_spec() == capacity,
            pool.per_sender_limit_spec() == per_sender_limit,
    {
        let pool = Mempool { queue: Vec::new(), capacity, per_sender_limit };
        assert(pool@ =~= Seq::<TransactionView>::empty());
        pool
    }

    /// The number of transactions that the queue may hold.
    pub fn capacity(&self) -> (n: usize)
        ensures
            n == self.capacity_spec(),
    {
        self.capacity
    }

    /// The number of transactions of one sender that the queue may hold.
    pub fn per_sender_limit(&self) -> (n: usize)
        ensures
            n == self.per_sender_limit_spec(),
    {
        self.per_sender_limit
    }

    /// The number of transactions waiting.
    pub fn len(&self) -> (n: usize)
        ensures
            n == self@.len(),
    {
        self.queue.len()
    }

    /// The transaction at position `i` of the queue.
    pub fn get(&self, i: usize) -> (tx: &Transaction)
        requires
            i < self@.len(),
        ensures
            tx@ == self@[i as int],
    {
        &self.queue[i]
    }

    /// Whether `a` comes before `b` in the queue.
    fn comes_before(a: &Transaction, b: &Transaction) -> (r: bool)
        ensures
            r == queued_before(a@, b@),
    {
        let order = address_order(&a.from, &b.from);
        order == -1 || (order == 0 && a.nonce < b.nonce)
    }

    /// Admits a transaction, or says why not. `signature_valid` is whether
    /// its signature verifies for its sender; the balance and the nonce are
    /// those of `state`.
    pub fn submit(
        &mut self,
        tx: Transaction,
        signature_valid: bool,
        state: &WorldState,
        unit_price: u64,
    ) -> (r: Result<(), AdmissionError>)
        ensures
            final(self).capacity_spec() == old(self).capacity_spec(),
            final(self).per_sender_limit_spec() == old(self).per_sender_limit_spec(),
            match submit_spec(
                old(self)@,
                tx@,
                signature_valid,
                state.account_views(),
                unit_price,
                old(self).capacity_spec(),
                old(self).per_sender_limit_spec(),
            ) {
                Ok(queue) => r is Ok && final(self)@ == queue,
                Err(e) => r == Err::<(), AdmissionError>(e) && final(self)@ == old(self)@,
            },
    {
        let ghost queue = self@;
        proof {
            use_type_invariant(&*self);
        }
        match gas_for_payload(tx.data.len()) {
            Some(gas) => {
                if gas > tx.gas_limit {
                    return Err(AdmissionError::Malformed);
                }
            },
            None => {
                return Err(AdmissionError::Malformed);
            },
        }
        if !signature_valid {
            return Err(AdmissionError::InvalidSignature);
        }
        if tx.nonce < state.nonce_of(&tx.from) {
            return Err(AdmissionError::NonceTooLow);
        }
        assert(tx.gas_limit * unit_price <= u64::MAX * u64::MAX) by (nonlinear_arith)
            requires
                tx.gas_limit <= u64::MAX,
                unit_price <= u64::MAX,
        ;
        let max_fee: u128 = (tx.gas_limit as u128) * (unit_price as u128);
        if (state.balance_of(&tx.from) as u128) < tx.value as u128 + max_fee {
            return Err(AdmissionError::InsufficientBalance);
        }
        let mut slot: usize = 0;
        let mut count: usize = 0;
        while slot < self.queue.len() && Self::comes_before(&self.queue[slot], &tx)
            invariant
                slot <= self.queue@.len(),
                queue == item_views(self.queue@),
                slot_from(queue, tx@, 0) == slot_from(queue, tx@, slot as int),
                forall|j: int| 0 <= j < slot ==> queued_before(#[trigger] queue[j], tx@),
            decreases self.queue@.len() - slot,
        {
            assert(queue[slot as int] == self.queue@[slot as int]@);
            slot += 1;
        }
        proof {
            if slot < self.queue@.len() {
                assert(queue[slot as int] == self.queue@[slot as int]@);
            }
        }
        if slot < self.queue.len() && self.queue[slot].from == tx.from && self.queue[slot].nonce
            == tx.nonce {
            if self.queue[slot].gas_limit >= tx.gas_limit {
                return Err(AdmissionError::DuplicateNonce);
            }
            let ghost tx_view = tx@;
            let mut updated: Vec<Transaction> = Vec::new();
            std::mem::swap(&mut updated, &mut self.queue);
            updated.set(slot, tx);
            proof {
                let after = item_views(updated@);
                assert(after =~= queue.update(slot as int, tx_view));
                assert forall|i: int, j: int| 0 <= i < j < after.len() implies queued_before(
                    #[trigger] after[i],
                    #[trigger] after[j],
                ) by {
                    assert(queued_before(queue[i], queue[j]));
                }
            }
            self.queue = updated;
            return Ok(());
        }
        let mut k: usize = 0;
        while k < self.queue.len()
            invariant
                k <= self.queue@.len(),
                queue == item_views(self.queue@),
                count <= k,
                count == sender_count(queue, tx.from@, k as int),
            decreases self.queue@.len() - k,
        {
            assert(queue[k as int] == self.queue@[k as int]@);
            if self.queue[k].from == tx.from {
                count += 1;
            }
            k += 1;
        }
        if count >= self.per_sender_limit {
            return Err(AdmissionError::SenderQueueFull);
        }
        if self.queue.len() >= self.capacity {
            return Err(AdmissionError::QueueFull);
        }
        let ghost tx_view = tx@;
        let mut updated: Vec<Transaction> = Vec::new();
        std::mem::swap(&mut updated, &mut self.queue);
        updated.insert(slot, tx);
        proof {
            let after = item_views(updated@);
            assert(after =~= queue.insert(slot as int, tx_view));
            lemma_slot(queue, tx_view, 0);
            assert forall|i: int, j: int| 0 <= i < j < after.len() implies queued_before(
                #[trigger] after[i],
                #[trigger] after[j],
            ) by {
                let bi = if i < slot { i } else { i - 1 };
                let bj = if j < slot { j } else { j - 1 };
                if i != slot && j != slot {
                    assert(queued_before(queue[bi], queue[bj]));
                } else if i == slot {
                    lemma_not_before_means_after(queue[slot as int], tx_view);
                    if bj > slot {
                        assert(queued_before(queue[slot as int], queue[bj]));
                        lemma_queued_before_transitive(tx_view, queue[slot as int], queue[bj]);
                    }
                } else {
                    assert(queued_before(queue[bi], tx_view));
                }
            }
        }
        self.queue = updated;
        Ok(())
    }

    /// Assembles the transactions of a block: walks the queue in order,
    /// executing against a copy of `state`, and takes up to
    /// `max_transactions` that execute within the block's gas limit. What
    /// keeps waiting stays in the queue; the rest is dropped. Gives the
    /// transactions taken, in order, with the state after them and the gas
    /// they use.
    pub fn assemble(
        &mut self,
        state: &WorldState,
        max_transactions: usize,
        unit_price: u64,
        block_gas_limit: u64,
    ) -> (r: (Vec<Transaction>, WorldState, u64))
        ensures
            final(self).capacity_spec() == old(self).capacity_spec(),
            final(self).per_sender_limit_spec() == old(self).per_sender_limit_spec(),
            ({
                let done = assemble_spec(
                    state.account_views(),
                    old(self)@,
                    max_transactions as nat,
                    unit_price,
                    block_gas_limit,
                    old(self)@.len(),
                );
                &&& item_views(r.0@) == done.selected
                &&& final(self)@ == done.kept
                &&& r.1.account_views() == done.accounts
                &&& r.1.state_root == state.state_root
                &&& r.1.block_number == state.block_number
                &&& r.1.global_nonce == state.global_nonce
                &&& r.2 == done.gas
                &&& r.0@.len() <= max_transactions
                &&& queue_sorted(done.selected)
            }),
    {
        let ghost queue = self@;
        proof {
            use_type_invariant(&*self);
            lemma_assembly_keeps_order(
                state.account_views(),
                queue,
                max_transactions as nat,
                unit_price,
                block_gas_limit,
                queue.len(),
            );
        }
        let mut scratch = state.clone();
        let mut selected: Vec<Transaction> = Vec::new();
        let mut kept: Vec<Transaction> = Vec::new();
        let mut gas_used: u64 = 0;
        let n = self.queue.len();
        let mut i: usize = 0;
        assert(item_views(selected@) =~= Seq::<TransactionView>::empty());
        assert(item_views(kept@) =~= Seq::<TransactionView>::empty());
        while i < n
            invariant
                i <= n,
                n == self.queue@.len(),
                queue == item_views(self.queue@),
                queue_sorted(queue),
                n <= self.capacity,
                scratch.state_root == state.state_root,
                scratch.block_number == state.block_number,
                scratch.global_nonce == state.global_nonce,
                gas_used <= block_gas_limit,
                selected@.len() <= max_transactions,
                kept@.len() <= i,
                queue_sorted(item_views(kept@)),
                forall|a: int, b: int|
                    0 <= a < kept@.len() && i <= b < n ==> queued_before(
                        #[trigger] item_views(kept@)[a],
                        #[trigger] queue[b],
                    ),
                assemble_spec(
                    state.account_views(),
                    queue,
                    max_transactions as nat,
                    unit_price,
                    block_gas_limit,
                    i as nat,
                ) == (Assembly {
                    accounts: scratch.account_views(),
                    gas: gas_used as nat,
                    selected: item_views(selected@),
                    kept: item_views(kept@),
                }),
            decreases n - i,
        {
            let tx = self.queue[i].clone();
            assert(queue[i as int] == self.queue@[i as int]@);
            let ghost kept_before = item_views(kept@);
            let ghost selected_before = item_views(selected@);
            let ghost tx_view = tx@;
            let mut take = false;
            let mut keep = false;
            if selected.len() >= max_transactions {
                keep = true;
            } else {
                let ahead = tx.nonce > scratch.nonce_of(&tx.from);
                let mut probe = scratch.clone();
                match apply_transaction(&mut probe, &tx, true, unit_price) {
                    Ok(gas) => {
                        if gas > block_gas_limit - gas_used {
                            keep = true;
                        } else {
                            scratch = probe;
                            gas_used = gas_used + gas;
                            take = true;
                        }
                    },
                    Err(TransactionError::NonceMismatch) => {
                        if ahead {
                            keep = true;
                        }
                    },
                    Err(_) => {},
                }
            }
            if take {
                selected.push(tx);
                assert(item_views(selected@) =~= selected_before.push(tx_view));
            } else if keep {
                kept.push(tx);
                proof {
                    assert(item_views(kept@) =~= kept_before.push(tx_view));
                    assert forall|a: int, b: int|
                        0 <= a < b < item_views(kept@).len() implies queued_before(
                        #[trigger] item_views(kept@)[a],
                        #[trigger] item_views(kept@)[b],
                    ) by {
                        if b == kept_before.len() {
                            assert(queued_before(kept_before[a], queue[i as int]));
                        } else {
                            assert(queued_before(kept_before[a], kept_before[b]));
                        }
                    }
                    assert forall|a: int, b: int|
                        0 <= a < item_views(kept@).len() && i + 1 <= b < n implies queued_before(
                        #[trigger] item_views(kept@)[a],
                        #[trigger] queue[b],
                    ) by {
                        if a == kept_before.len() {
                            assert(queued_before(queue[i as int], queue[b]));
                        } else {
                            assert(queued_before(kept_before[a], queue[b]));
                        }
                    }
                }
            }
            i += 1;
        }
        self.queue = kept;
        (selected, scratch, gas_used)
    }
}

/// Of two transactions neither of which comes before the other, and which
/// are not of one sender and nonce, none exists: the order is total.
pub proof fn lemma_not_before_means_after(a: TransactionView, b: TransactionView)
    requires
        a.from.len() == b.from.len(),
        !queued_before(a, b),
        !same_slot(a, b),
    ensures
        queued_before(b, a),
{
    if be_value(a.from) == be_value(b.from) {
        crate::address_map::lemma_be_value_injective(a.from, b.from);
    }
}

/// The order of the queue is transitive.
pub proof fn lemma_queued_before_transitive(
    a: TransactionView,
    b: TransactionView,
    c: TransactionView,
)
    requires
        queued_before(a, b),
        queued_before(b, c),
    ensures
        queued_before(a, c),
{
}

/// What a batch gives over its first `k` transactions depends on those
/// transactions and their flags alone.
pub proof fn lemma_batch_of_prefix(
    accounts: Map<Seq<u8>, AccountView>,
    txs_a: Seq<TransactionView>,
    flags_a: Seq<bool>,
    txs_b: Seq<TransactionView>,
    flags_b: Seq<bool>,
    unit_price: u64,
    block_gas_limit: u64,
    k: nat,
)
    requires
        k <= txs_a.len(),
        k <= txs_b.len(),
        k <= flags_a.len(),
        k <= flags_b.len(),
        forall|i: int| 0 <= i < k ==> txs_a[i] == txs_b[i] && flags_a[i] == flags_b[i],
    ensures
        batch_result(accounts, txs_a, flags_a, unit_price, block_gas_limit, k) == batch_result(
            accounts,
            txs_b,
            flags_b,
            unit_price,
            block_gas_limit,
            k,
        ),
    decreases k,
{
    if k > 0 {
        lemma_batch_of_prefix(
            accounts,
            txs_a,
            flags_a,
            txs_b,
            flags_b,
            unit_price,
            block_gas_limit,
            (k - 1) as nat,
        );
    }
}

/// What an assembly takes is a batch that executes: taken from the queue,
/// no more than a block may hold, each with gas enough for itself, and
/// executed in order from the accounts that the assembly started from it
/// gives the accounts and the gas that the assembly ends with.
pub proof fn lemma_assembly_executes(
    accounts: Map<Seq<u8>, AccountView>,
    queue: Seq<TransactionView>,
    max_transactions: nat,
    unit_price: u64,
    block_gas_limit: u64,
    k: nat,
)
    requires
        k <= queue.len(),
    ensures
        ({
            let done = assemble_spec(
                accounts,
                queue,
                max_transactions,
                unit_price,
                block_gas_limit,
                k,
            );
            let flags = Seq::new(done.selected.len(), |i: int| true);
            &&& done.selected.len() <= max_transactions
            &&& done.gas <= block_gas_limit
            &&& forall|i: int|
                0 <= i < done.selected.len() ==> intrinsic_gas(#[trigger] done.selected[i])
                    <= done.selected[i].gas_limit && exists|j: int|
                    0 <= j < k && queue[j] == done.selected[i]
            &&& forall|i: int|
                0 <= i < done.kept.len() ==> exists|j: int|
                    0 <= j < k && queue[j] == #[trigger] done.kept[i]
            &&& batch_result(
                accounts,
                done.selected,
                flags,
                unit_price,
                block_gas_limit,
                done.selected.len(),
            ) == Ok::<(Map<Seq<u8>, AccountView>, nat), (nat, TransactionError)>(
                (done.accounts, done.gas),
            )
        }),
    decreases k,
{
    if k > 0 {
        lemma_assembly_executes(
            accounts,
            queue,
            max_transactions,
            unit_price,
            block_gas_limit,
            (k - 1) as nat,
        );
        let before = assemble_spec(
            accounts,
            queue,
            max_transactions,
            unit_price,
            block_gas_limit,
            (k - 1) as nat,
        );
        let done = assemble_spec(accounts, queue, max_transactions, unit_price, block_gas_limit, k);
        let tx = queue[k - 1];
        let flags_before = Seq::new(before.selected.len(), |i: int| true);
        let flags = Seq::new(done.selected.len(), |i: int| true);
        assert forall|i: int| 0 <= i < done.kept.len() implies exists|j: int|
            0 <= j < k && queue[j] == #[trigger] done.kept[i] by {
            if i < before.kept.len() {
                let j = choose|j: int| 0 <= j < k - 1 && queue[j] == before.kept[i];
                assert(queue[j] == done.kept[i]);
            } else {
                assert(queue[k - 1] == done.kept[i]);
            }
        }
        assert forall|i: int| 0 <= i < done.selected.len() implies intrinsic_gas(
            #[trigger] done.selected[i],
        ) <= done.selected[i].gas_limit && exists|j: int|
            0 <= j < k && queue[j] == done.selected[i] by {
            if i < before.selected.len() {
                let j = choose|j: int| 0 <= j < k - 1 && queue[j] == before.selected[i];
                assert(queue[j] == done.selected[i]);
            } else {
                assert(queue[k - 1] == done.selected[i]);
            }
        }
        if done.selected.len() > before.selected.len() {
            lemma_batch_of_prefix(
                accounts,
                done.selected,
                flags,
                before.selected,
                flags_before,
                unit_price,
                block_gas_limit,
                before.selected.len(),
            );
        } else {
            assert(done.selected == before.selected);
            assert(flags =~= flags_before);
        }
    }
}

/// Executing a transaction raises its sender's nonce by one and leaves the
/// nonce of every other address as it is.
pub proof fn lemma_execution_raises_nonce(
    accounts: Map<Seq<u8>, AccountView>,
    tx: TransactionView,
    unit_price: u64,
    address: Seq<u8>,
)
    requires
        transaction_result(accounts, tx, true, unit_price) is Ok,
    ensures
        nonce_in(apply_to_accounts(accounts, tx, unit_price), address) == nonce_in(
            accounts,
            address,
        ) + if address == tx.from {
            1int
        } else {
            0int
        },
{
}

/// The number of a sender's transactions among the first `k` depends on
/// those `k` alone.
pub proof fn lemma_sender_count_of_prefix(
    a: Seq<TransactionView>,
    b: Seq<TransactionView>,
    sender: Seq<u8>,
    k: int,
)
    requires
        k <= a.len(),
        k <= b.len(),
        forall|i: int| 0 <= i < k ==> a[i] == b[i],
    ensures
        sender_count(a, sender, k) == sender_count(b, sender, k),
    decreases k,
{
    if k > 0 {
        lemma_sender_count_of_prefix(a, b, sender, k - 1);
    }
}

/// What an assembly takes of one sender has that sender's nonces, one after
/// the other without a gap and in ascending order: each transaction taken
/// has the nonce that its sender had at the start, raised by the number of
/// that sender's transactions taken before it. The nonce that a sender ends
/// with is the one it started with, raised by the number taken.
pub proof fn lemma_taken_nonces_are_consecutive(
    accounts: Map<Seq<u8>, AccountView>,
    queue: Seq<TransactionView>,
    max_transactions: nat,
    unit_price: u64,
    block_gas_limit: u64,
    k: nat,
)
    requires
        k <= queue.len(),
    ensures
        ({
            let done = assemble_spec(
                accounts,
                queue,
                max_transactions,
                unit_price,
                block_gas_limit,
                k,
            );
            &&& forall|a: Seq<u8>| #[trigger]
                nonce_in(done.accounts, a) == nonce_in(accounts, a) + sender_count(
                    done.selected,
                    a,
                    done.selected.len() as int,
                )
            &&& forall|s: int|
                0 <= s < done.selected.len() ==> (#[trigger] done.selected[s]).nonce == nonce_in(
                    accounts,
                    done.selected[s].from,
                ) + sender_count(done.selected, done.selected[s].from, s)
        }),
    decreases k,
{
    if k > 0 {
        lemma_taken_nonces_are_consecutive(
            accounts,
            queue,
            max_transactions,
            unit_price,
            block_gas_limit,
            (k - 1) as nat,
        );
        let before = assemble_spec(
            accounts,
            queue,
            max_transactions,
            unit_price,
            block_gas_limit,
            (k - 1) as nat,
        );
        let done = assemble_spec(accounts, queue, max_transactions, unit_price, block_gas_limit, k);
        let tx = queue[k - 1];
        let n = before.selected.len() as int;
        if done.selected.len() > n {
            assert(done.selected == before.selected.push(tx));
            assert(nonce_in(before.accounts, tx.from) == nonce_in(accounts, tx.from)
                + sender_count(before.selected, tx.from, n));
            assert forall|a: Seq<u8>| #[trigger]
                nonce_in(done.accounts, a) == nonce_in(accounts, a) + sender_count(
                    done.selected,
                    a,
                    done.selected.len() as int,
                ) by {
                lemma_execution_raises_nonce(before.accounts, tx, unit_price, a);
                lemma_sender_count_of_prefix(done.selected, before.selected, a, n);
                assert(nonce_in(before.accounts, a) == nonce_in(accounts, a) + sender_count(
                    before.selected,
                    a,
                    n,
                ));
            }
            assert forall|s: int| 0 <= s < done.selected.len() implies (
            #[trigger] done.selected[s]).nonce == nonce_in(accounts, done.selected[s].from)
                + sender_count(done.selected, done.selected[s].from, s) by {
                lemma_sender_count_of_prefix(
                    done.selected,
                    before.selected,
                    done.selected[s].from,
                    s,
                );
                if s < n {
                    assert(done.selected[s] == before.selected[s]);
                }
            }
        } else {
            assert(done.selected == before.selected);
            assert(done.accounts == before.accounts);
        }
    }
}

/// A gap in a sender's nonces holds back what lies behind it. Where the
/// queue holds no transaction of `sender` with the nonce `missing`, and the
/// sender's nonce has not passed it, an assembly takes none of the sender's
/// transactions with that nonce or a higher one, and each of them that it
/// has looked at keeps waiting in the queue.
pub proof fn lemma_nonce_gap_waits(
    accounts: Map<Seq<u8>, AccountView>,
    queue: Seq<TransactionView>,
    max_transactions: nat,
    unit_price: u64,
    block_gas_limit: u64,
    sender: Seq<u8>,
    missing: u64,
    k: nat,
)
    requires
        k <= queue.len(),
        nonce_in(accounts, sender) <= missing,
        forall|j: int|
            0 <= j < queue.len() ==> !((#[trigger] queue[j]).from == sender && queue[j].nonce
                == missing),
    ensures
        ({
            let done = assemble_spec(
                accounts,
                queue,
                max_transactions,
                unit_price,
                block_gas_limit,
                k,
            );
            &&& nonce_in(done.accounts, sender) <= missing
            &&& forall|s: int|
                0 <= s < done.selected.len() && (#[trigger] done.selected[s]).from == sender
                    ==> done.selected[s].nonce < missing
            &&& forall|j: int|
                0 <= j < k && (#[trigger] queue[j]).from == sender && queue[j].nonce > missing
                    ==> done.kept.contains(queue[j])
        }),
    decreases k,
{
    if k > 0 {
        lemma_nonce_gap_waits(
            accounts,
            queue,
            max_transactions,
            unit_price,
            block_gas_limit,
            sender,
            missing,
            (k - 1) as nat,
        );
        let before = assemble_spec(
            accounts,
            queue,
            max_transactions,
            unit_price,
            block_gas_limit,
            (k - 1) as nat,
        );
        let done = assemble_spec(accounts, queue, max_transactions, unit_price, block_gas_limit, k);
        let tx = queue[k - 1];
        if done.selected.len() > before.selected.len() {
            assert(done.selected == before.selected.push(tx));
            assert(done.kept == before.kept);
            lemma_execution_raises_nonce(before.accounts, tx, unit_price, sender);
            assert(tx.nonce == nonce_in(before.accounts, tx.from));
        } else if done.kept.len() > before.kept.len() {
            assert(done.kept == before.kept.push(tx));
            assert(done.selected == before.selected);
            assert(done.accounts == before.accounts);
            assert(done.kept[before.kept.len() as int] == tx);
            assert forall|j: int|
                0 <= j < k && (#[trigger] queue[j]).from == sender && queue[j].nonce
                    > missing implies done.kept.contains(queue[j]) by {
                if j < k - 1 {
                    let at = before.kept.index_of(queue[j]);
                    assert(done.kept[at] == queue[j]);
                }
            }
        } else {
            assert(done.selected == before.selected);
            assert(done.kept == before.kept);
            assert(done.accounts == before.accounts);
        }
    }
}

/// What an assembly has taken, it holds to the end: a transaction taken
/// among the first `k` of the queue is among those taken of the first `n`.
pub proof fn lemma_taken_stays_taken(
    accounts: Map<Seq<u8>, AccountView>,
    queue: Seq<TransactionView>,
    max_transactions: nat,
    unit_price: u64,
    block_gas_limit: u64,
    k: nat,
    n: nat,
    tx: TransactionView,
)
    requires
        k <= n <= queue.len(),
        assemble_spec(
            accounts,
            queue,
            max_transactions,
            unit_price,
            block_gas_limit,
            k,
        ).selected.contains(tx),
    ensures
        assemble_spec(
            accounts,
            queue,
            max_transactions,
            unit_price,
            block_gas_limit,
            n,
        ).selected.contains(tx),
    decreases n - k,
{
    if k < n {
        lemma_taken_stays_taken(
            accounts,
            queue,
            max_transactions,
            unit_price,
            block_gas_limit,
            k,
            (n - 1) as nat,
            tx,
        );
        let before = assemble_spec(
            accounts,
            queue,
            max_transactions,
            unit_price,
            block_gas_limit,
            (n - 1) as nat,
        );
        let done = assemble_spec(accounts, queue, max_transactions, unit_price, block_gas_limit, n);
        let at = before.selected.index_of(tx);
        assert(done.selected[at] == tx);
    }
}

/// A transaction whose turn has come is taken. Where the assembly reaches
/// a transaction of the queue with room in the block, the transaction has
/// its sender's nonce and executes against the accounts as they then are,
/// and the gas that is left suffices, the block holds it.
pub proof fn lemma_next_nonce_is_taken(
    accounts: Map<Seq<u8>, AccountView>,
    queue: Seq<TransactionView>,
    max_transactions: nat,
    unit_price: u64,
    block_gas_limit: u64,
    i: nat,
)
    requires
        i < queue.len(),
        ({
            let reached = assemble_spec(
                accounts,
                queue,
                max_transactions,
                unit_price,
                block_gas_limit,
                i,
            );
            &&& reached.selected.len() < max_transactions
            &&& transaction_result(reached.accounts, queue[i as int], true, unit_price) matches Ok(
                gas,
            ) && reached.gas + gas <= block_gas_limit
        }),
    ensures
        assemble_spec(
            accounts,
            queue,
            max_transactions,
            unit_price,
            block_gas_limit,
            queue.len(),
        ).selected.contains(queue[i as int]),
{
    let reached = assemble_spec(accounts, queue, max_transactions, unit_price, block_gas_limit, i);
    let next = assemble_spec(
        accounts,
        queue,
        max_transactions,
        unit_price,
        block_gas_limit,
        (i + 1) as nat,
    );
    assert(next.selected == reached.selected.push(queue[i as int]));
    assert(next.selected[reached.selected.len() as int] == queue[i as int]);
    lemma_taken_stays_taken(
        accounts,
        queue,
        max_transactions,
        unit_price,
        block_gas_limit,
        (i + 1) as nat,
        queue.len(),
        queue[i as int],
    );
}

/// An assembly walks the queue in its order and changes the order of
/// nothing: what it takes, and what it leaves waiting, stands in the order
/// of senders and nonces, whatever the order in which it arrived.
pub proof fn lemma_assembly_keeps_order(
    accounts: Map<Seq<u8>, AccountView>,
    queue: Seq<TransactionView>,
    max_transactions: nat,
    unit_price: u64,
    block_gas_limit: u64,
    k: nat,
)
    requires
        k <= queue.len(),
        queue_sorted(queue),
    ensures
        ({
            let done = assemble_spec(
                accounts,
                queue,
                max_transactions,
                unit_price,
                block_gas_limit,
                k,
            );
            queue_sorted(done.selected) && queue_sorted(done.kept)
        }),
    decreases k,
{
    if k > 0 {
        lemma_assembly_keeps_order(
            accounts,
            queue,
            max_transactions,
            unit_price,
            block_gas_limit,
            (k - 1) as nat,
        );
        lemma_assembly_executes(
            accounts,
            queue,
            max_transactions,
            unit_price,
            block_gas_limit,
            (k - 1) as nat,
        );
        let before = assemble_spec(
            accounts,
            queue,
            max_transactions,
            unit_price,
            block_gas_limit,
            (k - 1) as nat,
        );
        let done = assemble_spec(accounts, queue, max_transactions, unit_price, block_gas_limit, k);
        let tx = queue[k - 1];
        assert forall|i: int, j: int| 0 <= i < j < done.selected.len() implies queued_before(
            #[trigger] done.selected[i],
            #[trigger] done.selected[j],
        ) by {
            if j < before.selected.len() {
                assert(queued_before(before.selected[i], before.selected[j]));
            } else {
                let from = choose|from: int| 0 <= from < k - 1 && queue[from] == before.selected[i];
                assert(queued_before(queue[from], queue[k - 1]));
            }
        }
        assert forall|i: int, j: int| 0 <= i < j < done.kept.len() implies queued_before(
            #[trigger] done.kept[i],
            #[trigger] done.kept[j],
        ) by {
            if j < before.kept.len() {
                assert(queued_before(before.kept[i], before.kept[j]));
            } else {
                let from = choose|from: int| 0 <= from < k - 1 && queue[from] == before.kept[i];
                assert(queued_before(queue[from], queue[k - 1]));
            }
        }
    }
}

/// Whether the sender of every transaction is an address of twenty bytes,
/// as that of every transaction is.
pub open spec fn senders_are_addresses(queue: Seq<TransactionView>) -> bool {
    forall|j: int| 0 <= j < queue.len() ==> (#[trigger] queue[j]).from.len() == 20
}

/// A transaction that comes before another is not of its sender and nonce.
pub proof fn lemma_before_is_another_slot(a: TransactionView, b: TransactionView)
    requires
        queued_before(a, b) || queued_before(b, a),
    ensures
        !same_slot(a, b),
{
}

/// Admission keeps the queue in order. A queue in order to which a
/// transaction is admitted is in order again; it holds the transaction, and
/// of what it held before everything but a transaction of the same sender
/// and nonce, whose place the new one takes.
pub proof fn lemma_submit_keeps_order(
    queue: Seq<TransactionView>,
    tx: TransactionView,
    signature_valid: bool,
    accounts: Map<Seq<u8>, AccountView>,
    unit_price: u64,
    capacity: nat,
    per_sender_limit: nat,
)
    requires
        queue_sorted(queue),
        senders_are_addresses(queue),
        tx.from.len() == 20,
        submit_spec(queue, tx, signature_valid, accounts, unit_price, capacity, per_sender_limit)
            is Ok,
    ensures
        ({
            let after = submit_spec(
                queue,
                tx,
                signature_valid,
                accounts,
                unit_price,
                capacity,
                per_sender_limit,
            )->Ok_0;
            &&& queue_sorted(after)
            &&& senders_are_addresses(after)
            &&& forall|x: TransactionView|
                after.contains(x) <==> (x == tx || (queue.contains(x) && !same_slot(x, tx)))
        }),
{
    let after = submit_spec(
        queue,
        tx,
        signature_valid,
        accounts,
        unit_price,
        capacity,
        per_sender_limit,
    )->Ok_0;
    let slot = slot_from(queue, tx, 0);
    lemma_slot(queue, tx, 0);
    if slot < queue.len() && same_slot(queue[slot], tx) {
        assert(after == queue.update(slot, tx));
        assert forall|i: int, j: int| 0 <= i < j < after.len() implies queued_before(
            #[trigger] after[i],
            #[trigger] after[j],
        ) by {
            assert(queued_before(queue[i], queue[j]));
        }
        assert forall|x: TransactionView|
            after.contains(x) <==> (x == tx || (queue.contains(x) && !same_slot(x, tx))) by {
            if after.contains(x) {
                let at = after.index_of(x);
                if at != slot {
                    assert(queue[at] == x);
                    if at < slot {
                        assert(queued_before(queue[at], queue[slot]));
                    } else {
                        assert(queued_before(queue[slot], queue[at]));
                    }
                }
            }
            if x == tx {
                assert(after[slot] == x);
            }
            if queue.contains(x) && !same_slot(x, tx) {
                let at = queue.index_of(x);
                assert(after[at] == x);
            }
        }
    } else {
        assert(after == queue.insert(slot, tx));
        assert forall|j: int| slot <= j < queue.len() implies queued_before(
            tx,
            #[trigger] queue[j],
        ) by {
            lemma_not_before_means_after(queue[slot], tx);
            if j > slot {
                assert(queued_before(queue[slot], queue[j]));
            }
        }
        assert forall|i: int, j: int| 0 <= i < j < after.len() implies queued_before(
            #[trigger] after[i],
            #[trigger] after[j],
        ) by {
            let bi = if i < slot { i } else { i - 1 };
            let bj = if j < slot { j } else { j - 1 };
            if i != slot && j != slot {
                assert(queued_before(queue[bi], queue[bj]));
            } else if i == slot {
                assert(queued_before(tx, queue[bj]));
            } else {
                assert(queued_before(queue[bi], tx));
            }
        }
        assert forall|j: int| 0 <= j < after.len() implies (#[trigger] after[j]).from.len()
            == 20 by {
            if j < slot {
                assert(after[j] == queue[j]);
            } else if j > slot {
                assert(after[j] == queue[j - 1]);
            }
        }
        assert forall|x: TransactionView|
            after.contains(x) <==> (x == tx || (queue.contains(x) && !same_slot(x, tx))) by {
            if after.contains(x) {
                let at = after.index_of(x);
                if at < slot {
                    assert(queue[at] == x);
                    assert(queued_before(queue[at], tx));
                } else if at > slot {
                    assert(queue[at - 1] == x);
                    assert(queued_before(tx, queue[at - 1]));
                }
            }
            if x == tx {
                assert(after[slot] == x);
            }
            if queue.contains(x) && !same_slot(x, tx) {
                let at = queue.index_of(x);
                if at < slot {
                    assert(after[at] == x);
                } else {
                    assert(after[at + 1] == x);
                }
            }
        }
    }
}

/// There is one way to put transactions in the order of the queue: two
/// queues in order that hold the same transactions are equal.
pub proof fn lemma_queue_order_is_unique(a: Seq<TransactionView>, b: Seq<TransactionView>)
    requires
        queue_sorted(a),
        queue_sorted(b),
        forall|x: TransactionView| a.contains(x) <==> b.contains(x),
    ensures
        a == b,
    decreases a.len(),
{
    if a.len() == 0 {
        if b.len() > 0 {
            assert(b.contains(b[0]));
            assert(a.contains(b[0]));
        }
        assert(a =~= b);
    } else {
        let la = a.last();
        assert(a.contains(la));
        assert(b.contains(la));
        let lb = b.last();
        assert(b.contains(lb));
        assert(a.contains(lb));
        let ia = a.index_of(lb);
        let ib = b.index_of(la);
        assert(la == lb) by {
            if ia < a.len() - 1 {
                assert(queued_before(a[ia], a[a.len() - 1]));
            }
            if ib < b.len() - 1 {
                assert(queued_before(b[ib], b[b.len() - 1]));
            }
        }
        let pa = a.drop_last();
        let pb = b.drop_last();
        assert forall|x: TransactionView| pa.contains(x) <==> pb.contains(x) by {
            if pa.contains(x) {
                let i = pa.index_of(x);
                assert(a[i] == x);
                assert(queued_before(a[i], a[a.len() - 1]));
                assert(a.contains(x));
                let j = b.index_of(x);
                assert(j < b.len() - 1);
                assert(pb[j] == x);
            }
            if pb.contains(x) {
                let i = pb.index_of(x);
                assert(b[i] == x);
                assert(queued_before(b[i], b[b.len() - 1]));
                assert(b.contains(x));
                let j = a.index_of(x);
                assert(j < a.len() - 1);
                assert(pa[j] == x);
            }
        }
        assert(queue_sorted(pa)) by {
            assert forall|i: int, j: int| 0 <= i < j < pa.len() implies queued_before(
                #[trigger] pa[i],
                #[trigger] pa[j],
            ) by {
                assert(queued_before(a[i], a[j]));
            }
        }
        assert(queue_sorted(pb)) by {
            assert forall|i: int, j: int| 0 <= i < j < pb.len() implies queued_before(
                #[trigger] pb[i],
                #[trigger] pb[j],
            ) by {
                assert(queued_before(b[i], b[j]));
            }
        }
        lemma_queue_order_is_unique(pa, pb);
        assert(a =~= pa.push(la));
        assert(b =~= pb.push(lb));
    }
}

/// The order of arrival does not show in the queue: two transactions that
/// are not of one sender and nonce, admitted one after the other, leave the
/// same queue whichever came first.
pub proof fn lemma_arrival_order_is_immaterial(
    queue: Seq<TransactionView>,
    first: TransactionView,
    second: TransactionView,
    accounts: Map<Seq<u8>, AccountView>,
    unit_price: u64,
    capacity: nat,
    per_sender_limit: nat,
)
    requires
        queue_sorted(queue),
        senders_are_addresses(queue),
        first.from.len() == 20,
        second.from.len() == 20,
        !same_slot(first, second),
        submit_spec(queue, first, true, accounts, unit_price, capacity, per_sender_limit)
            matches Ok(with_first) && submit_spec(
            with_first,
            second,
            true,
            accounts,
            unit_price,
            capacity,
            per_sender_limit,
        ) is Ok,
        submit_spec(queue, second, true, accounts, unit_price, capacity, per_sender_limit)
            matches Ok(with_second) && submit_spec(
            with_second,
            first,
            true,
            accounts,
            unit_price,
            capacity,
            per_sender_limit,
        ) is Ok,
    ensures
        submit_spec(
            submit_spec(queue, first, true, accounts, unit_price, capacity, per_sender_limit)->Ok_0,
            second,
            true,
            accounts,
            unit_price,
            capacity,
            per_sender_limit,
        ) == submit_spec(
            submit_spec(queue, second, true, accounts, unit_price, capacity, per_sender_limit)->Ok_0,
            first,
            true,
            accounts,
            unit_price,
            capacity,
            per_sender_limit,
        ),
{
    let with_first = submit_spec(
        queue,
        first,
        true,
        accounts,
        unit_price,
        capacity,
        per_sender_limit,
    )->Ok_0;
    let with_second = submit_spec(
        queue,
        second,
        true,
        accounts,
        unit_price,
        capacity,
        per_sender_limit,
    )->Ok_0;
    let one = submit_spec(
        with_first,
        second,
        true,
        accounts,
        unit_price,
        capacity,
        per_sender_limit,
    )->Ok_0;
    let other = submit_spec(
        with_second,
        first,
        true,
        accounts,
        unit_price,
        capacity,
        per_sender_limit,
    )->Ok_0;
    lemma_submit_keeps_order(queue, first, true, accounts, unit_price, capacity, per_sender_limit);
    lemma_submit_keeps_order(queue, second, true, accounts, unit_price, capacity, per_sender_limit);
    lemma_submit_keeps_order(
        with_first,
        second,
        true,
        accounts,
        unit_price,
        capacity,
        per_sender_limit,
    );
    lemma_submit_keeps_order(
        with_second,
        first,
        true,
        accounts,
        unit_price,
        capacity,
        per_sender_limit,
    );
    assert forall|x: TransactionView| one.contains(x) <==> other.contains(x) by {
        assert(with_first.contains(x) <==> (x == first || (queue.contains(x) && !same_slot(
            x,
            first,
        ))));
        assert(with_second.contains(x) <==> (x == second || (queue.contains(x) && !same_slot(
            x,
            second,
        ))));
    }
    lemma_queue_order_is_unique(one, other);
}

} // verus!
