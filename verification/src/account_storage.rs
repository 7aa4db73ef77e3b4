//! The storage of an account: a map from 32-byte keys to 32-byte values,
//! held as a list of slots in strictly increasing order of the keys' bytes.
//! In that order a key occurs once and a map has one list, so what commits
//! to the list commits to the map.

use crate::address_map::{be_value, lemma_be_value_injective};
use crate::consensus::execution::{apply_to_accounts, batch_result};
use crate::types::{Account, AccountView, StorageSlot, TransactionView, WorldState};
use vstd::prelude::*;

verus! {

/// Storage as mathematical values: pairs of key and value.
pub type Slots = Seq<(Seq<u8>, Seq<u8>)>;

/// Whether the slots stand in strictly increasing order of their keys'
/// bytes, every key of 32 bytes.
pub open spec fn storage_in_order(storage: Slots) -> bool {
    &&& forall|i: int| 0 <= i < storage.len() ==> (#[trigger] storage[i]).0.len() == 32
    &&& forall|i: int, j: int|
        0 <= i < j < storage.len() ==> be_value((#[trigger] storage[i]).0) < be_value(
            (#[trigger] storage[j]).0,
        )
}

/// The first position from `k` on whose key does not come before `key`.
pub open spec fn storage_rank(storage: Slots, key: Seq<u8>, k: int) -> int
    decreases storage.len() - k,
{
    if k >= storage.len() {
        storage.len() as int
    } else if !(be_value(storage[k].0) < be_value(key)) {
        k
    } else {
        storage_rank(storage, key, k + 1)
    }
}

/// The value held under `key`, if there is one.
pub open spec fn storage_get(storage: Slots, key: Seq<u8>) -> Option<Seq<u8>> {
    let rank = storage_rank(storage, key, 0);
    if rank < storage.len() && storage[rank].0 == key {
        Some(storage[rank].1)
    } else {
        None
    }
}

/// The storage with `value` under `key`: in the place of what was held
/// under the key, or put in where the key belongs.
pub open spec fn storage_set(storage: Slots, key: Seq<u8>, value: Seq<u8>) -> Slots {
    let rank = storage_rank(storage, key, 0);
    if rank < storage.len() && storage[rank].0 == key {
        storage.update(rank, (key, value))
    } else {
        storage.insert(rank, (key, value))
    }
}

/// Every key before the rank comes before the key, and the one at the rank
/// does not.
pub proof fn lemma_storage_rank(storage: Slots, key: Seq<u8>, k: int)
    requires
        0 <= k <= storage.len(),
        forall|j: int| 0 <= j < k ==> be_value((#[trigger] storage[j]).0) < be_value(key),
    ensures
        ({
            let rank = storage_rank(storage, key, k);
            &&& k <= rank <= storage.len()
            &&& forall|j: int| 0 <= j < rank ==> be_value((#[trigger] storage[j]).0) < be_value(key)
            &&& rank < storage.len() ==> !(be_value(storage[rank].0) < be_value(key))
        }),
    decreases storage.len() - k,
{
    if k < storage.len() && be_value(storage[k].0) < be_value(key) {
        lemma_storage_rank(storage, key, k + 1);
    }
}

/// In storage in order, the value under a key is that of the one slot with
/// the key, and there is none where no slot has the key.
pub proof fn lemma_storage_get(storage: Slots, key: Seq<u8>)
    requires
        storage_in_order(storage),
        key.len() == 32,
    ensures
        match storage_get(storage, key) {
            Some(value) => storage.contains((key, value)),
            None => forall|i: int| 0 <= i < storage.len() ==> (#[trigger] storage[i]).0 != key,
        },
        forall|i: int|
            0 <= i < storage.len() && (#[trigger] storage[i]).0 == key ==> storage_get(storage, key)
                == Some(storage[i].1),
{
    let rank = storage_rank(storage, key, 0);
    lemma_storage_rank(storage, key, 0);
    if rank < storage.len() && storage[rank].0 == key {
        assert(storage[rank] == (key, storage[rank].1));
    }
    assert forall|i: int| 0 <= i < storage.len() && (#[trigger] storage[i]).0 == key implies rank
        == i by {
        if i < rank {
            assert(be_value(storage[i].0) < be_value(key));
        } else if i > rank {
            assert(be_value(storage[rank].0) < be_value(storage[i].0));
        }
    }
}

/// Setting a value keeps the storage in order. Afterwards the storage holds
/// the slot that was set, and of what it held before every slot but the one
/// with that key.
pub proof fn lemma_storage_set(storage: Slots, key: Seq<u8>, value: Seq<u8>)
    requires
        storage_in_order(storage),
        key.len() == 32,
    ensures
        storage_in_order(storage_set(storage, key, value)),
        forall|x: (Seq<u8>, Seq<u8>)| #[trigger]
            storage_set(storage, key, value).contains(x) <==> (x == (key, value) || (
            storage.contains(x) && x.0 != key)),
{
    let after = storage_set(storage, key, value);
    let rank = storage_rank(storage, key, 0);
    lemma_storage_rank(storage, key, 0);
    if rank < storage.len() && storage[rank].0 == key {
        assert forall|i: int, j: int| 0 <= i < j < after.len() implies be_value(
            (#[trigger] after[i]).0,
        ) < be_value((#[trigger] after[j]).0) by {
            assert(be_value(storage[i].0) < be_value(storage[j].0));
        }
        assert forall|i: int| 0 <= i < after.len() implies (#[trigger] after[i]).0.len() == 32 by {
            assert(storage[i].0.len() == 32);
        }
        assert forall|x: (Seq<u8>, Seq<u8>)|
            after.contains(x) <==> (x == (key, value) || (storage.contains(x) && x.0 != key)) by {
            if after.contains(x) {
                let at = after.index_of(x);
                if at != rank {
                    assert(storage[at] == x);
                    if at < rank {
                        assert(be_value(storage[at].0) < be_value(storage[rank].0));
                    } else {
                        assert(be_value(storage[rank].0) < be_value(storage[at].0));
                    }
                }
            }
            if x == (key, value) {
                assert(after[rank] == x);
            }
            if storage.contains(x) && x.0 != key {
                let at = storage.index_of(x);
                assert(after[at] == x);
            }
        }
    } else {
        assert forall|j: int| rank <= j < storage.len() implies be_value(key) < be_value(
            (#[trigger] storage[j]).0,
        ) by {
            if be_value(storage[rank].0) == be_value(key) {
                lemma_be_value_injective(storage[rank].0, key);
            }
            if j > rank {
                assert(be_value(storage[rank].0) < be_value(storage[j].0));
            }
        }
        assert forall|i: int, j: int| 0 <= i < j < after.len() implies be_value(
            (#[trigger] after[i]).0,
        ) < be_value((#[trigger] after[j]).0) by {
            let bi = if i < rank { i } else { i - 1 };
            let bj = if j < rank { j } else { j - 1 };
            if i != rank && j != rank {
                assert(be_value(storage[bi].0) < be_value(storage[bj].0));
            } else if i == rank {
                assert(be_value(key) < be_value(storage[bj].0));
            } else {
                assert(be_value(storage[bi].0) < be_value(key));
            }
        }
        assert forall|i: int| 0 <= i < after.len() implies (#[trigger] after[i]).0.len() == 32 by {
            if i < rank {
                assert(after[i] == storage[i]);
            } else if i > rank {
                assert(after[i] == storage[i - 1]);
            }
        }
        assert forall|x: (Seq<u8>, Seq<u8>)|
            after.contains(x) <==> (x == (key, value) || (storage.contains(x) && x.0 != key)) by {
            if after.contains(x) {
                let at = after.index_of(x);
                if at < rank {
                    assert(storage[at] == x);
                    assert(be_value(storage[at].0) < be_value(key));
                } else if at > rank {
                    assert(storage[at - 1] == x);
                    assert(be_value(key) < be_value(storage[at - 1].0));
                }
            }
            if x == (key, value) {
                assert(after[rank] == x);
            }
            if storage.contains(x) && x.0 != key {
                let at = storage.index_of(x);
                if at < rank {
                    assert(after[at] == x);
                } else {
                    assert(after[at + 1] == x);
                }
            }
        }
    }
}

/// What is set is what is read: after a value is set under a key, that
/// value is held under the key, and every other key holds what it held.
pub proof fn lemma_storage_set_then_get(
    storage: Slots,
    key: Seq<u8>,
    value: Seq<u8>,
    other: Seq<u8>,
)
    requires
        storage_in_order(storage),
        key.len() == 32,
        other.len() == 32,
    ensures
        storage_get(storage_set(storage, key, value), key) == Some(value),
        other != key ==> storage_get(storage_set(storage, key, value), other) == storage_get(
            storage,
            other,
        ),
{
    let after = storage_set(storage, key, value);
    lemma_storage_set(storage, key, value);
    lemma_storage_get(after, key);
    lemma_storage_get(after, other);
    lemma_storage_get(storage, other);
    assert(after.contains((key, value)));
    let at = after.index_of((key, value));
    assert(after[at].0 == key);
    if other != key {
        match storage_get(storage, other) {
            Some(held) => {
                assert(storage.contains((other, held)));
                assert(after.contains((other, held)));
                let i = after.index_of((other, held));
                assert(after[i].0 == other);
            },
            None => {
                if storage_get(after, other) is Some {
                    let held = storage_get(after, other)->0;
                    assert(after.contains((other, held)));
                    assert(storage.contains((other, held)));
                    let i = storage.index_of((other, held));
                    assert(storage[i].0 == other);
                }
            },
        }
    }
}

/// A map has one list: two storages in order that hold the same slots are
/// equal.
pub proof fn lemma_storage_order_is_unique(a: Slots, b: Slots)
    requires
        storage_in_order(a),
        storage_in_order(b),
        forall|x: (Seq<u8>, Seq<u8>)| a.contains(x) <==> b.contains(x),
    ensures
        a == b,
    decreases a.len(),
{
    if a.len() == 0 {
        if b.len() > 0 {
            assert(b.contains(b[0]));
            assert(a.contains(b[0]));
        }
        assert(a =~= b);
    } else {
        let la = a.last();
        assert(a.contains(la));
        assert(b.contains(la));
        let lb = b.last();
        assert(b.contains(lb));
        assert(a.contains(lb));
        let ia = a.index_of(lb);
        let ib = b.index_of(la);
        assert(la == lb) by {
            if ia < a.len() - 1 {
                assert(be_value(a[ia].0) < be_value(a[a.len() - 1].0));
            }
            if ib < b.len() - 1 {
                assert(be_value(b[ib].0) < be_value(b[b.len() - 1].0));
            }
        }
        let pa = a.drop_last();
        let pb = b.drop_last();
        assert forall|x: (Seq<u8>, Seq<u8>)| pa.contains(x) <==> pb.contains(x) by {
            if pa.contains(x) {
                let i = pa.index_of(x);
                assert(a[i] == x);
                assert(be_value(a[i].0) < be_value(a[a.len() - 1].0));
                assert(a.contains(x));
                let j = b.index_of(x);
                assert(j < b.len() - 1);
                assert(pb[j] == x);
            }
            if pb.contains(x) {
                let i = pb.index_of(x);
                assert(b[i] == x);
                assert(be_value(b[i].0) < be_value(b[b.len() - 1].0));
                assert(b.contains(x));
                let j = a.index_of(x);
                assert(j < a.len() - 1);
                assert(pa[j] == x);
            }
        }
        assert(storage_in_order(pa)) by {
            assert forall|i: int, j: int| 0 <= i < j < pa.len() implies be_value(
                (#[trigger] pa[i]).0,
            ) < be_value((#[trigger] pa[j]).0) by {
                assert(be_value(a[i].0) < be_value(a[j].0));
            }
            assert forall|i: int| 0 <= i < pa.len() implies (#[trigger] pa[i]).0.len() == 32 by {
                assert(a[i].0.len() == 32);
            }
        }
        assert(storage_in_order(pb)) by {
            assert forall|i: int, j: int| 0 <= i < j < pb.len() implies be_value(
                (#[trigger] pb[i]).0,
            ) < be_value((#[trigger] pb[j]).0) by {
                assert(be_value(b[i].0) < be_value(b[j].0));
            }
            assert forall|i: int| 0 <= i < pb.len() implies (#[trigger] pb[i]).0.len() == 32 by {
                assert(b[i].0.len() == 32);
            }
        }
        lemma_storage_order_is_unique(pa, pb);
        assert(a =~= pa.push(la));
        assert(b =~= pb.push(lb));
    }
}

/// How `a` stands to `b` in the order of their bytes: -1 before, 0 equal,
/// 1 after.
pub fn key_order(a: &[u8; 32], b: &[u8; 32]) -> (r: i8)
    ensures
        r == -1 <==> be_value(a@) < be_value(b@),
        r == 0 <==> a@ == b@,
        r == 1 <==> be_value(a@) > be_value(b@),
        r == -1 || r == 0 || r == 1,
{
    let mut state: i8 = 0;
    let mut i: usize = 0;
    assert(a@.subrange(0, 0) =~= Seq::<u8>::empty());
    assert(b@.subrange(0, 0) =~= Seq::<u8>::empty());
    while i < 32
        invariant
            i <= 32,
            a@.len() == 32,
            b@.len() == 32,
            state == -1 || state == 0 || state == 1,
            state == -1 <==> be_value(a@.subrange(0, i as int)) < be_value(
                b@.subrange(0, i as int),
            ),
            state == 1 <==> be_value(a@.subrange(0, i as int)) > be_value(
                b@.subrange(0, i as int),
            ),
        decreases 32 - i,
    {
        proof {
            let pa = a@.subrange(0, i + 1);
            let pb = b@.subrange(0, i + 1);
            assert(pa.drop_last() =~= a@.subrange(0, i as int));
            assert(pb.drop_last() =~= b@.subrange(0, i as int));
            assert(pa.last() == a@[i as int]);
            assert(pb.last() == b@[i as int]);
        }
        if state == 0 {
            if a[i] < b[i] {
                state = -1;
            } else if a[i] > b[i] {
                state = 1;
            }
        }
        i += 1;
    }
    proof {
        assert(a@.subrange(0, 32) =~= a@);
        assert(b@.subrange(0, 32) =~= b@);
        if state == 0 {
            lemma_be_value_injective(a@, b@);
        }
    }
    state
}

impl AccountView {
    /// The invariant of an account: its storage is in order.
    pub open spec fn well_formed(self) -> bool {
        storage_in_order(self.storage)
    }
}

impl Account {
    /// The invariant of an account: its storage is in the order of its
    /// keys, so that each key occurs once.
    pub open spec fn well_formed(&self) -> bool {
        self@.well_formed()
    }

    /// Whether the account has its invariant.
    pub fn is_well_formed(&self) -> (ok: bool)
        ensures
            ok == self.well_formed(),
    {
        let ghost storage = self@.storage;
        let n = self.storage.len();
        if n == 0 {
            return true;
        }
        assert(storage[0] == self.storage@[0]@);
        let mut i: usize = 1;
        while i < n
            invariant
                1 <= i <= n,
                n == self.storage@.len(),
                storage == self@.storage,
                forall|x: int| 0 <= x < i ==> (#[trigger] storage[x]).0.len() == 32,
                forall|x: int, y: int|
                    0 <= x < y < i ==> be_value((#[trigger] storage[x]).0) < be_value(
                        (#[trigger] storage[y]).0,
                    ),
            decreases n - i,
        {
            assert(storage[i - 1] == self.storage@[i - 1]@);
            assert(storage[i as int] == self.storage@[i as int]@);
            if key_order(&self.storage[i - 1].key, &self.storage[i].key) != -1 {
                assert(!(be_value(storage[i - 1].0) < be_value(storage[i as int].0)));
                return false;
            }
            proof {
                assert forall|x: int, y: int| 0 <= x < y < i + 1 implies be_value(
                    (#[trigger] storage[x]).0,
                ) < be_value((#[trigger] storage[y]).0) by {
                    if y == i && x < i - 1 {
                        assert(be_value(storage[x].0) < be_value(storage[i - 1].0));
                    }
                }
            }
            i += 1;
        }
        true
    }

    /// The position of the first slot whose key does not come before `key`.
    fn rank_of(&self, key: &[u8; 32]) -> (rank: usize)
        ensures
            rank == storage_rank(self@.storage, key@, 0),
            rank <= self.storage@.len(),
    {
        let ghost storage = self@.storage;
        let mut rank: usize = 0;
        while rank < self.storage.len() && key_order(&self.storage[rank].key, key) == -1
            invariant
                rank <= self.storage@.len(),
                storage == self@.storage,
                storage_rank(storage, key@, 0) == storage_rank(storage, key@, rank as int),
            decreases self.storage@.len() - rank,
        {
            assert(storage[rank as int] == self.storage@[rank as int]@);
            rank += 1;
        }
        proof {
            if rank < self.storage@.len() {
                assert(storage[rank as int] == self.storage@[rank as int]@);
            }
        }
        rank
    }

    /// The value that the account holds under `key`, if it holds one.
    pub fn storage_at(&self, key: &[u8; 32]) -> (value: Option<[u8; 32]>)
        ensures
            match value {
                Some(held) => storage_get(self@.storage, key@) == Some(held@),
                None => storage_get(self@.storage, key@) is None,
            },
    {
        let rank = self.rank_of(key);
        if rank < self.storage.len() {
            assert(self@.storage[rank as int] == self.storage@[rank as int]@);
            if key_order(&self.storage[rank].key, key) == 0 {
                return Some(self.storage[rank].value);
            }
        }
        None
    }

    /// Holds `value` under `key` from now on: in the place of what was held
    /// under the key, or as a new slot where the key belongs. The storage
    /// stays in order; nothing else of the account changes.
    pub fn set_storage(&mut self, key: [u8; 32], value: [u8; 32])
        requires
            old(self).well_formed(),
        ensures
            final(self).well_formed(),
            final(self)@ == (AccountView {
                storage: storage_set(old(self)@.storage, key@, value@),
                ..old(self)@
            }),
    {
        let ghost before = self@.storage;
        let rank = self.rank_of(&key);
        proof {
            lemma_storage_set(before, key@, value@);
        }
        let replace = if rank < self.storage.len() {
            assert(before[rank as int] == self.storage@[rank as int]@);
            key_order(&self.storage[rank].key, &key) == 0
        } else {
            false
        };
        if replace {
            self.storage.set(rank, StorageSlot { key, value });
            assert(self@.storage =~= before.update(rank as int, (key@, value@)));
        } else {
            self.storage.insert(rank, StorageSlot { key, value });
            assert(self@.storage =~= before.insert(rank as int, (key@, value@)));
        }
    }
}

/// Whether every account has its invariant.
pub open spec fn accounts_well_formed(accounts: Map<Seq<u8>, AccountView>) -> bool {
    forall|a: Seq<u8>| accounts.contains_key(a) ==> (#[trigger] accounts[a]).well_formed()
}

impl WorldState {
    /// Whether the storage of every account of the state is in order.
    pub open spec fn storage_in_order(&self) -> bool {
        accounts_well_formed(self.account_views())
    }

    /// Whether the storage of every account of the state is in order.
    pub fn has_storage_in_order(&self) -> (ok: bool)
        ensures
            ok == self.storage_in_order(),
    {
        let ghost keys = self.accounts.keys();
        let ghost accounts = self.account_views();
        let n = self.accounts.len();
        let mut i: usize = 0;
        proof {
            use_type_invariant(&self.accounts);
            self.accounts.lemma_keys_and_values();
            assert(accounts.dom() =~= self.accounts@.dom());
        }
        while i < n
            invariant
                i <= n,
                n == keys.len(),
                keys == self.accounts.keys(),
                accounts == self.account_views(),
                accounts.dom() == self.accounts@.dom(),
                forall|j: int| 0 <= j < i ==> accounts[#[trigger] keys[j]].well_formed(),
            decreases n - i,
        {
            let entry = self.accounts.entry_at(i);
            proof {
                use_type_invariant(&self.accounts);
                self.accounts.lemma_keys_and_values();
                assert(self.accounts@.contains_key(keys[i as int]));
                assert(accounts[keys[i as int]] == entry.value@);
            }
            if !entry.value.is_well_formed() {
                assert(accounts.contains_key(keys[i as int]));
                return false;
            }
            i += 1;
        }
        proof {
            use_type_invariant(&self.accounts);
            self.accounts.lemma_keys_and_values();
            assert forall|a: Seq<u8>| accounts.contains_key(a) implies (
            #[trigger] accounts[a]).well_formed() by {
                assert(self.accounts@.contains_key(a));
                let j = choose|j: int| 0 <= j < keys.len() && #[trigger] keys[j] == a;
                assert(accounts[keys[j]].well_formed());
            }
        }
        true
    }
}

/// Executing a transaction leaves the storage of every account as it is, so
/// accounts that have their invariant keep it.
pub proof fn lemma_execution_keeps_storage(
    accounts: Map<Seq<u8>, AccountView>,
    tx: TransactionView,
    unit_price: u64,
)
    requires
        accounts_well_formed(accounts),
    ensures
        accounts_well_formed(apply_to_accounts(accounts, tx, unit_price)),
{
    let after = apply_to_accounts(accounts, tx, unit_price);
    assert forall|a: Seq<u8>| after.contains_key(a) implies (#[trigger] after[a]).well_formed() by {
        if accounts.contains_key(a) {
            assert(accounts[a].well_formed());
        }
        if accounts.contains_key(tx.from) {
            assert(accounts[tx.from].well_formed());
        }
        if accounts.contains_key(tx.to) {
            assert(accounts[tx.to].well_formed());
        }
    }
}

/// A batch that executes leaves accounts that have their invariant with it.
pub proof fn lemma_batch_keeps_storage(
    accounts: Map<Seq<u8>, AccountView>,
    txs: Seq<TransactionView>,
    flags: Seq<bool>,
    unit_price: u64,
    block_gas_limit: u64,
    k: nat,
)
    requires
        accounts_well_formed(accounts),
    ensures
        batch_result(accounts, txs, flags, unit_price, block_gas_limit, k) matches Ok((after, _))
            ==> accounts_well_formed(after),
    decreases k,
{
    if k > 0 {
        lemma_batch_keeps_storage(
            accounts,
            txs,
            flags,
            unit_price,
            block_gas_limit,
            (k - 1) as nat,
        );
        match batch_result(accounts, txs, flags, unit_price, block_gas_limit, (k - 1) as nat) {
            Ok((before, _)) => {
                lemma_execution_keeps_storage(before, txs[k - 1], unit_price);
            },
            Err(_) => {},
        }
    }
}

} // verus!
