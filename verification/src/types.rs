//! The on-chain data model.

use crate::address_map::{be_value, AddressMap};
use vstd::prelude::*;
use vstd::std_specs::cmp::PartialEqSpecImpl;

verus! {

/// A 20-byte account identifier.
#[derive(Debug, Clone, Copy, Eq, Hash)]
pub struct Address(pub [u8; 20]);

/// A 32-byte digest, the standard commitment width.
#[derive(Debug, Clone, Copy, Eq, Hash)]
pub struct BlockHash(pub [u8; 32]);

impl View for Address {
    type V = Seq<u8>;

    open spec fn view(&self) -> Seq<u8> {
        self.0@
    }
}

impl View for BlockHash {
    type V = Seq<u8>;

    open spec fn view(&self) -> Seq<u8> {
        self.0@
    }
}

/// Whether two 20-byte arrays hold the same bytes. Every byte is looked at,
/// whatever the outcome.
pub fn bytes20_eq(a: &[u8; 20], b: &[u8; 20]) -> (r: bool)
    ensures
        r == (a@ == b@),
{
    let mut difference: u8 = 0;
    let mut i: usize = 0;
    while i < 20
        invariant
            i <= 20,
            (difference == 0) <==> (forall|j: int| 0 <= j < i ==> a@[j] == b@[j]),
        decreases 20 - i,
    {
        let x = a[i];
        let y = b[i];
        let next = difference | (x ^ y);
        assert((next == 0) <==> (difference == 0 && x == y)) by (bit_vector)
            requires
                next == difference | (x ^ y),
        ;
        difference = next;
        i += 1;
    }
    if difference == 0 {
        assert(a@ =~= b@);
    }
    difference == 0
}

/// Whether two 32-byte arrays hold the same bytes, found in constant time.
pub fn bytes32_eq(a: &[u8; 32], b: &[u8; 32]) -> (r: bool)
    ensures
        r == (a@ == b@),
{
    crate::crypto::hash::hash_compare::constant_time_compare(a, b)
}

impl PartialEq for Address {
    fn eq(&self, other: &Address) -> (r: bool) {
        bytes20_eq(&self.0, &other.0)
    }
}

impl PartialEqSpecImpl for Address {
    open spec fn obeys_eq_spec() -> bool {
        true
    }

    open spec fn eq_spec(&self, other: &Address) -> bool {
        self@ == other@
    }
}

impl PartialEq for BlockHash {
    fn eq(&self, other: &BlockHash) -> (r: bool) {
        bytes32_eq(&self.0, &other.0)
    }
}

impl PartialEqSpecImpl for BlockHash {
    open spec fn obeys_eq_spec() -> bool {
        true
    }

    open spec fn eq_spec(&self, other: &BlockHash) -> bool {
        self@ == other@
    }
}

/// `rand::thread_rng` and `RngCore::fill_bytes`: 20 bytes from the thread's generator.
#[verifier::external_body]
fn random_bytes_20() -> (bytes: [u8; 20]) {
    let mut bytes = [0u8; 20];
    rand::RngCore::fill_bytes(&mut rand::thread_rng(), &mut bytes);
    bytes
}

/// `rand::thread_rng` and `RngCore::fill_bytes`: 32 bytes from the thread's generator.
#[verifier::external_body]
fn random_bytes_32() -> (bytes: [u8; 32]) {
    let mut bytes = [0u8; 32];
    rand::RngCore::fill_bytes(&mut rand::thread_rng(), &mut bytes);
    bytes
}

impl Address {
    /// The address whose last byte is `id` and whose other bytes are zero.
    pub fn new(id: u8) -> (a: Address)
        ensures
            a@ == Seq::new(20, |i: int| if i == 19 { id } else { 0u8 }),
    {
        let mut addr = [0u8; 20];
        addr[19] = id;
        let a = Address(addr);
        assert(a@ =~= Seq::new(20, |i: int| if i == 19 { id } else { 0u8 }));
        a
    }

    /// The all-zero address.
    pub fn zero() -> (a: Address)
        ensures
            a@ == Seq::new(20, |i: int| 0u8),
    {
        let a = Address([0u8; 20]);
        assert(a@ =~= Seq::new(20, |i: int| 0u8));
        a
    }

    /// An address drawn at random.
    pub fn random() -> (a: Address) {
        Address(random_bytes_20())
    }

    pub fn from_bytes(bytes: [u8; 20]) -> (a: Address)
        ensures
            a.0 == bytes,
    {
        Address(bytes)
    }

    pub fn as_bytes(&self) -> (b: &[u8; 20])
        ensures
            *b == self.0,
    {
        &self.0
    }
}

impl BlockHash {
    pub fn new(hash: [u8; 32]) -> (h: BlockHash)
        ensures
            h.0 == hash,
    {
        BlockHash(hash)
    }

    /// The all-zero digest.
    pub fn zero() -> (h: BlockHash)
        ensures
            h@ == Seq::new(32, |i: int| 0u8),
    {
        let h = BlockHash([0u8; 32]);
        assert(h@ =~= Seq::new(32, |i: int| 0u8));
        h
    }

    /// A digest drawn at random.
    pub fn random() -> (h: BlockHash) {
        BlockHash(random_bytes_32())
    }

    pub fn as_bytes(&self) -> (b: &[u8; 32])
        ensures
            *b == self.0,
    {
        &self.0
    }
}

/// A copy of a byte vector.
pub fn clone_bytes(v: &Vec<u8>) -> (r: Vec<u8>)
    ensures
        r@ == v@,
{
    let r = v.clone();
    assert(r@ =~= v@);
    r
}

/// The scheme that a signature was made with.
#[derive(Debug, Clone, Copy, PartialEq, Eq, Structural)]
pub enum SignatureType {
    Ed25519,
    Secp256k1,
    PostQuantum,
}

impl View for SignatureType {
    type V = SignatureType;

    open spec fn view(&self) -> SignatureType {
        *self
    }
}

impl View for ProofType {
    type V = ProofType;

    open spec fn view(&self) -> ProofType {
        *self
    }
}

/// The proof system that a proof was made with.
#[derive(Debug, Clone, Copy, PartialEq, Eq, Structural)]
pub enum ProofType {
    SP1,
    Risc0,
    Plonky3,
}

/// One slot of an account's storage.
#[derive(Debug, Clone, Copy, PartialEq, Eq)]
pub struct StorageSlot {
    pub key: [u8; 32],
    pub value: [u8; 32],
}

impl View for StorageSlot {
    type V = (Seq<u8>, Seq<u8>);

    open spec fn view(&self) -> (Seq<u8>, Seq<u8>) {
        (self.key@, self.value@)
    }
}

/// An account: balance and nonce, with code and storage carried along. The
/// storage is a map from keys to values, held as slots in the order of the
/// keys' bytes.
#[derive(Debug, PartialEq, Eq)]
pub struct Account {
    pub balance: u64,
    pub nonce: u64,
    pub code: Vec<u8>,
    pub storage: Vec<StorageSlot>,
}

/// What an account holds, as mathematical values.
pub struct AccountView {
    pub balance: u64,
    pub nonce: u64,
    pub code: Seq<u8>,
    pub storage: Seq<(Seq<u8>, Seq<u8>)>,
}

impl View for Account {
    type V = AccountView;

    open spec fn view(&self) -> AccountView {
        AccountView {
            balance: self.balance,
            nonce: self.nonce,
            code: self.code@,
            storage: self.storage@.map_values(|s: StorageSlot| s@),
        }
    }
}

impl AccountView {
    /// The account that a first credit creates: nothing but a balance.
    pub open spec fn fresh(balance: u64) -> AccountView {
        AccountView { balance, nonce: 0, code: Seq::empty(), storage: Seq::empty() }
    }
}

impl Account {
    /// An account with the given balance and nothing else.
    pub fn new(balance: u64) -> (a: Account)
        ensures
            a@ == AccountView::fresh(balance),
    {
        let a = Account { balance, nonce: 0, code: Vec::new(), storage: Vec::new() };
        assert(a@.storage =~= Seq::empty());
        a
    }
}

impl Clone for Account {
    fn clone(&self) -> (r: Account)
        ensures
            r@ == self@,
    {
        let mut storage: Vec<StorageSlot> = Vec::new();
        let mut i: usize = 0;
        while i < self.storage.len()
            invariant
                i <= self.storage@.len(),
                storage@ == self.storage@.subrange(0, i as int),
            decreases self.storage@.len() - i,
        {
            storage.push(self.storage[i]);
            i += 1;
            assert(storage@ =~= self.storage@.subrange(0, i as int));
        }
        assert(storage@ =~= self.storage@);
        Account {
            balance: self.balance,
            nonce: self.nonce,
            code: clone_bytes(&self.code),
            storage,
        }
    }
}

/// A transfer of value from one account to another, with a payload.
#[derive(Debug, PartialEq, Eq)]
pub struct Transaction {
    pub from: Address,
    pub to: Address,
    pub value: u64,
    pub data: Vec<u8>,
    pub gas_limit: u64,
    pub nonce: u64,
    pub signature: Vec<u8>,
    pub sig_type: SignatureType,
}

/// A transaction as mathematical values.
pub struct TransactionView {
    pub from: Seq<u8>,
    pub to: Seq<u8>,
    pub value: u64,
    pub data: Seq<u8>,
    pub gas_limit: u64,
    pub nonce: u64,
    pub signature: Seq<u8>,
    pub sig_type: SignatureType,
}

impl View for Transaction {
    type V = TransactionView;

    open spec fn view(&self) -> TransactionView {
        TransactionView {
            from: self.from@,
            to: self.to@,
            value: self.value,
            data: self.data@,
            gas_limit: self.gas_limit,
            nonce: self.nonce,
            signature: self.signature@,
            sig_type: self.sig_type,
        }
    }
}

/// The gas limit that a plain transfer is given.
pub const DEFAULT_GAS_LIMIT: u64 = 21000;

impl Transaction {
    /// A transfer with no payload, the default gas limit and a signature
    /// slot of 64 zero bytes for the classical scheme.
    pub fn new(from: Address, to: Address, value: u64, nonce: u64) -> (tx: Transaction)
        ensures
            tx@ == (TransactionView {
                from: from@,
                to: to@,
                value,
                data: Seq::empty(),
                gas_limit: DEFAULT_GAS_LIMIT,
                nonce,
                signature: Seq::new(64, |i: int| 0u8),
                sig_type: SignatureType::Ed25519,
            }),
    {
        let mut signature: Vec<u8> = Vec::new();
        let mut i: usize = 0;
        while i < 64
            invariant
                i <= 64,
                signature@ == Seq::new(i as nat, |j: int| 0u8),
            decreases 64 - i,
        {
            signature.push(0u8);
            i += 1;
            assert(signature@ =~= Seq::new(i as nat, |j: int| 0u8));
        }
        Transaction {
            from,
            to,
            value,
            data: Vec::new(),
            gas_limit: DEFAULT_GAS_LIMIT,
            nonce,
            signature,
            sig_type: SignatureType::Ed25519,
        }
    }

    /// A transfer to be signed with the post-quantum scheme: as `new`, with
    /// an empty signature slot.
    pub fn with_post_quantum(from: Address, to: Address, value: u64, nonce: u64) -> (tx:
        Transaction)
        ensures
            tx@ == (TransactionView {
                from: from@,
                to: to@,
                value,
                data: Seq::empty(),
                gas_limit: DEFAULT_GAS_LIMIT,
                nonce,
                signature: Seq::empty(),
                sig_type: SignatureType::PostQuantum,
            }),
    {
        Transaction {
            from,
            to,
            value,
            data: Vec::new(),
            gas_limit: DEFAULT_GAS_LIMIT,
            nonce,
            signature: Vec::new(),
            sig_type: SignatureType::PostQuantum,
        }
    }
}

impl Clone for Transaction {
    fn clone(&self) -> (r: Transaction)
        ensures
            r@ == self@,
    {
        Transaction {
            from: self.from,
            to: self.to,
            value: self.value,
            data: clone_bytes(&self.data),
            gas_limit: self.gas_limit,
            nonce: self.nonce,
            signature: clone_bytes(&self.signature),
            sig_type: self.sig_type,
        }
    }
}

/// The header of a block.
#[derive(Debug, PartialEq, Eq)]
pub struct BlockHeader {
    pub previous_hash: BlockHash,
    pub merkle_root: BlockHash,
    pub state_root: BlockHash,
    pub timestamp: u64,
    pub block_number: u64,
    pub gas_limit: u64,
    pub gas_used: u64,
    pub producer: Address,
    pub extra_data: Vec<u8>,
}

/// A block header as mathematical values.
pub struct BlockHeaderView {
    pub previous_hash: Seq<u8>,
    pub merkle_root: Seq<u8>,
    pub state_root: Seq<u8>,
    pub timestamp: u64,
    pub block_number: u64,
    pub gas_limit: u64,
    pub gas_used: u64,
    pub producer: Seq<u8>,
    pub extra_data: Seq<u8>,
}

impl View for BlockHeader {
    type V = BlockHeaderView;

    open spec fn view(&self) -> BlockHeaderView {
        BlockHeaderView {
            previous_hash: self.previous_hash@,
            merkle_root: self.merkle_root@,
            state_root: self.state_root@,
            timestamp: self.timestamp,
            block_number: self.block_number,
            gas_limit: self.gas_limit,
            gas_used: self.gas_used,
            producer: self.producer@,
            extra_data: self.extra_data@,
        }
    }
}

impl Clone for BlockHeader {
    fn clone(&self) -> (r: BlockHeader)
        ensures
            r@ == self@,
    {
        BlockHeader {
            previous_hash: self.previous_hash,
            merkle_root: self.merkle_root,
            state_root: self.state_root,
            timestamp: self.timestamp,
            block_number: self.block_number,
            gas_limit: self.gas_limit,
            gas_used: self.gas_used,
            producer: self.producer,
            extra_data: clone_bytes(&self.extra_data),
        }
    }
}

/// A succinct proof as carried in a block. An empty `proof_data` marks a
/// proof that is still pending.
#[derive(Debug, PartialEq, Eq)]
pub struct ZkProof {
    pub proof_data: Vec<u8>,
    pub public_inputs: Vec<u8>,
    pub verification_key: Vec<u8>,
    pub proof_type: ProofType,
}

/// A proof as mathematical values.
pub struct ZkProofView {
    pub proof_data: Seq<u8>,
    pub public_inputs: Seq<u8>,
    pub verification_key: Seq<u8>,
    pub proof_type: ProofType,
}

impl View for ZkProof {
    type V = ZkProofView;

    open spec fn view(&self) -> ZkProofView {
        ZkProofView {
            proof_data: self.proof_data@,
            public_inputs: self.public_inputs@,
            verification_key: self.verification_key@,
            proof_type: self.proof_type,
        }
    }
}

impl Clone for ZkProof {
    fn clone(&self) -> (r: ZkProof)
        ensures
            r@ == self@,
    {
        ZkProof {
            proof_data: clone_bytes(&self.proof_data),
            public_inputs: clone_bytes(&self.public_inputs),
            verification_key: clone_bytes(&self.verification_key),
            proof_type: self.proof_type,
        }
    }
}

/// A self-amending change to the protocol, with the proof of its validity
/// and the height from which it holds.
#[derive(Debug, PartialEq, Eq)]
pub struct ProtocolRule {
    pub rule_id: u32,
    pub rule_data: Vec<u8>,
    pub validity_proof: ZkProof,
    pub activation_epoch: u64,
}

/// A protocol rule as mathematical values.
pub struct ProtocolRuleView {
    pub rule_id: u32,
    pub rule_data: Seq<u8>,
    pub validity_proof: ZkProofView,
    pub activation_epoch: u64,
}

impl View for ProtocolRule {
    type V = ProtocolRuleView;

    open spec fn view(&self) -> ProtocolRuleView {
        ProtocolRuleView {
            rule_id: self.rule_id,
            rule_data: self.rule_data@,
            validity_proof: self.validity_proof@,
            activation_epoch: self.activation_epoch,
        }
    }
}

impl Clone for ProtocolRule {
    fn clone(&self) -> (r: ProtocolRule)
        ensures
            r@ == self@,
    {
        ProtocolRule {
            rule_id: self.rule_id,
            rule_data: clone_bytes(&self.rule_data),
            validity_proof: self.validity_proof.clone(),
            activation_epoch: self.activation_epoch,
        }
    }
}

/// A validator's signed vote on a block header, with the stake it carried
/// when it was cast.
#[derive(Debug, PartialEq, Eq)]
pub struct ValidatorSignature {
    pub validator_address: Address,
    pub stake_weight: u64,
    pub signature: Vec<u8>,
    pub sig_type: SignatureType,
}

/// An attestation as mathematical values.
pub struct ValidatorSignatureView {
    pub validator_address: Seq<u8>,
    pub stake_weight: u64,
    pub signature: Seq<u8>,
    pub sig_type: SignatureType,
}

impl View for ValidatorSignature {
    type V = ValidatorSignatureView;

    open spec fn view(&self) -> ValidatorSignatureView {
        ValidatorSignatureView {
            validator_address: self.validator_address@,
            stake_weight: self.stake_weight,
            signature: self.signature@,
            sig_type: self.sig_type,
        }
    }
}

impl Clone for ValidatorSignature {
    fn clone(&self) -> (r: ValidatorSignature)
        ensures
            r@ == self@,
    {
        ValidatorSignature {
            validator_address: self.validator_address,
            stake_weight: self.stake_weight,
            signature: clone_bytes(&self.signature),
            sig_type: self.sig_type,
        }
    }
}

/// The views of a vector of transactions.
pub open spec fn transaction_views(txs: Seq<Transaction>) -> Seq<TransactionView> {
    txs.map_values(|t: Transaction| t@)
}

/// The views of a vector of attestations.
pub open spec fn attestation_views(sigs: Seq<ValidatorSignature>) -> Seq<ValidatorSignatureView> {
    sigs.map_values(|s: ValidatorSignature| s@)
}

/// The views of a vector of protocol rules.
pub open spec fn rule_views(rules: Seq<ProtocolRule>) -> Seq<ProtocolRuleView> {
    rules.map_values(|r: ProtocolRule| r@)
}

/// A block: header, transactions in order, attestations, the recursive
/// proof, and the protocol rules that the block activates.
#[derive(Debug, PartialEq, Eq)]
pub struct Block {
    pub header: BlockHeader,
    pub transactions: Vec<Transaction>,
    pub validator_signatures: Vec<ValidatorSignature>,
    pub recursive_proof: ZkProof,
    pub protocol_updates: Vec<ProtocolRule>,
}

/// A block as mathematical values.
pub struct BlockView {
    pub header: BlockHeaderView,
    pub transactions: Seq<TransactionView>,
    pub validator_signatures: Seq<ValidatorSignatureView>,
    pub recursive_proof: ZkProofView,
    pub protocol_updates: Seq<ProtocolRuleView>,
}

impl View for Block {
    type V = BlockView;

    open spec fn view(&self) -> BlockView {
        BlockView {
            header: self.header@,
            transactions: transaction_views(self.transactions@),
            validator_signatures: attestation_views(self.validator_signatures@),
            recursive_proof: self.recursive_proof@,
            protocol_updates: rule_views(self.protocol_updates@),
        }
    }
}

/// What the proving backend is given for one block.
#[derive(Debug, PartialEq, Eq)]
pub struct ZkVMContext {
    pub previous_state_root: BlockHash,
    pub transactions: Vec<Transaction>,
    pub block_number: u64,
    pub timestamp: u64,
    pub gas_limit: u64,
}

/// A witness as mathematical values.
pub struct ZkVMContextView {
    pub previous_state_root: Seq<u8>,
    pub transactions: Seq<TransactionView>,
    pub block_number: u64,
    pub timestamp: u64,
    pub gas_limit: u64,
}

impl View for ZkVMContext {
    type V = ZkVMContextView;

    open spec fn view(&self) -> ZkVMContextView {
        ZkVMContextView {
            previous_state_root: self.previous_state_root@,
            transactions: transaction_views(self.transactions@),
            block_number: self.block_number,
            timestamp: self.timestamp,
            gas_limit: self.gas_limit,
        }
    }
}

/// The world state: the accounts by address, and the root that commits to them.
pub struct WorldState {
    pub accounts: AddressMap<Account>,
    pub global_nonce: u64,
    pub state_root: BlockHash,
    pub block_number: u64,
}

/// The world state as mathematical values.
pub struct WorldStateView {
    pub accounts: Map<Seq<u8>, AccountView>,
    pub global_nonce: u64,
    pub state_root: Seq<u8>,
    pub block_number: u64,
}

impl View for WorldState {
    type V = WorldStateView;

    open spec fn view(&self) -> WorldStateView {
        WorldStateView {
            accounts: self.account_views(),
            global_nonce: self.global_nonce,
            state_root: self.state_root@,
            block_number: self.block_number,
        }
    }
}

impl WorldState {
    /// The accounts as a mathematical map from address bytes to accounts.
    pub open spec fn account_views(&self) -> Map<Seq<u8>, AccountView> {
        self.accounts@.map_values(|a: Account| a@)
    }

    /// The balance held at an address; zero where there is no account.
    pub open spec fn balance_at(&self, address: Seq<u8>) -> u64 {
        balance_in(self.account_views(), address)
    }

    /// The nonce of an address; zero where there is no account.
    pub open spec fn nonce_at(&self, address: Seq<u8>) -> u64 {
        nonce_in(self.account_views(), address)
    }

    /// The balance held at `address`; zero where there is no account.
    pub fn balance_of(&self, address: &Address) -> (balance: u64)
        ensures
            balance == self.balance_at(address@),
    {
        match self.accounts.get(address) {
            Some(account) => account.balance,
            None => 0,
        }
    }

    /// The nonce of `address`; zero where there is no account.
    pub fn nonce_of(&self, address: &Address) -> (nonce: u64)
        ensures
            nonce == self.nonce_at(address@),
    {
        match self.accounts.get(address) {
            Some(account) => account.nonce,
            None => 0,
        }
    }

    /// The account at `address`, if there is one.
    pub fn get_account(&self, address: &Address) -> (r: Option<&Account>)
        ensures
            match r {
                Some(account) => self.account_views().contains_key(address@)
                    && self.account_views()[address@] == account@,
                None => !self.account_views().contains_key(address@),
            },
    {
        self.accounts.get(address)
    }

    /// Puts `account` at `address`, in place of the one held there before.
    pub fn insert_account(&mut self, address: Address, account: Account)
        ensures
            final(self).account_views() == old(self).account_views().insert(address@, account@),
            final(self).global_nonce == old(self).global_nonce,
            final(self).state_root == old(self).state_root,
            final(self).block_number == old(self).block_number,
    {
        self.accounts.insert(address, account);
        assert(self.account_views() =~= old(self).account_views().insert(address@, account@));
    }

    /// The number of accounts.
    pub fn account_count(&self) -> (n: usize)
        ensures
            n == self.account_views().dom().len(),
    {
        proof {
            use_type_invariant(&self.accounts);
            self.accounts.lemma_domain_size();
            assert(self.account_views().dom() =~= self.accounts@.dom());
        }
        self.accounts.len()
    }
}

/// The balance that a map of accounts holds at an address; zero where it
/// holds no account.
pub open spec fn balance_in(accounts: Map<Seq<u8>, AccountView>, address: Seq<u8>) -> u64 {
    if accounts.contains_key(address) {
        accounts[address].balance
    } else {
        0
    }
}

/// The nonce that a map of accounts holds for an address; zero where it
/// holds no account.
pub open spec fn nonce_in(accounts: Map<Seq<u8>, AccountView>, address: Seq<u8>) -> u64 {
    if accounts.contains_key(address) {
        accounts[address].nonce
    } else {
        0
    }
}

impl Default for WorldState {
    /// The state before genesis: no account, the zero root, height zero.
    fn default() -> (state: WorldState)
        ensures
            state.account_views() == Map::<Seq<u8>, AccountView>::empty(),
            state.global_nonce == 0,
            state.state_root@ == Seq::new(32, |i: int| 0u8),
            state.block_number == 0,
    {
        let state = WorldState {
            accounts: AddressMap::new(),
            global_nonce: 0,
            state_root: BlockHash::zero(),
            block_number: 0,
        };
        assert(state.account_views() =~= Map::<Seq<u8>, AccountView>::empty());
        state
    }
}

impl Clone for WorldState {
    fn clone(&self) -> (r: WorldState)
        ensures
            r.account_views() == self.account_views(),
            r.accounts.keys() == self.accounts.keys(),
            r.global_nonce == self.global_nonce,
            r.state_root == self.state_root,
            r.block_number == self.block_number,
    {
        WorldState {
            accounts: self.accounts.clone_with_accounts(),
            global_nonce: self.global_nonce,
            state_root: self.state_root,
            block_number: self.block_number,
        }
    }
}

/// One whole of a performance score: scores are held in ten-thousandths.
pub const SCORE_ONE: u64 = 10000;

/// A validator: its address, its stake, its public key and how well it has
/// performed, from 0 to `SCORE_ONE`.
#[derive(Debug, PartialEq, Eq)]
pub struct Validator {
    pub address: Address,
    pub stake: u64,
    pub public_key: Vec<u8>,
    pub performance_score: u64,
}

/// A validator as mathematical values.
pub struct ValidatorView {
    pub address: Seq<u8>,
    pub stake: u64,
    pub public_key: Seq<u8>,
    pub performance_score: u64,
}

impl View for Validator {
    type V = ValidatorView;

    open spec fn view(&self) -> ValidatorView {
        ValidatorView {
            address: self.address@,
            stake: self.stake,
            public_key: self.public_key@,
            performance_score: self.performance_score,
        }
    }
}

impl Clone for Validator {
    fn clone(&self) -> (r: Validator)
        ensures
            r@ == self@,
    {
        Validator {
            address: self.address,
            stake: self.stake,
            public_key: clone_bytes(&self.public_key),
            performance_score: self.performance_score,
        }
    }
}

/// The sum of the stakes of the first `k` validators.
pub open spec fn stake_before(validators: Seq<Validator>, k: int) -> nat
    decreases k,
{
    if k <= 0 {
        0
    } else {
        stake_before(validators, k - 1) + validators[k - 1].stake as nat
    }
}

/// The sum of all stakes.
pub open spec fn stake_sum(validators: Seq<Validator>) -> nat {
    stake_before(validators, validators.len() as int)
}

/// The validators, in the order in which they were given, with the sum of
/// their stakes. No two validators have one address. Where an order must be
/// the same for everyone whatever the list's own, as for the stake intervals
/// of an election, the validators are taken in the order of their addresses'
/// bytes.
#[derive(Debug, PartialEq, Eq)]
pub struct ValidatorSet {
    pub validators: Vec<Validator>,
    pub total_stake: u64,
}

/// Whether the validators stand in strictly increasing order of their
/// addresses' bytes.
pub open spec fn sorted_by_address(validators: Seq<Validator>) -> bool {
    forall|i: int, j: int|
        0 <= i < j < validators.len() ==> be_value((#[trigger] validators[i]).address@) < be_value(
            (#[trigger] validators[j]).address@,
        )
}

/// Whether no two validators have one address.
pub open spec fn distinct_addresses(validators: Seq<Validator>) -> bool {
    forall|i: int, j: int|
        0 <= i < j < validators.len() ==> (#[trigger] validators[i]).address@ != (
        #[trigger] validators[j]).address@
}

impl ValidatorSet {
    /// The invariant: no two validators have one address, the cached total
    /// is the sum of the stakes, and no score is above one whole.
    pub open spec fn well_formed(&self) -> bool {
        &&& distinct_addresses(self.validators@)
        &&& self.total_stake == stake_sum(self.validators@)
        &&& forall|i: int|
            0 <= i < self.validators@.len() ==> (#[trigger] self.validators@[i]).performance_score
                <= SCORE_ONE
    }
}

/// How the proving backend is to be run.
#[derive(Debug, Clone, Copy, PartialEq, Eq, Structural)]
pub struct ZkVMConfig {
    pub memory_limit: usize,
    pub execution_timeout_ms: u64,
    pub proof_compression: bool,
    pub parallel_execution: bool,
    pub max_circuits: usize,
}

impl Default for ZkVMConfig {
    fn default() -> (c: ZkVMConfig)
        ensures
            c == (ZkVMConfig {
                memory_limit: 0x4000_0000,
                execution_timeout_ms: 30000,
                proof_compression: true,
                parallel_execution: true,
                max_circuits: 16,
            }),
    {
        ZkVMConfig {
            memory_limit: 0x4000_0000,
            execution_timeout_ms: 30000,
            proof_compression: true,
            parallel_execution: true,
            max_circuits: 16,
        }
    }
}

/// One whole of a fraction: fractions are held in ten-thousandths.
pub const FRACTION_ONE: u64 = 10000;

/// Why a configuration is not accepted.
#[derive(Debug, Clone, Copy, PartialEq, Eq, Structural)]
pub enum ConfigError {
    ZeroBlockTime,
    ZeroMaxBlockSize,
    ZeroMaxTransactions,
    ZeroMinStake,
    SlashingRateOutOfRange,
    RewardRateOutOfRange,
    FinalityThresholdOutOfRange,
    ZeroEpochLength,
    ProducerScoreOutOfRange,
}

/// The protocol's parameters. Times are in milliseconds, and the two rates
/// are fractions in ten-thousandths; the finality threshold is the fraction
/// `finality_numerator / finality_denominator` of the total stake. A
/// validator whose score, in ten-thousandths, is below `min_producer_score`
/// is passed over in an election, which draws again up to
/// `max_election_attempts` times in all.
#[derive(Debug, Clone, Copy, PartialEq, Eq, Structural)]
pub struct ProtocolConfig {
    pub block_time_ms: u64,
    pub max_block_size: usize,
    pub max_transactions_per_block: usize,
    pub min_stake_threshold: u64,
    pub slashing_rate: u64,
    pub reward_rate: u64,
    pub finality_numerator: u64,
    pub finality_denominator: u64,
    pub epoch_length_blocks: u64,
    pub gas_unit_price: u64,
    pub min_producer_score: u64,
    pub max_election_attempts: u64,
    pub zkvm_config: ZkVMConfig,
}

impl ProtocolConfig {
    /// What validating a configuration gives: the first parameter out of
    /// range, in the order of the fields, or nothing to object to.
    pub open spec fn validate_spec(&self) -> Result<(), ConfigError> {
        if self.block_time_ms == 0 {
            Err(ConfigError::ZeroBlockTime)
        } else if self.max_block_size == 0 {
            Err(ConfigError::ZeroMaxBlockSize)
        } else if self.max_transactions_per_block == 0 {
            Err(ConfigError::ZeroMaxTransactions)
        } else if self.min_stake_threshold == 0 {
            Err(ConfigError::ZeroMinStake)
        } else if self.slashing_rate > FRACTION_ONE {
            Err(ConfigError::SlashingRateOutOfRange)
        } else if self.reward_rate > FRACTION_ONE {
            Err(ConfigError::RewardRateOutOfRange)
        } else if self.finality_denominator == 0 || self.finality_numerator
            > self.finality_denominator {
            Err(ConfigError::FinalityThresholdOutOfRange)
        } else if self.epoch_length_blocks == 0 {
            Err(ConfigError::ZeroEpochLength)
        } else if self.min_producer_score > SCORE_ONE {
            Err(ConfigError::ProducerScoreOutOfRange)
        } else {
            Ok(())
        }
    }

    /// Whether every parameter is in its range.
    pub open spec fn valid(&self) -> bool {
        self.validate_spec() is Ok
    }

    /// Checks every parameter against its range.
    pub fn validate(&self) -> (r: Result<(), ConfigError>)
        ensures
            r == self.validate_spec(),
    {
        if self.block_time_ms == 0 {
            Err(ConfigError::ZeroBlockTime)
        } else if self.max_block_size == 0 {
            Err(ConfigError::ZeroMaxBlockSize)
        } else if self.max_transactions_per_block == 0 {
            Err(ConfigError::ZeroMaxTransactions)
        } else if self.min_stake_threshold == 0 {
            Err(ConfigError::ZeroMinStake)
        } else if self.slashing_rate > FRACTION_ONE {
            Err(ConfigError::SlashingRateOutOfRange)
        } else if self.reward_rate > FRACTION_ONE {
            Err(ConfigError::RewardRateOutOfRange)
        } else if self.finality_denominator == 0 || self.finality_numerator
            > self.finality_denominator {
            Err(ConfigError::FinalityThresholdOutOfRange)
        } else if self.epoch_length_blocks == 0 {
            Err(ConfigError::ZeroEpochLength)
        } else if self.min_producer_score > SCORE_ONE {
            Err(ConfigError::ProducerScoreOutOfRange)
        } else {
            Ok(())
        }
    }
}

impl Default for ProtocolConfig {
    /// Blocks every four seconds, one megabyte and ten thousand transactions
    /// at most, slashing at 5% and rewards at 4%, finality at two thirds of
    /// the stake, gas at no price, and elections that pass over scores
    /// below one half and draw up to eight times.
    fn default() -> (c: ProtocolConfig)
        ensures
            c.block_time_ms == 4000,
            c.max_block_size == 1000000,
            c.max_transactions_per_block == 10000,
            c.min_stake_threshold == 32000000000,
            c.slashing_rate == 500,
            c.reward_rate == 400,
            c.finality_numerator == 2,
            c.finality_denominator == 3,
            c.epoch_length_blocks == 32,
            c.gas_unit_price == 0,
            c.min_producer_score == 5000,
            c.max_election_attempts == 8,
            c.valid(),
    {
        ProtocolConfig {
            block_time_ms: 4000,
            max_block_size: 1000000,
            max_transactions_per_block: 10000,
            min_stake_threshold: 32000000000,
            slashing_rate: 500,
            reward_rate: 400,
            finality_numerator: 2,
            finality_denominator: 3,
            epoch_length_blocks: 32,
            gas_unit_price: 0,
            min_producer_score: 5000,
            max_election_attempts: 8,
            zkvm_config: ZkVMConfig::default(),
        }
    }
}

} // verus!
