//! The consensus engine: it owns the world state and the chain, takes in
//! transactions, produces and validates blocks, applies them, and keeps the
//! chain receipt.

use crate::consensus::election::{
    credited, elect_spec, in_address_order, performance_recorded, slashed, slashed_amount,
    Election, ValidatorError,
};
use crate::consensus::execution::{
    batch_result, commitment_of, compute_state_commitment, execute_batch,
};
use crate::consensus::mempool::{
    assemble_spec, queue_sorted, sender_count, submit_spec, AdmissionError, Mempool,
};
use crate::consensus::validation::{
    attestations_check, check_attestations, check_header, check_transactions, header_check,
    header_hash, header_hash_spec, signature_flags, signature_flags_spec,
    transaction_signature_valid, transactions_check, transactions_root, transactions_root_spec,
    verify_transaction, ValidationError,
};
use crate::crypto::signatures::{ed25519_signature, PostQuantumSigner, SignatureEngine};
use crate::serialization::item_views;
use crate::types::{
    nonce_in, AccountView, Address, Block, BlockHash, BlockHeader, BlockHeaderView, BlockView, ConfigError,
    ProofType, ProtocolConfig, ProtocolRule, ProtocolRuleView, SignatureType, Transaction,
    TransactionView, Validator, ValidatorSet, ValidatorSignature, ValidatorSignatureView,
    WorldState, ZkProof, ZkProofView,
};
use crate::zkvm::composer::{
    amendment_accepted, amendment_verdicts, chain_proof_spec, chain_receipt_accepted, fold_spec,
    rule_ids, rules_check, ChainReceipt, ChainReceiptView, ComposeError,
};
use crate::zkvm::programs::guest_program::StateTransitionOutput;
use crate::zkvm::real_proofs::{
    image_id_spec, mock_amendment_elf_spec, mock_guest_elf_spec, mock_recursive_elf_spec,
    receipt_body, receipt_body_spec, ImageIds, ProofKind, ReceiptView, ZKProofResult,
};
use vstd::prelude::*;

verus! {

/// Why an operation of the engine failed, by the class of the error.
#[derive(Debug, Clone, Copy, PartialEq, Eq, Structural)]
pub enum ConsensusError {
    /// The configuration is out of range.
    Config(ConfigError),
    /// The validators do not make a set, or there is none to elect.
    Validator(ValidatorError),
    /// A transaction was not admitted. The chain is not affected.
    Admission(AdmissionError),
    /// A block is invalid.
    Validation(ValidationError),
    /// A receipt could not be folded into the chain receipt.
    Compose(ComposeError),
    /// There is no block above the chain receipt to compose.
    NothingToCompose,
    /// The state that an engine is to start from is not at height zero.
    GenesisNotAtHeightZero,
    /// The state that an engine is to start from holds an account whose
    /// storage is not in the order of its keys.
    GenesisStorageOutOfOrder,
    /// A resource ran out: a pool or a queue is full, a deadline passed or the
    /// proving backend is not there.
    Resource(ResourceError),
    /// The state diverged after finalization, persisted data is corrupt, or
    /// a proof is under another image id than the configured one.
    Fatal(FatalError),
}

/// What ran out.
#[derive(Debug, Clone, Copy, PartialEq, Eq, Structural)]
pub enum ResourceError {
    PoolFull,
    QueueFull,
    DeadlineExceeded,
    BackendUnavailable,
}

/// What went wrong beyond repair.
#[derive(Debug, Clone, Copy, PartialEq, Eq, Structural)]
pub enum FatalError {
    StateDivergence,
    DataCorruption,
    ImageIdMismatch,
}

/// The class of an error, which decides what is done about it.
#[derive(Debug, Clone, Copy, PartialEq, Eq, Structural)]
pub enum ErrorClass {
    /// Returned to the submitter; the chain is not affected.
    Admission,
    /// The block is marked invalid.
    Validation,
    /// Retried with backoff, then degraded to a pending receipt.
    Resource,
    /// Stops the application of blocks and starts recovery.
    Fatal,
}

impl ConsensusError {
    /// The class of an error. A configuration, a validator set or a genesis
    /// state that is not accepted is returned to whoever submitted it; a receipt that does not
    /// compose is a matter of validation, and so is the lack of a block to
    /// compose.
    pub open spec fn class_spec(self) -> ErrorClass {
        match self {
            ConsensusError::Config(_) => ErrorClass::Admission,
            ConsensusError::Validator(_) => ErrorClass::Admission,
            ConsensusError::Admission(AdmissionError::QueueFull) => ErrorClass::Resource,
            ConsensusError::Admission(AdmissionError::SenderQueueFull) => ErrorClass::Resource,
            ConsensusError::Admission(_) => ErrorClass::Admission,
            ConsensusError::Validation(_) => ErrorClass::Validation,
            ConsensusError::Compose(_) => ErrorClass::Validation,
            ConsensusError::NothingToCompose => ErrorClass::Validation,
            ConsensusError::GenesisNotAtHeightZero => ErrorClass::Admission,
            ConsensusError::GenesisStorageOutOfOrder => ErrorClass::Admission,
            ConsensusError::Resource(_) => ErrorClass::Resource,
            ConsensusError::Fatal(_) => ErrorClass::Fatal,
        }
    }

    /// The class of the error.
    pub fn class(&self) -> (c: ErrorClass)
        ensures
            c == self.class_spec(),
    {
        match self {
            ConsensusError::Config(_) => ErrorClass::Admission,
            ConsensusError::Validator(_) => ErrorClass::Admission,
            ConsensusError::Admission(AdmissionError::QueueFull) => ErrorClass::Resource,
            ConsensusError::Admission(AdmissionError::SenderQueueFull) => ErrorClass::Resource,
            ConsensusError::Admission(_) => ErrorClass::Admission,
            ConsensusError::Validation(_) => ErrorClass::Validation,
            ConsensusError::Compose(_) => ErrorClass::Validation,
            ConsensusError::NothingToCompose => ErrorClass::Validation,
            ConsensusError::GenesisNotAtHeightZero => ErrorClass::Admission,
            ConsensusError::GenesisStorageOutOfOrder => ErrorClass::Admission,
            ConsensusError::Resource(_) => ErrorClass::Resource,
            ConsensusError::Fatal(_) => ErrorClass::Fatal,
        }
    }

    /// Whether the error ends the pipeline: only a fatal one does.
    pub fn terminates_pipeline(&self) -> (stop: bool)
        ensures
            stop == (self.class_spec() == ErrorClass::Fatal),
    {
        match self {
            ConsensusError::Fatal(_) => true,
            _ => false,
        }
    }
}

/// The gas that a block may use.
pub const DEFAULT_BLOCK_GAS_LIMIT: u64 = 30000000;

/// The number of transactions of one sender that may wait at a time.
pub const MAX_PENDING_PER_SENDER: usize = 16;

/// The number of blocks by which the chain receipt may lag behind a block
/// whose own receipt is pending.
pub const MAX_RECEIPT_LAG: u64 = 16;

/// The number of transactions that the queue of an engine may hold: twice
/// what a block may hold, as far as that can be counted.
pub open spec fn queue_capacity(max_transactions_per_block: usize) -> nat {
    if max_transactions_per_block <= usize::MAX / 2 {
        (max_transactions_per_block * 2) as nat
    } else {
        usize::MAX as nat
    }
}

/// The headers of the blocks, in order.
pub open spec fn headers_of(blocks: Seq<Block>) -> Seq<BlockHeaderView> {
    blocks.map_values(|b: Block| b.header@)
}

/// The all-zero digest, which stands for the hash before the first block.
pub open spec fn zero_hash() -> Seq<u8> {
    Seq::new(32, |i: int| 0u8)
}

/// Whether the headers make a chain: the numbers count up from one, each
/// header names the hash of the one before it (the first, the zero hash),
/// and the times go up strictly.
pub open spec fn chain_valid(headers: Seq<BlockHeaderView>) -> bool {
    &&& forall|i: int| 0 <= i < headers.len() ==> (#[trigger] headers[i]).block_number == i + 1
    &&& forall|i: int, j: int|
        0 <= i && j == i + 1 && j < headers.len() ==> (#[trigger] headers[i]).timestamp < (
        #[trigger] headers[j]).timestamp && headers[j].previous_hash == header_hash_spec(
            headers[i],
        )
    &&& headers.len() > 0 ==> headers[0].previous_hash == zero_hash()
}

/// The hash that the next header has to name.
pub open spec fn last_hash_spec(headers: Seq<BlockHeaderView>) -> Seq<u8> {
    if headers.len() == 0 {
        zero_hash()
    } else {
        header_hash_spec(headers.last())
    }
}

/// The time of the last block, if there is one.
pub open spec fn last_timestamp_spec(headers: Seq<BlockHeaderView>) -> Option<u64> {
    if headers.len() == 0 {
        None
    } else {
        Some(headers.last().timestamp)
    }
}

/// The state root at a height: that of genesis at height zero, else that of
/// the block of that height.
pub open spec fn root_at(genesis_root: Seq<u8>, headers: Seq<BlockHeaderView>, height: int) -> Seq<u8> {
    if height <= 0 {
        genesis_root
    } else {
        headers[height - 1].state_root
    }
}

/// In a chain, a later block has a higher number, by as much as it is later,
/// and a later time.
pub proof fn lemma_chain_monotonic(headers: Seq<BlockHeaderView>, i: int, j: int)
    requires
        chain_valid(headers),
        0 <= i < j < headers.len(),
    ensures
        headers[j].block_number == headers[i].block_number + (j - i),
        headers[i].timestamp < headers[j].timestamp,
    decreases j - i,
{
    if i + 1 < j {
        lemma_chain_monotonic(headers, i, j - 1);
    }
    let before = headers[j - 1];
    let after = headers[j];
    assert(before.timestamp < after.timestamp);
}

/// A chain extended by a header that passes the header check is a chain.
pub proof fn lemma_chain_extends(headers: Seq<BlockHeaderView>, next: BlockHeaderView)
    requires
        chain_valid(headers),
        header_check(
            next,
            last_hash_spec(headers),
            headers.len(),
            last_timestamp_spec(headers),
        ) is Ok,
    ensures
        chain_valid(headers.push(next)),
{
    let longer = headers.push(next);
    assert forall|i: int, j: int| 0 <= i && j == i + 1 && j < longer.len() implies (
    #[trigger] longer[i]).timestamp < (#[trigger] longer[j]).timestamp && longer[j].previous_hash
        == header_hash_spec(longer[i]) by {
        if j < headers.len() {
            assert(headers[i].timestamp < headers[j].timestamp);
        }
    }
}

/// The check of a block's state transition by re-execution: the header's
/// gas limit is the block gas limit, every transaction executes, and the
/// state root and the gas are those that the header gives.
pub open spec fn execution_check(
    accounts: Map<Seq<u8>, AccountView>,
    prev_root: Seq<u8>,
    header: BlockHeaderView,
    txs: Seq<TransactionView>,
    flags: Seq<bool>,
    unit_price: u64,
    block_gas_limit: u64,
) -> Result<(), ValidationError> {
    if header.gas_limit != block_gas_limit {
        Err(ValidationError::GasLimitMismatch)
    } else {
        match batch_result(accounts, txs, flags, unit_price, block_gas_limit, txs.len()) {
            Err((index, reason)) => Err(
                ValidationError::ExecutionFailed { index: index as usize, reason },
            ),
            Ok((after, gas)) => if commitment_of(after, prev_root) != header.state_root {
                Err(ValidationError::StateRootMismatch)
            } else if gas != header.gas_used {
                Err(ValidationError::GasMismatch)
            } else {
                Ok(())
            },
        }
    }
}

/// The check of a block's receipt. A pending receipt, one with no body, is
/// accepted as long as the chain receipt lags by no more than the bound.
/// Any other must name the state-transition image id and commit to the
/// block's transition as one that succeeded.
pub open spec fn receipt_check(
    proof: ZkProofView,
    prev_root: Seq<u8>,
    header: BlockHeaderView,
    transaction_count: nat,
    state_transition_id: Seq<u8>,
    lag: nat,
) -> Result<(), ValidationError> {
    if proof.proof_data.len() == 0 {
        if lag > MAX_RECEIPT_LAG {
            Err(ValidationError::ReceiptLagExceeded)
        } else {
            Ok(())
        }
    } else if proof.verification_key != state_transition_id || proof.proof_data
        != receipt_body_spec(
        prev_root,
        header.state_root,
        header.block_number,
        header.block_number,
        transaction_count as u64,
        header.gas_used,
        true,
        header.merkle_root,
    ) {
        Err(ValidationError::ProofRejected)
    } else {
        Ok(())
    }
}

/// Whether the deterministic verifier accepts each rule's validity receipt.
pub open spec fn amendment_verdicts_spec(rules: Seq<ProtocolRuleView>, amendment_id: Seq<u8>) -> Seq<
    bool,
> {
    Seq::new(rules.len(), |i: int| amendment_accepted(rules[i], amendment_id))
}

/// The check of the rules that a block activates.
pub open spec fn amendments_check(
    rules: Seq<ProtocolRuleView>,
    amendment_id: Seq<u8>,
    height: u64,
) -> Result<(), ValidationError> {
    match rules_check(rules, amendment_verdicts_spec(rules, amendment_id), amendment_id, height, 0) {
        Ok(()) => Ok(()),
        Err(ComposeError::AmendmentReceiptInvalid { rule_id }) => Err(
            ValidationError::AmendmentReceiptInvalid { rule_id },
        ),
        Err(ComposeError::ActivationHeightMismatch { rule_id }) => Err(
            ValidationError::AmendmentHeightMismatch { rule_id },
        ),
        Err(_) => Err(ValidationError::ProofRejected),
    }
}

/// The consensus engine.
pub struct ZkSacConsensusEngine {
    pub current_state: WorldState,
    pub validator_set: ValidatorSet,
    pub blocks: Vec<Block>,
    pub pending_transactions: Mempool,
    pub protocol_config: ProtocolConfig,
    pub signature_engine: SignatureEngine,
    pub post_quantum_signer: PostQuantumSigner,
    pub chain_receipt: ChainReceipt,
    pub image_ids: ImageIds,
    pub genesis_state_root: BlockHash,
    pub block_gas_limit: u64,
    /// The validator set of the next epoch, if one is scheduled.
    pub next_validator_set: Option<ValidatorSet>,
}

/// What a consensus engine does.
pub trait ConsensusEngine: Sized {
    /// The invariant that every operation relies on and keeps.
    spec fn well_formed(&self) -> bool;

    /// Whether a block is valid on top of the chain.
    spec fn block_valid(&self, block: BlockView) -> bool;

    /// What producing a block gives and leaves behind: `self` is the engine
    /// before and `after` the engine after.
    spec fn produced(&self, after: Self, producer: Address, timestamp: u64, r: Result<
        Block,
        ConsensusError,
    >) -> bool;

    /// What applying a block leaves behind: `self` is the engine before and
    /// `after` the engine after.
    spec fn applied(&self, after: Self, block: Block, r: Result<(), ConsensusError>) -> bool;

    /// The producer of the block with the given number, or why there is none.
    spec fn producer_for(&self, block_number: u64) -> Result<Address, ConsensusError>;

    /// Whether `block` is valid on top of the chain.
    fn validate_block(&self, block: &Block) -> (r: Result<bool, ConsensusError>)
        requires
            self.well_formed(),
        ensures
            r == Ok::<bool, ConsensusError>(self.block_valid(block@)),
    ;

    /// Assembles the block of the next height from the waiting transactions.
    fn produce_block(&mut self, producer: Address, timestamp: u64) -> (r: Result<
        Block,
        ConsensusError,
    >)
        requires
            old(self).well_formed(),
        ensures
            final(self).well_formed(),
            old(self).produced(*final(self), producer, timestamp, r),
    ;

    /// Applies a block to the state and appends it to the chain, if it is valid.
    fn apply_block(&mut self, block: Block) -> (r: Result<(), ConsensusError>)
        requires
            old(self).well_formed(),
        ensures
            final(self).well_formed(),
            r is Ok <==> old(self).block_valid(block@),
            old(self).applied(*final(self), block, r),
    ;

    /// The producer of the block with the given number.
    fn select_block_producer(&self, block_number: u64) -> (r: Result<Address, ConsensusError>)
        requires
            self.well_formed(),
        ensures
            r == self.producer_for(block_number),
    ;
}

impl ZkSacConsensusEngine {
    /// The headers of the chain.
    pub open spec fn headers(&self) -> Seq<BlockHeaderView> {
        headers_of(self.blocks@)
    }

    /// The invariant of the engine: its parts are well formed, the storage
    /// of every account is in order, the blocks make a chain, the state is
    /// the one after the last block, with the
    /// state root of that block committing to the accounts held, and the
    /// chain receipt makes public the state root of the block at its height.
    pub open spec fn consistent(&self) -> bool {
        &&& self.validator_set.well_formed()
        &&& (self.next_validator_set matches Some(set) ==> set.well_formed())
        &&& self.protocol_config.valid()
        &&& chain_valid(self.headers())
        &&& self.blocks@.len() < u64::MAX
        &&& self.current_state.block_number == self.blocks@.len()
        &&& self.current_state.storage_in_order()
        &&& self.current_state.state_root@ == root_at(
            self.genesis_state_root@,
            self.headers(),
            self.blocks@.len() as int,
        )
        &&& self.blocks@.len() > 0 ==> self.current_state.state_root@ == commitment_of(
            self.current_state.account_views(),
            root_at(self.genesis_state_root@, self.headers(), self.blocks@.len() - 1),
        )
        &&& self.chain_receipt@.height <= self.blocks@.len()
        &&& self.chain_receipt@.genesis_state_root == self.genesis_state_root@
        &&& self.chain_receipt@.state_root == root_at(
            self.genesis_state_root@,
            self.headers(),
            self.chain_receipt@.height as int,
        )
    }

    /// Whether `after` has the settings of `self`: the gas limit of a block,
    /// the image ids, the keys held, the genesis state root and the bounds of
    /// the queue. No operation on the chain changes them.
    pub open spec fn settings_kept(&self, after: Self) -> bool {
        &&& after.block_gas_limit == self.block_gas_limit
        &&& after.image_ids == self.image_ids
        &&& after.signature_engine == self.signature_engine
        &&& after.post_quantum_signer == self.post_quantum_signer
        &&& after.genesis_state_root == self.genesis_state_root
        &&& after.pending_transactions.capacity_spec()
            == self.pending_transactions.capacity_spec()
        &&& after.pending_transactions.per_sender_limit_spec()
            == self.pending_transactions.per_sender_limit_spec()
    }

    /// What checking a block gives: the first check that fails, in the order
    /// of the checks, or nothing to object to.
    pub open spec fn check_block_spec(&self, block: BlockView) -> Result<(), ValidationError> {
        let flags = signature_flags_spec(&self.signature_engine, block.transactions);
        let prev_root = self.current_state.state_root@;
        match header_check(
            block.header,
            last_hash_spec(self.headers()),
            self.blocks@.len(),
            last_timestamp_spec(self.headers()),
        ) {
            Err(e) => Err(e),
            Ok(()) => match transactions_check(
                block.transactions,
                flags,
                self.protocol_config.max_transactions_per_block as nat,
            ) {
                Err(e) => Err(e),
                Ok(()) => if block.header.merkle_root != transactions_root_spec(
                    block.transactions,
                ) {
                    Err(ValidationError::MerkleRootMismatch)
                } else {
                    match execution_check(
                        self.current_state.account_views(),
                        prev_root,
                        block.header,
                        block.transactions,
                        flags,
                        self.protocol_config.gas_unit_price,
                        self.block_gas_limit,
                    ) {
                        Err(e) => Err(e),
                        Ok(()) => match receipt_check(
                            block.recursive_proof,
                            prev_root,
                            block.header,
                            block.transactions.len(),
                            self.image_ids.state_transition@,
                            (self.blocks@.len() - self.chain_receipt@.height) as nat,
                        ) {
                            Err(e) => Err(e),
                            Ok(()) => match attestations_check(
                                self.validator_set.validators@,
                                self.validator_set.total_stake,
                                block.validator_signatures,
                                header_hash_spec(block.header),
                                self.protocol_config.finality_numerator,
                                self.protocol_config.finality_denominator,
                            ) {
                                Err(e) => Err(e),
                                Ok(()) => amendments_check(
                                    block.protocol_updates,
                                    self.image_ids.amendment@,
                                    block.header.block_number,
                                ),
                            },
                        },
                    }
                },
            },
        }
    }

    /// What producing a block with the given rules gives and leaves behind:
    /// `self` is the engine before and `after` the engine after. The chain
    /// and the state stay; the block holds what the assembly takes from the
    /// queue, under a header over it, with the base receipt of its
    /// transition and without attestations.
    pub open spec fn production_post(
        &self,
        after: Self,
        producer: Address,
        timestamp: u64,
        rules: Seq<ProtocolRuleView>,
        r: Result<Block, ConsensusError>,
    ) -> bool {
        &&& self.settings_kept(after)
        &&& after.blocks == self.blocks
        &&& after.current_state == self.current_state
        &&& after.validator_set == self.validator_set
        &&& after.chain_receipt == self.chain_receipt
        &&& after.protocol_config == self.protocol_config
        &&& after.next_validator_set == self.next_validator_set
        &&& ({
                let done = assemble_spec(
                    self.current_state.account_views(),
                    self.pending_transactions@,
                    self.protocol_config.max_transactions_per_block as nat,
                    self.protocol_config.gas_unit_price,
                    self.block_gas_limit,
                    self.pending_transactions@.len(),
                );
                let prev_root = self.current_state.state_root@;
                let number = (self.blocks@.len() + 1) as u64;
                if last_timestamp_spec(self.headers()) matches Some(t) && timestamp <= t {
                    r matches Err(e) && e == ConsensusError::Validation(
                        ValidationError::TimestampNotIncreasing,
                    ) && after.pending_transactions@ == self.pending_transactions@
                } else {
                    match amendments_check(
                        rules,
                        self.image_ids.amendment@,
                        number,
                    ) {
                        Err(e) => r matches Err(f) && f == ConsensusError::Validation(e)
                            && after.pending_transactions@ == self.pending_transactions@,
                        Ok(()) => r matches Ok(block) && {
                            &&& after.pending_transactions@ == done.kept
                            &&& block@.transactions == done.selected
                            &&& block@.validator_signatures
                                == Seq::<crate::types::ValidatorSignatureView>::empty()
                            &&& block@.protocol_updates == rules
                            &&& block@.header == (BlockHeaderView {
                                previous_hash: last_hash_spec(self.headers()),
                                merkle_root: transactions_root_spec(done.selected),
                                state_root: commitment_of(done.accounts, prev_root),
                                timestamp,
                                block_number: number,
                                gas_limit: self.block_gas_limit,
                                gas_used: done.gas as u64,
                                producer: producer@,
                                extra_data: Seq::empty(),
                            })
                            &&& block@.recursive_proof == receipt_slot_spec(
                                prev_root,
                                block@.header.state_root,
                                number,
                                done.selected.len() as u64,
                                done.gas as u64,
                                block@.header.merkle_root,
                                self.image_ids.state_transition@,
                            )
                            &&& block@.recursive_proof.proof_data.len() == 32
                        },
                    }
                }
            })
    }

    /// What applying a block leaves behind: `self` is the engine before and
    /// `after` the engine after. An invalid block changes nothing. A valid
    /// one is appended, the state becomes the one after it, and the chain
    /// receipt takes in its receipt where it can.
    pub open spec fn application_post(&self, after: Self, block: Block, r: Result<
        (),
        ConsensusError,
    >) -> bool {
        &&& self.settings_kept(after)
        &&& after.pending_transactions == self.pending_transactions
        &&& after.protocol_config == self.protocol_config
        &&& match self.check_block_spec(block@) {
            Err(e) => {
                &&& r matches Err(f) && f == ConsensusError::Validation(e)
                &&& after.blocks == self.blocks
                &&& after.current_state == self.current_state
                &&& after.validator_set == self.validator_set
                &&& after.next_validator_set == self.next_validator_set
                &&& after.chain_receipt == self.chain_receipt
            },
                Ok(()) => r is Ok && {
                    &&& after.blocks@ == self.blocks@.push(block)
                    &&& batch_result(
                        self.current_state.account_views(),
                        block@.transactions,
                        signature_flags_spec(&self.signature_engine, block@.transactions),
                        self.protocol_config.gas_unit_price,
                        self.block_gas_limit,
                        block@.transactions.len(),
                    ) matches Ok((accounts, _))
                    &&& after.current_state.account_views() == accounts
                    &&& after.current_state.state_root@ == block@.header.state_root
                    &&& after.current_state.block_number == block@.header.block_number
                    &&& after.current_state.global_nonce == self.current_state.global_nonce
                    &&& if self.ends_epoch(block@.header.block_number)
                        && self.next_validator_set is Some {
                        after.validator_set == self.next_validator_set->0
                            && after.next_validator_set is None
                    } else {
                        after.validator_set.total_stake == self.validator_set.total_stake
                            && after.validator_set.validators@ == performance_recorded(
                            self.validator_set.validators@,
                            block@.header.producer,
                            true,
                        ) && after.next_validator_set == self.next_validator_set
                    }
                    &&& after.chain_receipt@ == chain_receipt_after(
                        self.chain_receipt@,
                        self.blocks@.len(),
                        block@,
                        self.current_state.state_root@,
                        self.image_ids.state_transition@,
                        self.image_ids.recursion@,
                        self.image_ids.amendment@,
                    )
                },
            }
    }

    /// Whether every transaction that waits is signed for its sender under
    /// the keys that the engine holds now.
    pub open spec fn queue_signed(&self) -> bool {
        forall|i: int|
            0 <= i < self.pending_transactions@.len() ==> transaction_signature_valid(
                &self.signature_engine,
                #[trigger] self.pending_transactions@[i],
            )
    }

    /// Whether the block with the given number is the last of its epoch.
    pub open spec fn ends_epoch(&self, block_number: u64) -> bool {
        block_number as int % self.protocol_config.epoch_length_blocks as int == 0
    }

    /// The producer that the election gives for a block number. The stake
    /// intervals are laid out in the order of the validators' addresses.
    pub open spec fn elected_producer(&self, block_number: u64) -> Result<Address, ConsensusError> {
        if self.validator_set.validators@.len() == 0 {
            Err(ConsensusError::Validator(ValidatorError::NoValidators))
        } else {
            let ranked = in_address_order(self.validator_set.validators@);
            Ok(
                ranked[elect_spec(
                    ranked,
                    last_hash_spec(self.headers()),
                    block_number,
                    self.protocol_config.min_producer_score,
                    self.protocol_config.max_election_attempts,
                    0,
                ).0].address,
            )
        }
    }

    /// A new engine on a genesis state, with the given validators, in the
    /// order in which they are given, and the given configuration. Its queue
    /// holds up to two blocks' worth of transactions, and no key is held yet.
    /// Fails where the configuration is out of range, the validators do not
    /// make a set, the genesis state is not at height zero, or an account
    /// of it has its storage out of order, looked for in this order.
    pub fn new(
        genesis_state: WorldState,
        initial_validators: Vec<Validator>,
        config: ProtocolConfig,
    ) -> (r: Result<ZkSacConsensusEngine, ConsensusError>)
        ensures
            match r {
                Ok(engine) => {
                    &&& engine.consistent()
                    &&& config.valid()
                    &&& crate::consensus::election::set_error(initial_validators@) is None
                    &&& genesis_state.block_number == 0
                    &&& engine.protocol_config == config
                    &&& engine.blocks@.len() == 0
                    &&& engine.current_state == genesis_state
                    &&& engine.genesis_state_root == genesis_state.state_root
                    &&& engine.validator_set.validators@ == initial_validators@
                    &&& engine.validator_set.total_stake == crate::types::stake_sum(
                        initial_validators@,
                    )
                    &&& engine.pending_transactions@ == Seq::<TransactionView>::empty()
                    &&& engine.pending_transactions.capacity_spec() == queue_capacity(
                        config.max_transactions_per_block,
                    )
                    &&& engine.pending_transactions.per_sender_limit_spec()
                        == MAX_PENDING_PER_SENDER
                    &&& engine.signature_engine.seeds() == Map::<Seq<u8>, [u8; 32]>::empty()
                    &&& engine.image_ids.state_transition@ == image_id_spec(mock_guest_elf_spec())
                    &&& engine.image_ids.recursion@ == image_id_spec(mock_recursive_elf_spec())
                    &&& engine.image_ids.amendment@ == image_id_spec(mock_amendment_elf_spec())
                    &&& engine.chain_receipt@.height == 0
                    &&& engine.chain_receipt@.cumulative_tx_count == 0
                    &&& engine.chain_receipt@.activated_rules == Seq::<u32>::empty()
                    &&& chain_receipt_accepted(
                        engine.chain_receipt@,
                        engine.image_ids.recursion@,
                    )
                    &&& engine.block_gas_limit == DEFAULT_BLOCK_GAS_LIMIT
                    &&& engine.next_validator_set is None
                },
                Err(ConsensusError::Config(e)) => config.validate_spec() == Err::<
                    (),
                    ConfigError,
                >(e),
                Err(ConsensusError::Validator(e)) => config.valid()
                    && crate::consensus::election::set_error(initial_validators@) == Some(e),
                Err(ConsensusError::GenesisNotAtHeightZero) => config.valid()
                    && crate::consensus::election::set_error(initial_validators@) is None
                    && genesis_state.block_number != 0,
                Err(ConsensusError::GenesisStorageOutOfOrder) => config.valid()
                    && crate::consensus::election::set_error(initial_validators@) is None
                    && genesis_state.block_number == 0 && !genesis_state.storage_in_order(),
                Err(_) => false,
            },
    {
        match config.validate() {
            Err(e) => {
                return Err(ConsensusError::Config(e));
            },
            Ok(()) => {},
        }
        let validator_set = match ValidatorSet::new(initial_validators) {
            Err(e) => {
                return Err(ConsensusError::Validator(e));
            },
            Ok(set) => set,
        };
        if genesis_state.block_number != 0 {
            return Err(ConsensusError::GenesisNotAtHeightZero);
        }
        if !genesis_state.has_storage_in_order() {
            return Err(ConsensusError::GenesisStorageOutOfOrder);
        }
        let capacity = if config.max_transactions_per_block <= usize::MAX / 2 {
            config.max_transactions_per_block * 2
        } else {
            usize::MAX
        };
        let image_ids = ImageIds::mock();
        let genesis_state_root = genesis_state.state_root;
        let chain_receipt = ChainReceipt::genesis(genesis_state_root.0, &image_ids);
        let engine = ZkSacConsensusEngine {
            current_state: genesis_state,
            validator_set,
            blocks: Vec::new(),
            pending_transactions: Mempool::new(capacity, MAX_PENDING_PER_SENDER),
            protocol_config: config,
            signature_engine: SignatureEngine::new(),
            post_quantum_signer: PostQuantumSigner {  },
            chain_receipt,
            image_ids,
            genesis_state_root,
            block_gas_limit: DEFAULT_BLOCK_GAS_LIMIT,
            next_validator_set: None,
        };
        assert(engine.headers() =~= Seq::<BlockHeaderView>::empty());
        Ok(engine)
    }

    /// The hash that the next header has to name: that of the last header,
    /// or the zero hash where there is no block yet.
    pub fn get_last_block_hash(&self) -> (hash: BlockHash)
        ensures
            hash@ == last_hash_spec(self.headers()),
    {
        let n = self.blocks.len();
        if n == 0 {
            BlockHash::zero()
        } else {
            assert(self.headers().last() == self.blocks@[n - 1].header@);
            header_hash(&self.blocks[n - 1].header)
        }
    }

    /// The time of the last block, if there is one.
    pub fn last_timestamp(&self) -> (t: Option<u64>)
        ensures
            t == last_timestamp_spec(self.headers()),
    {
        let n = self.blocks.len();
        if n == 0 {
            None
        } else {
            assert(self.headers().last() == self.blocks@[n - 1].header@);
            Some(self.blocks[n - 1].header.timestamp)
        }
    }

    /// The number of blocks in the chain.
    pub fn get_block_count(&self) -> (n: usize)
        ensures
            n == self.blocks@.len(),
    {
        self.blocks.len()
    }

    /// The balance held at `address`.
    pub fn get_account_balance(&self, address: &Address) -> (balance: u64)
        ensures
            balance == self.current_state.balance_at(address@),
    {
        self.current_state.balance_of(address)
    }

    /// Takes a transaction into the queue, or says why not. The chain and
    /// the state are left as they are.
    pub fn add_transaction(&mut self, tx: Transaction) -> (r: Result<(), ConsensusError>)
        requires
            old(self).consistent(),
        ensures
            final(self).consistent(),
            old(self).settings_kept(*final(self)),
            final(self).blocks == old(self).blocks,
            final(self).current_state == old(self).current_state,
            final(self).validator_set == old(self).validator_set,
            final(self).chain_receipt == old(self).chain_receipt,
            final(self).protocol_config == old(self).protocol_config,
            final(self).next_validator_set == old(self).next_validator_set,
            match submit_spec(
                old(self).pending_transactions@,
                tx@,
                transaction_signature_valid(&old(self).signature_engine, tx@),
                old(self).current_state.account_views(),
                old(self).protocol_config.gas_unit_price,
                old(self).pending_transactions.capacity_spec(),
                old(self).pending_transactions.per_sender_limit_spec(),
            ) {
                Ok(queue) => r is Ok && final(self).pending_transactions@ == queue,
                Err(e) => r == Err::<(), ConsensusError>(ConsensusError::Admission(e))
                    && final(self).pending_transactions@ == old(self).pending_transactions@,
            },
    {
        let valid = verify_transaction(&self.signature_engine, &self.post_quantum_signer, &tx);
        match self.pending_transactions.submit(
            tx,
            valid,
            &self.current_state,
            self.protocol_config.gas_unit_price,
        ) {
            Ok(()) => Ok(()),
            Err(e) => Err(ConsensusError::Admission(e)),
        }
    }

    /// Elects the producer of the block with the given number, drawn by
    /// stake from a seed over the last block's hash and the number. The
    /// producer is a validator of the set, and the election gives its
    /// position there.
    pub fn elect(&self, block_number: u64) -> (r: Result<Election, ConsensusError>)
        requires
            self.consistent(),
        ensures
            match r {
                Ok(election) => {
                    let ranked = in_address_order(self.validator_set.validators@);
                    let (rank, attempts, round_robin) = elect_spec(
                        ranked,
                        last_hash_spec(self.headers()),
                        block_number,
                        self.protocol_config.min_producer_score,
                        self.protocol_config.max_election_attempts,
                        0,
                    );
                    &&& self.validator_set.validators@.len() > 0
                    &&& 0 <= rank < ranked.len()
                    &&& election.index < self.validator_set.validators@.len()
                    &&& self.validator_set.validators@[election.index as int] == ranked[rank]
                    &&& election.producer == ranked[rank].address
                    &&& self.elected_producer(block_number) == Ok::<Address, ConsensusError>(
                        election.producer,
                    )
                    &&& self.validator_set.index_of(election.producer@) == Some(
                        election.index as int,
                    )
                    &&& election.attempts == attempts
                    &&& election.round_robin == round_robin
                },
                Err(e) => e == ConsensusError::Validator(ValidatorError::NoValidators)
                    && self.validator_set.validators@.len() == 0,
            },
    {
        let last_hash = self.get_last_block_hash();
        match self.validator_set.elect_producer(
            &last_hash,
            block_number,
            self.protocol_config.min_producer_score,
            self.protocol_config.max_election_attempts,
        ) {
            Ok(election) => {
                proof {
                    crate::consensus::election::lemma_first_index_is_chosen(
                        &self.validator_set,
                        election.producer@,
                        election.index as int,
                    );
                }
                Ok(election)
            },
            Err(e) => Err(ConsensusError::Validator(e)),
        }
    }
}

/// The producer that is elected for a block is a validator of the set.
pub proof fn lemma_elected_producer_is_a_validator(engine: ZkSacConsensusEngine, block_number: u64)
    requires
        engine.consistent(),
    ensures
        engine.elected_producer(block_number) matches Ok(producer)
            ==> engine.validator_set.index_of(producer@) is Some,
{
    let validators = engine.validator_set.validators@;
    if validators.len() > 0 {
        let ranked = in_address_order(validators);
        crate::consensus::election::lemma_in_address_order(validators);
        crate::consensus::election::lemma_elected_rank(
            ranked,
            last_hash_spec(engine.headers()),
            block_number,
            engine.protocol_config.min_producer_score,
            engine.protocol_config.max_election_attempts,
            0,
        );
        let rank = elect_spec(
            ranked,
            last_hash_spec(engine.headers()),
            block_number,
            engine.protocol_config.min_producer_score,
            engine.protocol_config.max_election_attempts,
            0,
        ).0;
        assert(ranked.contains(ranked[rank]));
        let at = validators.index_of(ranked[rank]);
        assert(validators[at].address@ == ranked[rank].address@);
    }
}

/// The state root at a height does not change when a block is appended.
pub proof fn lemma_root_at_kept(
    genesis_root: Seq<u8>,
    headers: Seq<BlockHeaderView>,
    next: BlockHeaderView,
    height: int,
)
    requires
        height <= headers.len(),
    ensures
        root_at(genesis_root, headers.push(next), height) == root_at(genesis_root, headers, height),
{
}

/// The base receipt that a block carries, with the public values of the
/// block's transition from `prev_root`.
pub open spec fn block_receipt_view(block: BlockView, prev_root: Seq<u8>) -> ReceiptView {
    ReceiptView {
        prev_state_root: prev_root,
        new_state_root: block.header.state_root,
        first_block: block.header.block_number,
        last_block: block.header.block_number,
        transaction_count: block.transactions.len() as u64,
        gas_used: block.header.gas_used,
        success: true,
        batch_commitment: block.header.merkle_root,
        program_image_id: block.recursive_proof.verification_key,
        proof_kind: ProofKind::Base,
        receipt: block.recursive_proof.proof_data,
        proof_size: block.recursive_proof.proof_data.len(),
        generation_time_ms: 0,
    }
}

/// The chain receipt after a block of height `chain.height + 1` is applied:
/// the block's receipt is folded in where the block carries one and the fold
/// succeeds; otherwise the chain receipt stays behind.
pub open spec fn chain_receipt_after(
    chain: ChainReceiptView,
    chain_length: nat,
    block: BlockView,
    prev_root: Seq<u8>,
    state_transition_id: Seq<u8>,
    recursion_id: Seq<u8>,
    amendment_id: Seq<u8>,
) -> ChainReceiptView {
    if block.recursive_proof.proof_data.len() == 0 || chain.height != chain_length
        || block.recursive_proof.verification_key.len() != 32 {
        chain
    } else {
        match fold_spec(
            chain,
            block_receipt_view(block, prev_root),
            true,
            block.protocol_updates,
            amendment_verdicts_spec(block.protocol_updates, amendment_id),
            state_transition_id,
            recursion_id,
            amendment_id,
        ) {
            Ok(next) => next,
            Err(_) => chain,
        }
    }
}

impl ZkSacConsensusEngine {
    /// Checks the receipt that a block carries.
    fn check_receipt(&self, block: &Block) -> (r: Result<(), ValidationError>)
        requires
            self.consistent(),
        ensures
            r == receipt_check(
                block@.recursive_proof,
                self.current_state.state_root@,
                block@.header,
                block@.transactions.len(),
                self.image_ids.state_transition@,
                (self.blocks@.len() - self.chain_receipt@.height) as nat,
            ),
    {
        let proof = &block.recursive_proof;
        if proof.proof_data.len() == 0 {
            let lag = self.blocks.len() as u64 - self.chain_receipt.height;
            if lag > MAX_RECEIPT_LAG {
                return Err(ValidationError::ReceiptLagExceeded);
            }
            return Ok(());
        }
        if !crate::crypto::hash::hex_utils::bytes_equal(
            proof.verification_key.as_slice(),
            self.image_ids.state_transition.as_slice(),
        ) {
            return Err(ValidationError::ProofRejected);
        }
        let body = receipt_body(
            &self.current_state.state_root.0,
            &block.header.state_root.0,
            block.header.block_number,
            block.header.block_number,
            block.transactions.len() as u64,
            block.header.gas_used,
            true,
            &block.header.merkle_root.0,
        );
        if !crate::crypto::hash::hex_utils::bytes_equal(
            proof.proof_data.as_slice(),
            body.as_slice(),
        ) {
            return Err(ValidationError::ProofRejected);
        }
        Ok(())
    }

    /// Checks the rules that a block activates at `height`.
    fn check_amendments(&self, rules: &[ProtocolRule], height: u64) -> (r: Result<
        (),
        ValidationError,
    >)
        ensures
            r == amendments_check(item_views(rules@), self.image_ids.amendment@, height),
    {
        let verdicts = amendment_verdicts(rules, &self.image_ids.amendment);
        assert(verdicts@ =~= amendment_verdicts_spec(
            item_views(rules@),
            self.image_ids.amendment@,
        ));
        match crate::zkvm::composer::check_rules(
            rules,
            verdicts.as_slice(),
            &self.image_ids.amendment,
            height,
        ) {
            Ok(()) => Ok(()),
            Err(ComposeError::AmendmentReceiptInvalid { rule_id }) => Err(
                ValidationError::AmendmentReceiptInvalid { rule_id },
            ),
            Err(ComposeError::ActivationHeightMismatch { rule_id }) => Err(
                ValidationError::AmendmentHeightMismatch { rule_id },
            ),
            Err(_) => Err(ValidationError::ProofRejected),
        }
    }

    /// Re-executes the transactions of a block against the state and holds
    /// the outcome against the header. Gives the state after the block.
    fn check_execution(&self, block: &Block, flags: &[bool]) -> (r: Result<
        WorldState,
        ValidationError,
    >)
        requires
            self.consistent(),
            flags@.len() == block.transactions@.len(),
        ensures
            match execution_check(
                self.current_state.account_views(),
                self.current_state.state_root@,
                block@.header,
                block@.transactions,
                flags@,
                self.protocol_config.gas_unit_price,
                self.block_gas_limit,
            ) {
                Ok(()) => r matches Ok(next) && {
                    &&& batch_result(
                        self.current_state.account_views(),
                        block@.transactions,
                        flags@,
                        self.protocol_config.gas_unit_price,
                        self.block_gas_limit,
                        block@.transactions.len(),
                    ) matches Ok((accounts, _))
                    &&& next.account_views() == accounts
                    &&& next.state_root@ == block@.header.state_root
                    &&& next.global_nonce == self.current_state.global_nonce
                    &&& next.block_number == self.current_state.block_number
                },
                Err(e) => r matches Err(f) && f == e,
            },
    {
        if block.header.gas_limit != self.block_gas_limit {
            return Err(ValidationError::GasLimitMismatch);
        }
        match execute_batch(
            &self.current_state,
            block.transactions.as_slice(),
            flags,
            self.protocol_config.gas_unit_price,
            self.block_gas_limit,
        ) {
            Err(failure) => Err(
                ValidationError::ExecutionFailed { index: failure.index, reason: failure.error },
            ),
            Ok((next, gas)) => {
                if next.state_root != block.header.state_root {
                    return Err(ValidationError::StateRootMismatch);
                }
                if gas != block.header.gas_used {
                    return Err(ValidationError::GasMismatch);
                }
                Ok(next)
            },
        }
    }

    /// Checks a block in the order of the checks, and gives the state after
    /// it where it passes them all.
    pub fn check_and_execute(&self, block: &Block) -> (r: Result<WorldState, ValidationError>)
        requires
            self.consistent(),
        ensures
            match self.check_block_spec(block@) {
                Ok(()) => r matches Ok(next) && {
                    &&& batch_result(
                        self.current_state.account_views(),
                        block@.transactions,
                        signature_flags_spec(&self.signature_engine, block@.transactions),
                        self.protocol_config.gas_unit_price,
                        self.block_gas_limit,
                        block@.transactions.len(),
                    ) matches Ok((accounts, _))
                    &&& next.account_views() == accounts
                    &&& next.state_root@ == block@.header.state_root
                    &&& next.global_nonce == self.current_state.global_nonce
                    &&& next.block_number == self.current_state.block_number
                },
                Err(e) => r matches Err(f) && f == e,
            },
    {
        let last_hash = self.get_last_block_hash();
        match check_header(&block.header, &last_hash, self.blocks.len(), self.last_timestamp()) {
            Err(e) => {
                return Err(e);
            },
            Ok(()) => {},
        }
        let flags = signature_flags(
            &self.signature_engine,
            &self.post_quantum_signer,
            block.transactions.as_slice(),
        );
        match check_transactions(
            block.transactions.as_slice(),
            flags.as_slice(),
            self.protocol_config.max_transactions_per_block,
        ) {
            Err(e) => {
                return Err(e);
            },
            Ok(()) => {},
        }
        if block.header.merkle_root != transactions_root(block.transactions.as_slice()) {
            return Err(ValidationError::MerkleRootMismatch);
        }
        let next = match self.check_execution(block, flags.as_slice()) {
            Err(e) => {
                return Err(e);
            },
            Ok(next) => next,
        };
        match self.check_receipt(block) {
            Err(e) => {
                return Err(e);
            },
            Ok(()) => {},
        }
        let message = header_hash(&block.header);
        match check_attestations(
            &self.validator_set,
            block.validator_signatures.as_slice(),
            message.0.as_slice(),
            &self.post_quantum_signer,
            self.protocol_config.finality_numerator,
            self.protocol_config.finality_denominator,
        ) {
            Err(e) => {
                return Err(e);
            },
            Ok(()) => {},
        }
        match self.check_amendments(block.protocol_updates.as_slice(), block.header.block_number) {
            Err(e) => {
                return Err(e);
            },
            Ok(()) => {},
        }
        Ok(next)
    }

    /// Checks a block in the order of the checks: gives the first that fails.
    pub fn check_block(&self, block: &Block) -> (r: Result<(), ValidationError>)
        requires
            self.consistent(),
        ensures
            r == self.check_block_spec(block@),
    {
        match self.check_and_execute(block) {
            Ok(_) => Ok(()),
            Err(e) => Err(e),
        }
    }
}

/// The receipt slot of a block with the base receipt of its transition.
pub open spec fn receipt_slot_spec(
    prev_root: Seq<u8>,
    new_root: Seq<u8>,
    block_number: u64,
    transaction_count: u64,
    gas_used: u64,
    batch_commitment: Seq<u8>,
    state_transition_id: Seq<u8>,
) -> ZkProofView {
    ZkProofView {
        proof_data: receipt_body_spec(
            prev_root,
            new_root,
            block_number,
            block_number,
            transaction_count,
            gas_used,
            true,
            batch_commitment,
        ),
        public_inputs: Seq::empty(),
        verification_key: state_transition_id,
        proof_type: ProofType::Risc0,
    }
}

/// The receipt slot of a block with the base receipt of its transition.
pub fn receipt_slot(
    prev_root: &BlockHash,
    new_root: &BlockHash,
    block_number: u64,
    transaction_count: u64,
    gas_used: u64,
    batch_commitment: &BlockHash,
    state_transition_id: &[u8; 32],
) -> (proof: ZkProof)
    ensures
        proof@ == receipt_slot_spec(
            prev_root@,
            new_root@,
            block_number,
            transaction_count,
            gas_used,
            batch_commitment@,
            state_transition_id@,
        ),
        proof.proof_data@.len() == 32,
{
    ZkProof {
        proof_data: receipt_body(
            &prev_root.0,
            &new_root.0,
            block_number,
            block_number,
            transaction_count,
            gas_used,
            true,
            &batch_commitment.0,
        ),
        public_inputs: Vec::new(),
        verification_key: vstd::slice::slice_to_vec(state_transition_id.as_slice()),
        proof_type: ProofType::Risc0,
    }
}

impl ZkSacConsensusEngine {
    /// Executes a batch against the current state, as a whole. Gives the
    /// state after it, with the root that commits to its accounts, and the
    /// base receipt of the transition for the next height.
    pub fn execute_transactions_with_zkvm(&self, transactions: &[Transaction]) -> (r: Result<
        (WorldState, ZkProof),
        ConsensusError,
    >)
        requires
            self.consistent(),
        ensures
            match batch_result(
                self.current_state.account_views(),
                item_views(transactions@),
                signature_flags_spec(&self.signature_engine, item_views(transactions@)),
                self.protocol_config.gas_unit_price,
                self.block_gas_limit,
                transactions@.len(),
            ) {
                Ok((accounts, gas)) => r matches Ok((next, proof)) && {
                    &&& next.account_views() == accounts
                    &&& next.state_root@ == commitment_of(accounts, self.current_state.state_root@)
                    &&& next.global_nonce == self.current_state.global_nonce
                    &&& next.block_number == self.current_state.block_number
                    &&& proof@ == receipt_slot_spec(
                        self.current_state.state_root@,
                        next.state_root@,
                        (self.blocks@.len() + 1) as u64,
                        transactions@.len() as u64,
                        gas as u64,
                        transactions_root_spec(item_views(transactions@)),
                        self.image_ids.state_transition@,
                    )
                },
                Err((index, reason)) => r matches Err(e) && e == ConsensusError::Validation(
                    ValidationError::ExecutionFailed { index: index as usize, reason },
                ),
            },
    {
        let flags = signature_flags(&self.signature_engine, &self.post_quantum_signer, transactions);
        match execute_batch(
            &self.current_state,
            transactions,
            flags.as_slice(),
            self.protocol_config.gas_unit_price,
            self.block_gas_limit,
        ) {
            Err(failure) => Err(
                ConsensusError::Validation(
                    ValidationError::ExecutionFailed {
                        index: failure.index,
                        reason: failure.error,
                    },
                ),
            ),
            Ok((next, gas)) => {
                let proof = receipt_slot(
                    &self.current_state.state_root,
                    &next.state_root,
                    self.blocks.len() as u64 + 1,
                    transactions.len() as u64,
                    gas,
                    &transactions_root(transactions),
                    &self.image_ids.state_transition,
                );
                Ok((next, proof))
            },
        }
    }

    /// The base receipt of the block of the next height that holds no
    /// transaction: from the state root as it stands to the root that commits
    /// to the same accounts after it.
    pub open spec fn empty_block_receipt(&self) -> ReceiptView {
        let prev_root = self.current_state.state_root@;
        let number = (self.blocks@.len() + 1) as u64;
        let new_root = commitment_of(self.current_state.account_views(), prev_root);
        let commitment = transactions_root_spec(Seq::empty());
        ReceiptView {
            prev_state_root: prev_root,
            new_state_root: new_root,
            first_block: number,
            last_block: number,
            transaction_count: 0,
            gas_used: 0,
            success: true,
            batch_commitment: commitment,
            program_image_id: self.image_ids.state_transition@,
            proof_kind: ProofKind::Base,
            receipt: receipt_body_spec(
                prev_root,
                new_root,
                number,
                number,
                0,
                0,
                true,
                commitment,
            ),
            proof_size: 32,
            generation_time_ms: 0,
        }
    }

    /// What composing the receipt of the next height over `rules` gives: the
    /// chain receipt with the base receipt of an empty block and the rules
    /// folded in.
    pub open spec fn composed_with_rules(&self, rules: Seq<ProtocolRuleView>) -> Result<
        ChainReceiptView,
        ComposeError,
    > {
        fold_spec(
            self.chain_receipt@,
            self.empty_block_receipt(),
            true,
            rules,
            amendment_verdicts_spec(rules, self.image_ids.amendment@),
            self.image_ids.state_transition@,
            self.image_ids.recursion@,
            self.image_ids.amendment@,
        )
    }

    /// The recursive proof of the next height for a block that activates
    /// `protocol_updates` and holds no transaction: the chain receipt of
    /// that height, composed from the chain receipt as it stands, the base
    /// receipt of the empty block and the validity receipt of each rule. Its
    /// body commits to its public values, and these end with the
    /// identifiers of the rules activated. Fails where a rule's validity
    /// receipt is not accepted under the amendment image id or a rule is for
    /// another height, and where the chain receipt has not kept up with the
    /// chain. The engine is left as it is.
    pub fn generate_recursive_proof(&self, protocol_updates: Vec<ProtocolRule>) -> (r: Result<
        ZkProof,
        ConsensusError,
    >)
        requires
            self.consistent(),
        ensures
            r is Ok <==> amendments_check(
                item_views(protocol_updates@),
                self.image_ids.amendment@,
                (self.blocks@.len() + 1) as u64,
            ) is Ok && self.chain_receipt@.height == self.blocks@.len(),
            match amendments_check(
                item_views(protocol_updates@),
                self.image_ids.amendment@,
                (self.blocks@.len() + 1) as u64,
            ) {
                Err(e) => r matches Err(f) && f == ConsensusError::Validation(e),
                Ok(()) => match self.composed_with_rules(item_views(protocol_updates@)) {
                    Err(e) => r matches Err(f) && f == ConsensusError::Compose(e),
                    Ok(next) => r matches Ok(proof) && {
                        &&& proof@ == chain_proof_spec(next)
                        &&& next.height == self.blocks@.len() + 1
                        &&& next.activated_rules == rule_ids(item_views(protocol_updates@))
                        &&& next.cumulative_tx_count == self.chain_receipt@.cumulative_tx_count
                        &&& next.genesis_state_root == self.genesis_state_root@
                        &&& chain_receipt_accepted(next, self.image_ids.recursion@)
                    },
                },
            },
    {
        let number = self.blocks.len() as u64 + 1;
        match self.check_amendments(protocol_updates.as_slice(), number) {
            Err(e) => {
                return Err(ConsensusError::Validation(e));
            },
            Ok(()) => {},
        }
        let prev_root = &self.current_state.state_root;
        let new_root = compute_state_commitment(&self.current_state, prev_root);
        let none: Vec<Transaction> = Vec::new();
        assert(item_views(none@) =~= Seq::<TransactionView>::empty());
        let commitment = transactions_root(none.as_slice());
        let body = receipt_body(
            &prev_root.0,
            &new_root.0,
            number,
            number,
            0,
            0,
            true,
            &commitment.0,
        );
        let base = ZKProofResult {
            proof_size: body.len(),
            receipt: body,
            public_outputs: StateTransitionOutput {
                new_state_root: new_root.0,
                transaction_count: 0,
                gas_used: 0,
                success: true,
            },
            generation_time_ms: 0,
            prev_state_root: prev_root.0,
            first_block: number,
            last_block: number,
            tx_batch_commitment: commitment.0,
            program_image_id: self.image_ids.state_transition,
            proof_kind: ProofKind::Base,
        };
        assert(base@ == self.empty_block_receipt());
        let verdicts = amendment_verdicts(
            protocol_updates.as_slice(),
            &self.image_ids.amendment,
        );
        assert(verdicts@ =~= amendment_verdicts_spec(
            item_views(protocol_updates@),
            self.image_ids.amendment@,
        ));
        match self.chain_receipt.fold(
            &base,
            true,
            protocol_updates.as_slice(),
            verdicts.as_slice(),
            &self.image_ids,
        ) {
            Err(e) => Err(ConsensusError::Compose(e)),
            Ok(next) => Ok(next.to_proof()),
        }
    }

    /// Assembles the block of the next height: takes from the queue what
    /// executes, in the order of senders and nonces, and writes the header
    /// over it. The state and the chain stay as they are; what was taken or
    /// dropped leaves the queue. The block comes without attestations.
    pub fn produce_block_with_rules(
        &mut self,
        producer: Address,
        timestamp: u64,
        protocol_updates: Vec<ProtocolRule>,
    ) -> (r: Result<Block, ConsensusError>)
        requires
            old(self).consistent(),
        ensures
            final(self).consistent(),
            old(self).production_post(
                *final(self),
                producer,
                timestamp,
                item_views(protocol_updates@),
                r,
            ),
            r matches Ok(block) ==> queue_sorted(block@.transactions),
    {
        match self.last_timestamp() {
            Some(t) => {
                if timestamp <= t {
                    return Err(
                        ConsensusError::Validation(ValidationError::TimestampNotIncreasing),
                    );
                }
            },
            None => {},
        }
        let number = self.blocks.len() as u64 + 1;
        match self.check_amendments(protocol_updates.as_slice(), number) {
            Err(e) => {
                return Err(ConsensusError::Validation(e));
            },
            Ok(()) => {},
        }
        let previous_hash = self.get_last_block_hash();
        let (transactions, scratch, gas_used) = self.pending_transactions.assemble(
            &self.current_state,
            self.protocol_config.max_transactions_per_block,
            self.protocol_config.gas_unit_price,
            self.block_gas_limit,
        );
        let state_root = compute_state_commitment(&scratch, &self.current_state.state_root);
        let merkle_root = transactions_root(transactions.as_slice());
        let recursive_proof = receipt_slot(
            &self.current_state.state_root,
            &state_root,
            number,
            transactions.len() as u64,
            gas_used,
            &merkle_root,
            &self.image_ids.state_transition,
        );
        let header = BlockHeader {
            previous_hash,
            merkle_root,
            state_root,
            timestamp,
            block_number: number,
            gas_limit: self.block_gas_limit,
            gas_used,
            producer,
            extra_data: Vec::new(),
        };
        let block = Block {
            header,
            transactions,
            validator_signatures: Vec::new(),
            recursive_proof,
            protocol_updates,
        };
        assert(block@.validator_signatures =~= Seq::<
            crate::types::ValidatorSignatureView,
        >::empty());
        Ok(block)
    }

    /// Folds the receipt of the block above the chain receipt into it.
    /// `base_accepted` is what the proving backend said of the receipt. The
    /// receipt must end with the state root of that block.
    pub fn advance_chain_receipt(&mut self, base: &ZKProofResult, base_accepted: bool) -> (r: Result<
        (),
        ConsensusError,
    >)
        requires
            old(self).consistent(),
        ensures
            final(self).consistent(),
            final(self).blocks == old(self).blocks,
            final(self).current_state == old(self).current_state,
            final(self).validator_set == old(self).validator_set,
            final(self).pending_transactions == old(self).pending_transactions,
            final(self).protocol_config == old(self).protocol_config,
            old(self).settings_kept(*final(self)),
            final(self).next_validator_set == old(self).next_validator_set,
            ({
                let height = old(self).chain_receipt@.height as int;
                if height >= old(self).blocks@.len() {
                    r matches Err(e) && e == ConsensusError::NothingToCompose
                        && final(self).chain_receipt == old(self).chain_receipt
                } else {
                    let block = old(self).blocks@[height]@;
                    match fold_spec(
                        old(self).chain_receipt@,
                        base@,
                        base_accepted,
                        block.protocol_updates,
                        amendment_verdicts_spec(
                            block.protocol_updates,
                            old(self).image_ids.amendment@,
                        ),
                        old(self).image_ids.state_transition@,
                        old(self).image_ids.recursion@,
                        old(self).image_ids.amendment@,
                    ) {
                        Err(e) => r matches Err(f) && f == ConsensusError::Compose(e)
                            && final(self).chain_receipt == old(self).chain_receipt,
                        Ok(next) => if base@.new_state_root != block.header.state_root {
                            r matches Err(f) && f == ConsensusError::Compose(
                                ComposeError::StateRootMismatch,
                            ) && final(self).chain_receipt == old(self).chain_receipt
                        } else {
                            r is Ok && final(self).chain_receipt@ == next
                        },
                    }
                }
            }),
    {
        let height = self.chain_receipt.height;
        if height >= self.blocks.len() as u64 {
            return Err(ConsensusError::NothingToCompose);
        }
        let block = &self.blocks[height as usize];
        assert(self.headers()[height as int] == block.header@);
        let verdicts = amendment_verdicts(
            block.protocol_updates.as_slice(),
            &self.image_ids.amendment,
        );
        assert(verdicts@ =~= amendment_verdicts_spec(
            block@.protocol_updates,
            self.image_ids.amendment@,
        ));
        let next = match self.chain_receipt.fold(
            base,
            base_accepted,
            block.protocol_updates.as_slice(),
            verdicts.as_slice(),
            &self.image_ids,
        ) {
            Err(e) => {
                return Err(ConsensusError::Compose(e));
            },
            Ok(next) => next,
        };
        if !crate::types::bytes32_eq(&base.public_outputs.new_state_root, &block.header.state_root.0) {
            return Err(ConsensusError::Compose(ComposeError::StateRootMismatch));
        }
        self.chain_receipt = next;
        Ok(())
    }

    /// Applies a block: checks it, and where it is valid makes the state the
    /// one after it, appends it to the chain, raises its producer's score,
    /// and folds its receipt into the chain receipt if it carries one and the
    /// chain receipt has kept up. An invalid block changes nothing.
    pub fn apply_checked_block(&mut self, block: Block) -> (r: Result<(), ConsensusError>)
        requires
            old(self).consistent(),
        ensures
            final(self).consistent(),
            old(self).application_post(*final(self), block, r),
    {
        let next = match self.check_and_execute(&block) {
            Err(e) => {
                return Err(ConsensusError::Validation(e));
            },
            Ok(next) => next,
        };
        let ghost old_headers = self.headers();
        let ghost prev_root = self.current_state.state_root@;
        let producer = block.header.producer;
        let number = block.header.block_number;
        let carries_receipt = block.recursive_proof.proof_data.len() != 0
            && block.recursive_proof.verification_key.len() == 32;
        let base = if carries_receipt && self.chain_receipt.height == self.blocks.len() as u64 {
            Some(
                ZKProofResult {
                    receipt: crate::types::clone_bytes(&block.recursive_proof.proof_data),
                    public_outputs: StateTransitionOutput {
                        new_state_root: block.header.state_root.0,
                        transaction_count: block.transactions.len() as u64,
                        gas_used: block.header.gas_used,
                        success: true,
                    },
                    proof_size: block.recursive_proof.proof_data.len(),
                    generation_time_ms: 0,
                    prev_state_root: self.current_state.state_root.0,
                    first_block: number,
                    last_block: number,
                    tx_batch_commitment: block.header.merkle_root.0,
                    program_image_id: to_image_id(&block.recursive_proof.verification_key),
                    proof_kind: ProofKind::Base,
                },
            )
        } else {
            None
        };
        proof {
            crate::account_storage::lemma_batch_keeps_storage(
                self.current_state.account_views(),
                block@.transactions,
                signature_flags_spec(&self.signature_engine, block@.transactions),
                self.protocol_config.gas_unit_price,
                self.block_gas_limit,
                block@.transactions.len(),
            );
            lemma_chain_extends(old_headers, block.header@);
            assert(headers_of(self.blocks@.push(block)) =~= old_headers.push(block.header@));
            lemma_root_at_kept(
                self.genesis_state_root@,
                old_headers,
                block.header@,
                self.chain_receipt@.height as int,
            );
            if base is Some {
                assert(base->0@ == block_receipt_view(block@, prev_root));
            }
        }
        self.current_state = WorldState {
            accounts: next.accounts,
            global_nonce: next.global_nonce,
            state_root: next.state_root,
            block_number: number,
        };
        self.validator_set.record_performance(&producer, true);
        if number % self.protocol_config.epoch_length_blocks == 0 {
            let mut scheduled: Option<ValidatorSet> = None;
            std::mem::swap(&mut scheduled, &mut self.next_validator_set);
            match scheduled {
                Some(set) => {
                    self.validator_set = set;
                },
                None => {},
            }
        }
        self.blocks.push(block);
        match base {
            Some(base) => {
                let _ = self.advance_chain_receipt(&base, true);
            },
            None => {},
        }
        Ok(())
    }
}

/// The 32 bytes of an image id.
fn to_image_id(bytes: &Vec<u8>) -> (id: [u8; 32])
    requires
        bytes@.len() == 32,
    ensures
        id@ == bytes@,
{
    let mut id = [0u8; 32];
    let mut i: usize = 0;
    while i < 32
        invariant
            i <= 32,
            bytes@.len() == 32,
            forall|j: int| 0 <= j < i ==> id@[j] == bytes@[j],
        decreases 32 - i,
    {
        id[i] = bytes[i];
        i += 1;
    }
    assert(id@ =~= bytes@);
    id
}

impl ConsensusEngine for ZkSacConsensusEngine {
    open spec fn well_formed(&self) -> bool {
        self.consistent()
    }

    open spec fn block_valid(&self, block: BlockView) -> bool {
        self.check_block_spec(block) is Ok
    }

    open spec fn produced(&self, after: Self, producer: Address, timestamp: u64, r: Result<
        Block,
        ConsensusError,
    >) -> bool {
        self.production_post(after, producer, timestamp, Seq::empty(), r)
    }

    open spec fn applied(&self, after: Self, block: Block, r: Result<(), ConsensusError>) -> bool {
        self.application_post(after, block, r)
    }

    open spec fn producer_for(&self, block_number: u64) -> Result<Address, ConsensusError> {
        self.elected_producer(block_number)
    }

    fn validate_block(&self, block: &Block) -> (r: Result<bool, ConsensusError>) {
        Ok(self.check_block(block).is_ok())
    }

    fn produce_block(&mut self, producer: Address, timestamp: u64) -> (r: Result<
        Block,
        ConsensusError,
    >) {
        let rules: Vec<ProtocolRule> = Vec::new();
        assert(item_views(rules@) =~= Seq::<ProtocolRuleView>::empty());
        self.produce_block_with_rules(producer, timestamp, rules)
    }

    fn apply_block(&mut self, block: Block) -> (r: Result<(), ConsensusError>) {
        self.apply_checked_block(block)
    }

    fn select_block_producer(&self, block_number: u64) -> (r: Result<Address, ConsensusError>) {
        match self.elect(block_number) {
            Ok(election) => Ok(election.producer),
            Err(e) => Err(e),
        }
    }
}

/// The attestations that the first `k` validators give over `message`, as
/// far as a signing key is held for them: each with the validator's address
/// and stake and the classical signature of its key, in the order of the
/// validators.
pub open spec fn collected_attestations(
    validators: Seq<Validator>,
    seeds: Map<Seq<u8>, [u8; 32]>,
    message: Seq<u8>,
    k: int,
) -> Seq<ValidatorSignatureView>
    decreases k,
{
    if k <= 0 {
        Seq::empty()
    } else {
        let before = collected_attestations(validators, seeds, message, k - 1);
        let validator = validators[k - 1];
        if seeds.contains_key(validator.address@) {
            before.push(
                ValidatorSignatureView {
                    validator_address: validator.address@,
                    stake_weight: validator.stake,
                    signature: ed25519_signature(seeds[validator.address@]@, message),
                    sig_type: SignatureType::Ed25519,
                },
            )
        } else {
            before
        }
    }
}

impl ZkSacConsensusEngine {
    /// Attests a block on behalf of every validator whose signing key the
    /// engine holds: the block's attestations are replaced by theirs over the
    /// hash of its header, in the order of the validators' addresses.
    pub fn collect_validator_signatures(&self, block: &mut Block)
        requires
            self.consistent(),
        ensures
            final(block).header == old(block).header,
            final(block).transactions == old(block).transactions,
            final(block).recursive_proof == old(block).recursive_proof,
            final(block).protocol_updates == old(block).protocol_updates,
            item_views(final(block).validator_signatures@) == collected_attestations(
                in_address_order(self.validator_set.validators@),
                self.signature_engine.seeds(),
                header_hash_spec(old(block).header@),
                self.validator_set.validators@.len() as int,
            ),
    {
        let message = header_hash(&block.header);
        let order = crate::consensus::election::address_ranking(&self.validator_set.validators);
        let ghost ranked = in_address_order(self.validator_set.validators@);
        let mut attestations: Vec<ValidatorSignature> = Vec::new();
        let mut i: usize = 0;
        assert(item_views(attestations@) =~= Seq::<ValidatorSignatureView>::empty());
        while i < order.len()
            invariant
                i <= order@.len(),
                order@.len() == self.validator_set.validators@.len(),
                forall|j: int|
                    0 <= j < order@.len() ==> #[trigger] order@[j]
                        < self.validator_set.validators@.len(),
                ranked == crate::consensus::election::ranked_by(
                    self.validator_set.validators@,
                    order@,
                ),
                item_views(attestations@) == collected_attestations(
                    ranked,
                    self.signature_engine.seeds(),
                    message@,
                    i as int,
                ),
            decreases order@.len() - i,
        {
            let validator = &self.validator_set.validators[order[i]];
            assert(ranked[i as int] == *validator);
            let ghost before = item_views(attestations@);
            match self.signature_engine.sign_ed25519(&validator.address, message.0.as_slice()) {
                Ok(signature) => {
                    attestations.push(
                        ValidatorSignature {
                            validator_address: validator.address,
                            stake_weight: validator.stake,
                            signature,
                            sig_type: SignatureType::Ed25519,
                        },
                    );
                    assert(item_views(attestations@) =~= before.push(
                        attestations@[attestations@.len() - 1]@,
                    ));
                },
                Err(_) => {},
            }
            i += 1;
        }
        block.validator_signatures = attestations;
    }

    /// Checks a block and, where it is valid, applies it to the state and
    /// appends it to the chain, as `apply_checked_block` does. An invalid
    /// block changes nothing.
    pub fn verify_and_add_block(&mut self, block: Block) -> (r: Result<(), ConsensusError>)
        requires
            old(self).consistent(),
        ensures
            final(self).consistent(),
            r is Ok <==> old(self).check_block_spec(block@) is Ok,
            old(self).application_post(*final(self), block, r),
    {
        self.apply_checked_block(block)
    }
}

/// Marks the receipt of a block as pending: its body is taken out. This is
/// what a producer does when the proof is not there in time.
pub fn mark_receipt_pending(block: &mut Block)
    ensures
        final(block).header == old(block).header,
        final(block).transactions == old(block).transactions,
        final(block).validator_signatures == old(block).validator_signatures,
        final(block).protocol_updates == old(block).protocol_updates,
        final(block).recursive_proof@ == (ZkProofView {
            proof_data: Seq::empty(),
            ..old(block).recursive_proof@
        }),
{
    block.recursive_proof.proof_data = Vec::new();
}

impl ZkSacConsensusEngine {
    /// Schedules the validator set of the next epoch: it takes the place of
    /// the set when the last block of the running epoch is applied, all at
    /// once. A set scheduled before is given up. Fails, and schedules
    /// nothing, where the validators do not make a set.
    pub fn schedule_validator_set(&mut self, validators: Vec<Validator>) -> (r: Result<
        (),
        ConsensusError,
    >)
        requires
            old(self).consistent(),
        ensures
            final(self).consistent(),
            old(self).settings_kept(*final(self)),
            final(self).blocks == old(self).blocks,
            final(self).current_state == old(self).current_state,
            final(self).validator_set == old(self).validator_set,
            final(self).chain_receipt == old(self).chain_receipt,
            final(self).pending_transactions == old(self).pending_transactions,
            final(self).protocol_config == old(self).protocol_config,
            match r {
                Ok(()) => {
                    &&& crate::consensus::election::set_error(validators@) is None
                    &&& final(self).next_validator_set matches Some(set)
                    &&& set.validators@ == validators@
                    &&& set.total_stake == crate::types::stake_sum(validators@)
                },
                Err(e) => {
                    &&& crate::consensus::election::set_error(validators@) matches Some(v)
                    &&& e == ConsensusError::Validator(v)
                    &&& final(self).next_validator_set == old(self).next_validator_set
                },
            },
    {
        match ValidatorSet::new(validators) {
            Ok(set) => {
                self.next_validator_set = Some(set);
                Ok(())
            },
            Err(e) => Err(ConsensusError::Validator(e)),
        }
    }

    /// Slashes a validator at the configured rate. The stake is burnt at
    /// once, so the set as slashed is the one that the next height is
    /// elected from; a set scheduled for the next epoch is slashed likewise.
    /// Gives the amount burnt from the running set.
    pub fn slash_validator(&mut self, address: &Address) -> (r: Result<u64, ConsensusError>)
        requires
            old(self).consistent(),
        ensures
            final(self).consistent(),
            old(self).settings_kept(*final(self)),
            final(self).blocks == old(self).blocks,
            final(self).current_state == old(self).current_state,
            final(self).chain_receipt == old(self).chain_receipt,
            final(self).pending_transactions == old(self).pending_transactions,
            final(self).protocol_config == old(self).protocol_config,
            match r {
                Ok(burnt) => {
                    &&& old(self).validator_set.index_of(address@) matches Some(i)
                    &&& burnt == crate::consensus::election::slashed_amount(
                        old(self).validator_set.validators@[i].stake,
                        old(self).protocol_config.slashing_rate,
                    )
                    &&& final(self).validator_set.total_stake == old(self).validator_set.total_stake
                        - burnt
                    &&& final(self).validator_set.validators@ == slashed(
                        old(self).validator_set.validators@,
                        address@,
                        old(self).protocol_config.slashing_rate,
                    )
                    &&& match old(self).next_validator_set {
                        Some(set) => final(self).next_validator_set matches Some(after)
                            && after.validators@ == slashed(
                            set.validators@,
                            address@,
                            old(self).protocol_config.slashing_rate,
                        ),
                        None => final(self).next_validator_set is None,
                    }
                },
                Err(e) => e == ConsensusError::Validator(ValidatorError::UnknownValidator) && old(self).validator_set.index_of(address@) is None && final(self).validator_set == old(self).validator_set && final(self).next_validator_set == old(self).next_validator_set,
            },
    {
        let rate = self.protocol_config.slashing_rate;
        let burnt = match self.validator_set.slash(address, rate) {
            Ok(burnt) => burnt,
            Err(e) => {
                return Err(ConsensusError::Validator(e));
            },
        };
        let mut scheduled: Option<ValidatorSet> = None;
        std::mem::swap(&mut scheduled, &mut self.next_validator_set);
        match scheduled {
            Some(mut set) => {
                let _ = set.slash(address, rate);
                self.next_validator_set = Some(set);
            },
            None => {},
        }
        Ok(burnt)
    }

    /// Lowers the score of a producer that did not deliver its block in
    /// time. Gives whether there is such a validator.
    pub fn penalize_producer(&mut self, producer: &Address) -> (known: bool)
        requires
            old(self).consistent(),
        ensures
            final(self).consistent(),
            old(self).settings_kept(*final(self)),
            final(self).blocks == old(self).blocks,
            final(self).current_state == old(self).current_state,
            final(self).chain_receipt == old(self).chain_receipt,
            final(self).pending_transactions == old(self).pending_transactions,
            final(self).next_validator_set == old(self).next_validator_set,
            final(self).protocol_config == old(self).protocol_config,
            known == old(self).validator_set.index_of(producer@) is Some,
            final(self).validator_set.total_stake == old(self).validator_set.total_stake,
            final(self).validator_set.validators@ == performance_recorded(
                old(self).validator_set.validators@,
                producer@,
                false,
            ),
    {
        self.validator_set.record_performance(producer, false)
    }
}

impl ZkSacConsensusEngine {
    /// Credits the producer of a finalized block with its reward: the
    /// configured fraction of its stake. Gives the amount. Fails, and credits
    /// nothing, where there is no such validator or the total stake would
    /// not fit in 64 bits.
    pub fn reward_producer(&mut self, producer: &Address) -> (r: Result<u64, ConsensusError>)
        requires
            old(self).consistent(),
        ensures
            final(self).consistent(),
            old(self).settings_kept(*final(self)),
            final(self).blocks == old(self).blocks,
            final(self).current_state == old(self).current_state,
            final(self).chain_receipt == old(self).chain_receipt,
            final(self).pending_transactions == old(self).pending_transactions,
            final(self).next_validator_set == old(self).next_validator_set,
            final(self).protocol_config == old(self).protocol_config,
            match old(self).validator_set.index_of(producer@) {
                None => r matches Err(e) && e == ConsensusError::Validator(
                    ValidatorError::UnknownValidator,
                ) && final(self).validator_set == old(self).validator_set,
                Some(i) => {
                    let amount = slashed_amount(
                        old(self).validator_set.validators@[i].stake,
                        old(self).protocol_config.reward_rate,
                    );
                    if old(self).validator_set.total_stake + amount > u64::MAX {
                        r matches Err(e) && e == ConsensusError::Validator(
                            ValidatorError::StakeOverflow,
                        ) && final(self).validator_set == old(self).validator_set
                    } else {
                        r matches Ok(credit) && credit == amount && final(self).validator_set.total_stake == old(self).validator_set.total_stake + amount
                            && final(self).validator_set.validators@ == credited(
                            old(self).validator_set.validators@,
                            producer@,
                            credit,
                        )
                    }
                },
            },
    {
        let i = match self.validator_set.find(producer) {
            Some(i) => i,
            None => {
                proof {
                    assert(self.validator_set.index_of(producer@) is None);
                }
                return Err(ConsensusError::Validator(ValidatorError::UnknownValidator));
            },
        };
        proof {
            crate::consensus::election::lemma_first_index_is_chosen(
                &self.validator_set,
                producer@,
                i as int,
            );
        }
        let stake = self.validator_set.validators[i].stake;
        let rate = self.protocol_config.reward_rate;
        assert(stake * rate <= u64::MAX * 10000) by (nonlinear_arith)
            requires
                stake <= u64::MAX,
                rate <= 10000,
        ;
        let amount = ((stake as u128) * (rate as u128) / 10000) as u64;
        match self.validator_set.reward(producer, amount) {
            Ok(()) => Ok(amount),
            Err(e) => Err(ConsensusError::Validator(e)),
        }
    }

    /// Where recovery starts from: the height of the chain receipt and the
    /// state root that it commits to, which is that of the block of that
    /// height. The blocks above it are the ones to apply again.
    pub fn recovery_point(&self) -> (r: (u64, [u8; 32]))
        requires
            self.consistent(),
        ensures
            r.0 == self.chain_receipt@.height,
            r.0 <= self.blocks@.len(),
            r.1@ == root_at(self.genesis_state_root@, self.headers(), r.0 as int),
    {
        (self.chain_receipt.height, self.chain_receipt.state_root)
    }
}

/// Whether the headers of the blocks make a chain.
pub fn is_chain(blocks: &Vec<Block>) -> (ok: bool)
    ensures
        ok == chain_valid(headers_of(blocks@)),
{
    let ghost headers = headers_of(blocks@);
    let n = blocks.len();
    let mut i: usize = 0;
    while i < n
        invariant
            i <= n,
            n == blocks@.len(),
            headers == headers_of(blocks@),
            forall|k: int| 0 <= k < i ==> (#[trigger] headers[k]).block_number == k + 1,
            forall|k: int, j: int|
                0 <= k && j == k + 1 && j < i ==> (#[trigger] headers[k]).timestamp < (
                #[trigger] headers[j]).timestamp && headers[j].previous_hash == header_hash_spec(
                    headers[k],
                ),
            i > 0 ==> headers[0].previous_hash == zero_hash(),
        decreases n - i,
    {
        let header = &blocks[i].header;
        assert(headers[i as int] == header@);
        if header.block_number != i as u64 + 1 {
            return false;
        }
        if i == 0 {
            if header.previous_hash != BlockHash::zero() {
                return false;
            }
        } else {
            let before = &blocks[i - 1].header;
            assert(headers[i - 1] == before@);
            if before.timestamp >= header.timestamp || header.previous_hash != header_hash(before) {
                return false;
            }
        }
        i += 1;
    }
    true
}

impl ZkSacConsensusEngine {
    /// The state root at a height of the chain: that of genesis at height
    /// zero, else that of the block of that height.
    fn state_root_at(&self, height: usize) -> (root: BlockHash)
        requires
            height <= self.blocks@.len(),
        ensures
            root@ == root_at(self.genesis_state_root@, self.headers(), height as int),
    {
        if height == 0 {
            self.genesis_state_root
        } else {
            assert(self.headers()[height - 1] == self.blocks@[height - 1].header@);
            self.blocks[height - 1].header.state_root
        }
    }

    /// Whether the engine has its invariant. Every operation keeps it; it
    /// is for whoever has written to the engine's fields to find out
    /// whether the operations may be called.
    pub fn is_consistent(&self) -> (ok: bool)
        ensures
            ok == self.consistent(),
    {
        if !self.validator_set.is_well_formed() {
            return false;
        }
        match &self.next_validator_set {
            Some(set) => {
                if !set.is_well_formed() {
                    return false;
                }
            },
            None => {},
        }
        match self.protocol_config.validate() {
            Ok(()) => {},
            Err(_) => {
                return false;
            },
        }
        if !is_chain(&self.blocks) {
            return false;
        }
        let n = self.blocks.len();
        if n as u64 == u64::MAX || self.current_state.block_number != n as u64 {
            return false;
        }
        if !self.current_state.has_storage_in_order() {
            return false;
        }
        if self.current_state.state_root != self.state_root_at(n) {
            return false;
        }
        if n > 0 {
            let before = self.state_root_at(n - 1);
            if self.current_state.state_root != compute_state_commitment(
                &self.current_state,
                &before,
            ) {
                return false;
            }
        }
        let height = self.chain_receipt.height;
        if height > n as u64 {
            return false;
        }
        if !crate::types::bytes32_eq(
            &self.chain_receipt.genesis_state_root,
            &self.genesis_state_root.0,
        ) {
            return false;
        }
        let composed = self.state_root_at(height as usize);
        crate::types::bytes32_eq(&self.chain_receipt.state_root, &composed.0)
    }
}

/// Whether a block that the engine produces is valid is a matter of its
/// attestations alone: with whatever attestations it is given, it passes
/// every other check, as long as what waits in the queue is signed under the
/// keys that the engine holds.
pub proof fn lemma_produced_block_is_valid(
    before: ZkSacConsensusEngine,
    after: ZkSacConsensusEngine,
    producer: Address,
    timestamp: u64,
    rules: Seq<ProtocolRuleView>,
    block: Block,
    attestations: Seq<ValidatorSignatureView>,
)
    requires
        before.consistent(),
        before.queue_signed(),
        before.blocks@.len() + 1 < u64::MAX,
        before.production_post(
            after,
            producer,
            timestamp,
            rules,
            Ok::<Block, ConsensusError>(block),
        ),
    ensures
        before.check_block_spec(BlockView { validator_signatures: attestations, ..block@ })
            == attestations_check(
            before.validator_set.validators@,
            before.validator_set.total_stake,
            attestations,
            header_hash_spec(block@.header),
            before.protocol_config.finality_numerator,
            before.protocol_config.finality_denominator,
        ),
{
    let queue = before.pending_transactions@;
    let accounts = before.current_state.account_views();
    let max = before.protocol_config.max_transactions_per_block as nat;
    let price = before.protocol_config.gas_unit_price;
    let limit = before.block_gas_limit;
    let done = assemble_spec(accounts, queue, max, price, limit, queue.len());
    crate::consensus::mempool::lemma_assembly_executes(
        accounts,
        queue,
        max,
        price,
        limit,
        queue.len(),
    );
    let txs = block@.transactions;
    assert(txs == done.selected);
    let flags = signature_flags_spec(&before.signature_engine, txs);
    assert(flags =~= Seq::new(txs.len(), |i: int| true)) by {
        assert forall|i: int| 0 <= i < txs.len() implies flags[i] by {
            let j = choose|j: int| 0 <= j < queue.len() && queue[j] == done.selected[i];
            assert(transaction_signature_valid(&before.signature_engine, queue[j]));
        }
    }
    lemma_transactions_pass(txs, flags, 0);
    assert(done.gas as u64 == done.gas);
    assert(txs.len() as u64 == txs.len()) by {
        assert(txs.len() <= max);
    }
}

/// A block that the engine produces holds, of each sender, transactions
/// with that sender's nonces in ascending order and without a gap, from the
/// nonce that the sender has in the state on. Where the queue lacks the
/// nonce `missing` of `sender`, and the sender's nonce has not passed it, the
/// block holds none of the sender's transactions with that nonce or a higher
/// one, and those with a higher one are still in the queue afterwards.
pub proof fn lemma_production_follows_nonces(
    before: ZkSacConsensusEngine,
    after: ZkSacConsensusEngine,
    producer: Address,
    timestamp: u64,
    rules: Seq<ProtocolRuleView>,
    block: Block,
    sender: Seq<u8>,
    missing: u64,
)
    requires
        before.production_post(
            after,
            producer,
            timestamp,
            rules,
            Ok::<Block, ConsensusError>(block),
        ),
    ensures
        forall|s: int|
            0 <= s < block@.transactions.len() ==> (#[trigger] block@.transactions[s]).nonce
                == nonce_in(before.current_state.account_views(), block@.transactions[s].from)
                + sender_count(block@.transactions, block@.transactions[s].from, s),
        nonce_in(before.current_state.account_views(), sender) <= missing && (forall|j: int|
            0 <= j < before.pending_transactions@.len() ==> !((
            #[trigger] before.pending_transactions@[j]).from == sender
                && before.pending_transactions@[j].nonce == missing)) ==> {
            &&& forall|s: int|
                0 <= s < block@.transactions.len() && (#[trigger] block@.transactions[s]).from
                    == sender ==> block@.transactions[s].nonce < missing
            &&& forall|j: int|
                0 <= j < before.pending_transactions@.len() && (
                #[trigger] before.pending_transactions@[j]).from == sender
                    && before.pending_transactions@[j].nonce > missing
                    ==> after.pending_transactions@.contains(before.pending_transactions@[j])
        },
{
    let queue = before.pending_transactions@;
    let accounts = before.current_state.account_views();
    let max = before.protocol_config.max_transactions_per_block as nat;
    let price = before.protocol_config.gas_unit_price;
    let limit = before.block_gas_limit;
    let done = assemble_spec(accounts, queue, max, price, limit, queue.len());
    assert(block@.transactions == done.selected);
    assert(after.pending_transactions@ == done.kept);
    crate::consensus::mempool::lemma_taken_nonces_are_consecutive(
        accounts,
        queue,
        max,
        price,
        limit,
        queue.len(),
    );
    if nonce_in(accounts, sender) <= missing && (forall|j: int|
        0 <= j < queue.len() ==> !((#[trigger] queue[j]).from == sender && queue[j].nonce
            == missing)) {
        crate::consensus::mempool::lemma_nonce_gap_waits(
            accounts,
            queue,
            max,
            price,
            limit,
            sender,
            missing,
            queue.len(),
        );
    }
}

/// The recursive proof for rules is the chain receipt as it is after the
/// block that activates them. Where nothing waits in the queue, the block
/// that the engine produces with `rules` leaves, once it is applied, the
/// chain receipt that `composed_with_rules` gives for them.
pub proof fn lemma_recursive_proof_is_of_the_amending_block(
    before: ZkSacConsensusEngine,
    after: ZkSacConsensusEngine,
    producer: Address,
    timestamp: u64,
    rules: Seq<ProtocolRuleView>,
    block: Block,
)
    requires
        before.consistent(),
        before.pending_transactions@.len() == 0,
        before.production_post(
            after,
            producer,
            timestamp,
            rules,
            Ok::<Block, ConsensusError>(block),
        ),
        before.composed_with_rules(rules) matches Ok(_),
    ensures
        before.composed_with_rules(rules) == Ok::<ChainReceiptView, ComposeError>(
            chain_receipt_after(
                before.chain_receipt@,
                before.blocks@.len(),
                block@,
                before.current_state.state_root@,
                before.image_ids.state_transition@,
                before.image_ids.recursion@,
                before.image_ids.amendment@,
            ),
        ),
{
    let queue = before.pending_transactions@;
    let done = assemble_spec(
        before.current_state.account_views(),
        queue,
        before.protocol_config.max_transactions_per_block as nat,
        before.protocol_config.gas_unit_price,
        before.block_gas_limit,
        queue.len(),
    );
    assert(done.selected =~= Seq::<TransactionView>::empty());
    assert(block@.transactions =~= Seq::<TransactionView>::empty());
    assert(block_receipt_view(block@, before.current_state.state_root@)
        == before.empty_block_receipt());
}

/// Transactions that each have gas enough for themselves and a valid
/// signature pass the check of the transactions.
pub proof fn lemma_transactions_pass(txs: Seq<TransactionView>, flags: Seq<bool>, k: int)
    requires
        0 <= k,
        flags.len() == txs.len(),
        forall|i: int|
            0 <= i < txs.len() ==> crate::consensus::execution::intrinsic_gas(#[trigger] txs[i])
                <= txs[i].gas_limit && flags[i],
    ensures
        crate::consensus::validation::transactions_check_from(txs, flags, k) is Ok,
    decreases txs.len() - k,
{
    if k < txs.len() {
        lemma_transactions_pass(txs, flags, k + 1);
    }
}

} // verus!
