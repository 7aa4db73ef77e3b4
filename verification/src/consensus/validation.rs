//! The checks that a block has to pass, each as a function of plain values.
//!
//! A block is checked in this order: the linkage and monotonicity of its
//! header; the well-formedness and the number of its transactions; the Merkle
//! root over them; the state root that re-execution gives, and its receipt;
//! the attestations and the stake behind them; the rules it activates. The
//! first check that fails decides.

use crate::address_map::be_value;
use crate::consensus::election::reaches_threshold;
use crate::consensus::execution::{gas_for_payload, intrinsic_gas, TransactionError};
use crate::crypto::hash::{
    blake3_digest, blake3_hash, byte_strings, merkle_root, merkle_root_spec, DOMAIN_HEADER,
    DOMAIN_TRANSACTION,
};
use crate::crypto::signatures::{
    verify_lms_spec, verify_signature, verify_with_public_key_spec, PostQuantumSigner,
    SignatureEngine,
};
use crate::serialization::{encode, item_views, Canonical};
use crate::types::{
    BlockHash, BlockHeader, BlockHeaderView, SignatureType, Transaction, TransactionView,
    Validator, ValidatorSet, ValidatorSignature, ValidatorSignatureView,
};
use vstd::prelude::*;

verus! {

/// Why a block is invalid.
#[derive(Debug, Clone, Copy, PartialEq, Eq, Structural)]
pub enum ValidationError {
    /// The header does not name the hash of the previous header.
    BrokenLinkage,
    /// The header's number is not the number after the previous block's.
    WrongBlockNumber,
    /// The header's time is not after the previous block's.
    TimestampNotIncreasing,
    /// The block holds more transactions than a block may.
    TooManyTransactions,
    /// The gas limit of a transaction is below what it consumes.
    MalformedTransaction { index: usize },
    /// The signature of a transaction does not verify for its sender.
    InvalidTransactionSignature { index: usize },
    /// The header's Merkle root is not that of the transactions.
    MerkleRootMismatch,
    /// A transaction does not execute against the previous state, for the
    /// reason given.
    ExecutionFailed { index: usize, reason: TransactionError },
    /// Re-execution gives another state root than the header's.
    StateRootMismatch,
    /// Re-execution uses another amount of gas than the header says.
    GasMismatch,
    /// The header's gas limit is not the block gas limit.
    GasLimitMismatch,
    /// The receipt does not verify under the state-transition image id.
    ProofRejected,
    /// The receipt is pending, and the chain receipt lags too far behind.
    ReceiptLagExceeded,
    /// The attestations are not in the order of the validators' addresses.
    AttestationsOutOfOrder { index: usize },
    /// An attestation is by no validator, or carries another stake than the
    /// validator's.
    UnknownAttester { index: usize },
    /// The signature of an attestation does not verify.
    InvalidAttestation { index: usize },
    /// The stake behind the attestations is below the finality threshold.
    StakeBelowThreshold,
    /// The validity receipt of a rule was not accepted.
    AmendmentReceiptInvalid { rule_id: u32 },
    /// A rule is not to be activated at the block's height.
    AmendmentHeightMismatch { rule_id: u32 },
}

/// The hash of a header: the BLAKE3 digest of the header tag and the
/// header's canonical encoding.
pub open spec fn header_hash_spec(header: BlockHeaderView) -> Seq<u8> {
    blake3_digest(seq![DOMAIN_HEADER] + BlockHeader::encoding(header))
}

/// The hash of a header.
pub fn header_hash(header: &BlockHeader) -> (hash: BlockHash)
    ensures
        hash@ == header_hash_spec(header@),
{
    let mut bytes: Vec<u8> = Vec::new();
    bytes.push(DOMAIN_HEADER);
    header.write(&mut bytes);
    assert(bytes@ =~= seq![DOMAIN_HEADER] + BlockHeader::encoding(header@));
    BlockHash(blake3_hash(bytes.as_slice()))
}

/// A transaction without its signature.
pub open spec fn unsigned(tx: TransactionView) -> TransactionView {
    TransactionView { signature: Seq::empty(), ..tx }
}

/// The bytes that a transaction's signature is over: the transaction tag
/// and the canonical encoding of the transaction without its signature.
pub open spec fn signing_bytes_spec(tx: TransactionView) -> Seq<u8> {
    seq![DOMAIN_TRANSACTION] + Transaction::encoding(unsigned(tx))
}

/// The bytes that the signature of `tx` is over.
pub fn signing_bytes(tx: &Transaction) -> (bytes: Vec<u8>)
    ensures
        bytes@ == signing_bytes_spec(tx@),
{
    let bare = Transaction {
        from: tx.from,
        to: tx.to,
        value: tx.value,
        data: crate::types::clone_bytes(&tx.data),
        gas_limit: tx.gas_limit,
        nonce: tx.nonce,
        signature: Vec::new(),
        sig_type: tx.sig_type,
    };
    assert(bare@ == unsigned(tx@));
    let mut bytes: Vec<u8> = Vec::new();
    bytes.push(DOMAIN_TRANSACTION);
    bare.write(&mut bytes);
    assert(bytes@ =~= seq![DOMAIN_TRANSACTION] + Transaction::encoding(unsigned(tx@)));
    bytes
}

/// Whether the signature of a transaction verifies for its sender, by the
/// scheme that the transaction names: the classical scheme under the key
/// held for the sender, or the post-quantum scheme, whose signature names
/// its signer. No other scheme is supported.
pub open spec fn transaction_signature_valid(keys: &SignatureEngine, tx: TransactionView) -> bool {
    match tx.sig_type {
        SignatureType::Ed25519 => keys.verify_ed25519_spec(
            tx.signature,
            tx.from,
            signing_bytes_spec(tx),
        ) is Ok,
        SignatureType::PostQuantum => verify_lms_spec(tx.signature, tx.from, signing_bytes_spec(tx))
            is Ok,
        SignatureType::Secp256k1 => false,
    }
}

/// Whether the signature of `tx` verifies for its sender.
pub fn verify_transaction(
    keys: &SignatureEngine,
    post_quantum: &PostQuantumSigner,
    tx: &Transaction,
) -> (valid: bool)
    ensures
        valid == transaction_signature_valid(keys, tx@),
{
    let message = signing_bytes(tx);
    match tx.sig_type {
        SignatureType::Ed25519 => keys.verify_ed25519(
            tx.signature.as_slice(),
            &tx.from,
            message.as_slice(),
        ).is_ok(),
        SignatureType::PostQuantum => post_quantum.verify_lms(
            tx.signature.as_slice(),
            &tx.from,
            message.as_slice(),
        ).is_ok(),
        SignatureType::Secp256k1 => false,
    }
}

/// Whether each signature of a batch verifies.
pub open spec fn signature_flags_spec(keys: &SignatureEngine, txs: Seq<TransactionView>) -> Seq<bool> {
    Seq::new(txs.len(), |i: int| transaction_signature_valid(keys, txs[i]))
}

/// Whether each signature of a batch verifies.
pub fn signature_flags(
    keys: &SignatureEngine,
    post_quantum: &PostQuantumSigner,
    transactions: &[Transaction],
) -> (flags: Vec<bool>)
    ensures
        flags@ == signature_flags_spec(keys, item_views(transactions@)),
{
    let mut flags: Vec<bool> = Vec::new();
    let mut i: usize = 0;
    while i < transactions.len()
        invariant
            i <= transactions@.len(),
            flags@.len() == i,
            forall|j: int|
                0 <= j < i ==> flags@[j] == transaction_signature_valid(keys, transactions@[j]@),
        decreases transactions@.len() - i,
    {
        flags.push(verify_transaction(keys, post_quantum, &transactions[i]));
        i += 1;
    }
    assert(flags@ =~= signature_flags_spec(keys, item_views(transactions@)));
    flags
}

/// The canonical encodings of the transactions, in order.
pub open spec fn transaction_leaves(txs: Seq<TransactionView>) -> Seq<Seq<u8>> {
    txs.map_values(|t: TransactionView| Transaction::encoding(t))
}

/// The Merkle root over the transactions in order: each leaf is the
/// canonical encoding of a transaction.
pub open spec fn transactions_root_spec(txs: Seq<TransactionView>) -> Seq<u8> {
    merkle_root_spec(transaction_leaves(txs))
}

/// The Merkle root over the transactions in order.
pub fn transactions_root(transactions: &[Transaction]) -> (root: BlockHash)
    ensures
        root@ == transactions_root_spec(item_views(transactions@)),
{
    let mut leaves: Vec<Vec<u8>> = Vec::new();
    let mut i: usize = 0;
    while i < transactions.len()
        invariant
            i <= transactions@.len(),
            leaves@.len() == i,
            forall|j: int|
                0 <= j < i ==> (#[trigger] leaves@[j])@ == Transaction::encoding(
                    transactions@[j]@,
                ),
        decreases transactions@.len() - i,
    {
        leaves.push(encode(&transactions[i]));
        i += 1;
    }
    assert(byte_strings(leaves@) =~= transaction_leaves(item_views(transactions@)));
    BlockHash(merkle_root(leaves.as_slice()))
}

/// The check of a header against the chain before it: it names the hash of
/// the previous header (all zero before the first block), its number is the
/// next and leaves room for one after it, and its time is after the previous
/// block's.
pub open spec fn header_check(
    header: BlockHeaderView,
    previous_hash: Seq<u8>,
    chain_length: nat,
    previous_timestamp: Option<u64>,
) -> Result<(), ValidationError> {
    if header.previous_hash != previous_hash {
        Err(ValidationError::BrokenLinkage)
    } else if header.block_number != chain_length + 1 || header.block_number == u64::MAX {
        Err(ValidationError::WrongBlockNumber)
    } else if previous_timestamp matches Some(t) && header.timestamp <= t {
        Err(ValidationError::TimestampNotIncreasing)
    } else {
        Ok(())
    }
}

/// Checks a header against the chain before it.
pub fn check_header(
    header: &BlockHeader,
    previous_hash: &BlockHash,
    chain_length: usize,
    previous_timestamp: Option<u64>,
) -> (r: Result<(), ValidationError>)
    ensures
        r == header_check(header@, previous_hash@, chain_length as nat, previous_timestamp),
{
    if header.previous_hash != *previous_hash {
        return Err(ValidationError::BrokenLinkage);
    }
    if chain_length as u64 == u64::MAX || header.block_number != chain_length as u64 + 1
        || header.block_number == u64::MAX {
        return Err(ValidationError::WrongBlockNumber);
    }
    match previous_timestamp {
        Some(t) => {
            if header.timestamp <= t {
                return Err(ValidationError::TimestampNotIncreasing);
            }
        },
        None => {},
    }
    Ok(())
}

/// The check of the transactions from position `k` on: the first one whose
/// gas limit is below what it consumes, or whose signature does not verify,
/// decides.
pub open spec fn transactions_check_from(
    txs: Seq<TransactionView>,
    flags: Seq<bool>,
    k: int,
) -> Result<(), ValidationError>
    decreases txs.len() - k,
{
    if k >= txs.len() {
        Ok(())
    } else if intrinsic_gas(txs[k]) > txs[k].gas_limit {
        Err(ValidationError::MalformedTransaction { index: k as usize })
    } else if !flags[k] {
        Err(ValidationError::InvalidTransactionSignature { index: k as usize })
    } else {
        transactions_check_from(txs, flags, k + 1)
    }
}

/// The check of the transactions of a block: there are no more than a block
/// may hold, and each is well formed and signed.
pub open spec fn transactions_check(
    txs: Seq<TransactionView>,
    flags: Seq<bool>,
    max_transactions: nat,
) -> Result<(), ValidationError> {
    if txs.len() > max_transactions {
        Err(ValidationError::TooManyTransactions)
    } else {
        transactions_check_from(txs, flags, 0)
    }
}

/// Checks the transactions of a block.
#[verifier::loop_isolation(false)]
pub fn check_transactions(transactions: &[Transaction], flags: &[bool], max_transactions: usize) -> (r:
    Result<(), ValidationError>)
    requires
        flags@.len() == transactions@.len(),
    ensures
        r == transactions_check(item_views(transactions@), flags@, max_transactions as nat),
{
    if transactions.len() > max_transactions {
        return Err(ValidationError::TooManyTransactions);
    }
    let ghost txs = item_views(transactions@);
    let mut i: usize = 0;
    while i < transactions.len()
        invariant
            i <= transactions@.len(),
            flags@.len() == transactions@.len(),
            txs == item_views(transactions@),
            transactions_check_from(txs, flags@, 0) == transactions_check_from(
                txs,
                flags@,
                i as int,
            ),
        decreases transactions@.len() - i,
    {
        assert(txs[i as int] == transactions@[i as int]@);
        let enough = match gas_for_payload(transactions[i].data.len()) {
            Some(gas) => gas <= transactions[i].gas_limit,
            None => false,
        };
        if !enough {
            return Err(ValidationError::MalformedTransaction { index: i });
        }
        if !flags[i] {
            return Err(ValidationError::InvalidTransactionSignature { index: i });
        }
        i += 1;
    }
    Ok(())
}

/// Whether an attestation's signature verifies over `message`: by the
/// classical scheme under the validator's public key, or by the post-quantum
/// scheme for the validator's address.
pub open spec fn attestation_signature_valid(
    attestation: ValidatorSignatureView,
    public_key: Seq<u8>,
    message: Seq<u8>,
) -> bool {
    match attestation.sig_type {
        SignatureType::Ed25519 => verify_with_public_key_spec(
            attestation.signature,
            public_key,
            message,
        ) is Ok,
        SignatureType::PostQuantum => verify_lms_spec(
            attestation.signature,
            attestation.validator_address,
            message,
        ) is Ok,
        SignatureType::Secp256k1 => false,
    }
}

/// The stake that the first `k` attestations carry together.
pub open spec fn attested_stake(attestations: Seq<ValidatorSignatureView>, k: int) -> nat
    decreases k,
{
    if k <= 0 {
        0
    } else {
        attested_stake(attestations, k - 1) + attestations[k - 1].stake_weight as nat
    }
}

/// The position in the set of the validator that an attestation is by, if
/// it carries that validator's stake.
pub open spec fn attester_index(
    validators: Seq<Validator>,
    attestation: ValidatorSignatureView,
) -> Option<int> {
    if exists|v: int|
        0 <= v < validators.len() && (#[trigger] validators[v]).address@
            == attestation.validator_address && validators[v].stake == attestation.stake_weight {
        Some(
            choose|v: int|
                0 <= v < validators.len() && (#[trigger] validators[v]).address@
                    == attestation.validator_address && validators[v].stake
                    == attestation.stake_weight,
        )
    } else {
        None
    }
}

/// The check of one attestation, given the one before it: it comes after
/// that one in the order of the validators' addresses, it is by a validator
/// of the set with that validator's stake, and its signature verifies.
pub open spec fn attestation_check(
    validators: Seq<Validator>,
    attestations: Seq<ValidatorSignatureView>,
    message: Seq<u8>,
    k: int,
) -> Result<(), ValidationError> {
    let attestation = attestations[k];
    if k > 0 && be_value(attestations[k - 1].validator_address) >= be_value(
        attestation.validator_address,
    ) {
        Err(ValidationError::AttestationsOutOfOrder { index: k as usize })
    } else {
        match attester_index(validators, attestation) {
            None => Err(ValidationError::UnknownAttester { index: k as usize }),
            Some(v) => if attestation_signature_valid(
                attestation,
                validators[v].public_key@,
                message,
            ) {
                Ok(())
            } else {
                Err(ValidationError::InvalidAttestation { index: k as usize })
            },
        }
    }
}

/// The check of the attestations from position `k` on.
pub open spec fn attestations_check_from(
    validators: Seq<Validator>,
    attestations: Seq<ValidatorSignatureView>,
    message: Seq<u8>,
    k: int,
) -> Result<(), ValidationError>
    decreases attestations.len() - k,
{
    if k >= attestations.len() {
        Ok(())
    } else {
        match attestation_check(validators, attestations, message, k) {
            Err(e) => Err(e),
            Ok(()) => attestations_check_from(validators, attestations, message, k + 1),
        }
    }
}

/// The check of the attestations of a block: each passes its own check, and
/// the stake they carry together reaches the fraction
/// `numerator / denominator` of the total stake.
pub open spec fn attestations_check(
    validators: Seq<Validator>,
    total_stake: u64,
    attestations: Seq<ValidatorSignatureView>,
    message: Seq<u8>,
    numerator: u64,
    denominator: u64,
) -> Result<(), ValidationError> {
    match attestations_check_from(validators, attestations, message, 0) {
        Err(e) => Err(e),
        Ok(()) => if reaches_threshold(
            attested_stake(attestations, attestations.len() as int),
            total_stake as nat,
            numerator as nat,
            denominator as nat,
        ) {
            Ok(())
        } else {
            Err(ValidationError::StakeBelowThreshold)
        },
    }
}

/// Attestations that pass their checks are by validators at strictly
/// increasing positions of the set, each with its validator's stake, so the
/// stake they carry together is no more than the stake up to the last of them.
proof fn lemma_attested_stake_bounded(
    validators: Seq<Validator>,
    attestations: Seq<ValidatorSignatureView>,
    positions: Seq<int>,
    k: int,
)
    requires
        0 <= k <= attestations.len(),
        positions.len() == k,
        forall|i: int|
            0 <= i < k ==> 0 <= #[trigger] positions[i] < validators.len()
                && validators[positions[i]].stake == attestations[i].stake_weight,
        forall|i: int, j: int| 0 <= i < j < k ==> #[trigger] positions[i] < #[trigger] positions[j],
    ensures
        attested_stake(attestations, k) <= crate::types::stake_before(
            validators,
            if k == 0 {
                0
            } else {
                positions[k - 1] + 1
            },
        ),
    decreases k,
{
    if k > 0 {
        lemma_attested_stake_bounded(validators, attestations, positions.drop_last(), k - 1);
        if k > 1 {
            assert(positions[k - 2] < positions[k - 1]);
            crate::consensus::election::lemma_stake_before_monotone(
                validators,
                positions[k - 2] + 1,
                positions[k - 1],
            );
        } else {
            crate::consensus::election::lemma_stake_before_monotone(validators, 0, positions[0]);
        }
    }
}

/// Checks the attestations of a block over `message`.
#[verifier::loop_isolation(false)]
pub fn check_attestations(
    set: &ValidatorSet,
    attestations: &[ValidatorSignature],
    message: &[u8],
    post_quantum: &PostQuantumSigner,
    numerator: u64,
    denominator: u64,
) -> (r: Result<(), ValidationError>)
    requires
        set.well_formed(),
    ensures
        r == attestations_check(
            set.validators@,
            set.total_stake,
            item_views(attestations@),
            message@,
            numerator,
            denominator,
        ),
{
    let ghost views = item_views(attestations@);
    let ghost validators = set.validators@;
    // The validators in the order of their addresses, and the ranks there of
    // the validators that the attestations are by.
    let ghost ranked = crate::consensus::election::in_address_order(validators);
    let ghost mut positions: Seq<int> = Seq::empty();
    proof {
        crate::consensus::election::lemma_in_address_order(validators);
    }
    let mut stake: u64 = 0;
    let mut i: usize = 0;
    while i < attestations.len()
        invariant
            i <= attestations@.len(),
            positions.len() == i,
            stake == attested_stake(views, i as int),
            forall|k: int|
                0 <= k < i ==> 0 <= #[trigger] positions[k] < ranked.len()
                    && ranked[positions[k]].stake == views[k].stake_weight
                    && ranked[positions[k]].address@ == views[k].validator_address,
            forall|a: int, b: int|
                0 <= a < b < i ==> #[trigger] positions[a] < #[trigger] positions[b],
            attestations_check_from(validators, views, message@, 0) == attestations_check_from(
                validators,
                views,
                message@,
                i as int,
            ),
        decreases attestations@.len() - i,
    {
        let attestation = &attestations[i];
        assert(views[i as int] == attestation@);
        if i > 0 {
            assert(views[i - 1] == attestations@[i - 1]@);
            if crate::address_map::address_order(
                &attestations[i - 1].validator_address,
                &attestation.validator_address,
            ) != -1 {
                return Err(ValidationError::AttestationsOutOfOrder { index: i });
            }
        }
        let v = match set.find(&attestation.validator_address) {
            Some(v) => v,
            None => {
                return Err(ValidationError::UnknownAttester { index: i });
            },
        };
        proof {
            // The validator found is the only one with the address.
            assert forall|w: int|
                0 <= w < validators.len() && (#[trigger] validators[w]).address@
                    == attestation@.validator_address implies w == v by {
                if w < v {
                    assert(validators[w].address@ != validators[v as int].address@);
                } else if v < w {
                    assert(validators[v as int].address@ != validators[w].address@);
                }
            }
        }
        let validator = &set.validators[v];
        if validator.stake != attestation.stake_weight {
            return Err(ValidationError::UnknownAttester { index: i });
        }
        assert(attester_index(validators, attestation@) == Some(v as int));
        let valid = match attestation.sig_type {
            SignatureType::Ed25519 => verify_signature(
                attestation.signature.as_slice(),
                validator.public_key.as_slice(),
                message,
            ).is_ok(),
            SignatureType::PostQuantum => post_quantum.verify_lms(
                attestation.signature.as_slice(),
                &attestation.validator_address,
                message,
            ).is_ok(),
            SignatureType::Secp256k1 => false,
        };
        if !valid {
            return Err(ValidationError::InvalidAttestation { index: i });
        }
        proof {
            // Ranks go up: the attestations are in the order of their
            // validators' addresses.
            assert(validators.contains(validators[v as int]));
            let rank = ranked.index_of(validators[v as int]);
            if i > 0 {
                let before = positions[i - 1];
                assert(before < rank) by {
                    if before > rank {
                        assert(be_value(ranked[rank].address@) < be_value(
                            ranked[before].address@,
                        ));
                    }
                }
            }
            positions = positions.push(rank);
            lemma_attested_stake_bounded(ranked, views, positions, i + 1);
            crate::consensus::election::lemma_stake_before_monotone(
                ranked,
                rank + 1,
                ranked.len() as int,
            );
        }
        stake = stake + attestation.stake_weight;
        i += 1;
    }
    if crate::consensus::election::meets_finality(stake, set.total_stake, numerator, denominator) {
        Ok(())
    } else {
        Err(ValidationError::StakeBelowThreshold)
    }
}

} // verus!
