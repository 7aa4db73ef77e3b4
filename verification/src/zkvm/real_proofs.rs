//! Receipts and the deterministic prover.
//!
//! A receipt carries the public values of the relation it attests: where the
//! transition starts (the previous state root and the first block), where it
//! ends (the new state root and the last block), how many transactions it
//! covers, the gas they used and whether they all succeeded. The prover here
//! computes those values by executing the relation itself; the body of its
//! receipts is a commitment to them.

use super::programs::guest_program::{
    batch_view, state_transition_spec, verify_state_transition, StateTransitionInput,
    StateTransitionOutput, TransactionData, TransactionDataView,
};
use super::ProverError;
use crate::consensus::validation::{transactions_root, transactions_root_spec};
use crate::crypto::hash::{
    append_bytes, blake3_digest, blake3_hash, byte_strings, keccak256_digest, keccak256_hash,
    merkle_root, merkle_root_spec, DOMAIN_RECURSION_PUBLIC,
};
use crate::serialization::{item_views, u64_encoding, write_u64};
use crate::types::{BlockHash, Transaction, TransactionView};
use vstd::prelude::*;

verus! {

/// Whether a receipt attests one block or a run of blocks.
#[derive(Debug, Clone, Copy, PartialEq, Eq, Structural)]
pub enum ProofKind {
    Base,
    Recursive,
}

/// A receipt with its public values.
#[derive(Debug, PartialEq, Eq)]
pub struct ZKProofResult {
    /// The body of the receipt, opaque to the core. Empty while the proof is
    /// pending.
    pub receipt: Vec<u8>,
    /// What the relation made public at the end of the run.
    pub public_outputs: StateTransitionOutput,
    pub proof_size: usize,
    pub generation_time_ms: u64,
    /// The state root that the run starts from.
    pub prev_state_root: [u8; 32],
    /// The first block of the run.
    pub first_block: u64,
    /// The last block of the run.
    pub last_block: u64,
    /// The commitment to the transactions of the run: for one block, the
    /// Merkle root over its transactions; for a run of receipts, the Merkle
    /// root over their commitments.
    pub tx_batch_commitment: [u8; 32],
    /// The commitment to the relation that the receipt attests.
    pub program_image_id: [u8; 32],
    pub proof_kind: ProofKind,
}

/// A receipt as mathematical values: its public values, its body, and the
/// size and the time that the prover recorded.
pub struct ReceiptView {
    pub prev_state_root: Seq<u8>,
    pub new_state_root: Seq<u8>,
    pub first_block: u64,
    pub last_block: u64,
    pub transaction_count: u64,
    pub gas_used: u64,
    pub success: bool,
    pub batch_commitment: Seq<u8>,
    pub program_image_id: Seq<u8>,
    pub proof_kind: ProofKind,
    pub receipt: Seq<u8>,
    pub proof_size: nat,
    pub generation_time_ms: u64,
}

impl View for ZKProofResult {
    type V = ReceiptView;

    open spec fn view(&self) -> ReceiptView {
        ReceiptView {
            prev_state_root: self.prev_state_root@,
            new_state_root: self.public_outputs.new_state_root@,
            first_block: self.first_block,
            last_block: self.last_block,
            transaction_count: self.public_outputs.transaction_count,
            gas_used: self.public_outputs.gas_used,
            success: self.public_outputs.success,
            batch_commitment: self.tx_batch_commitment@,
            program_image_id: self.program_image_id@,
            proof_kind: self.proof_kind,
            receipt: self.receipt@,
            proof_size: self.proof_size as nat,
            generation_time_ms: self.generation_time_ms,
        }
    }
}

/// The views of a vector of receipts.
pub open spec fn receipt_views(receipts: Seq<ZKProofResult>) -> Seq<ReceiptView> {
    receipts.map_values(|r: ZKProofResult| r@)
}

/// The stand-in binary of the state-transition program: the four bytes of
/// the ELF magic, a header of a 64-bit little-endian RISC-V executable, and
/// zeros up to 128 bytes.
pub open spec fn mock_guest_elf_spec() -> Seq<u8> {
    Seq::new(
        128,
        |i: int|
            if i == 0 {
                0x7fu8
            } else if i == 1 {
                0x45u8
            } else if i == 2 {
                0x4cu8
            } else if i == 3 {
                0x46u8
            } else if i == 4 {
                2u8
            } else if i == 5 || i == 6 {
                1u8
            } else if i == 16 {
                2u8
            } else if i == 18 {
                0xf3u8
            } else if i == 20 {
                1u8
            } else {
                0u8
            },
    )
}

/// The stand-in binary of the recursion program: that of the
/// state-transition program with another byte 17.
pub open spec fn mock_recursive_elf_spec() -> Seq<u8> {
    mock_guest_elf_spec().update(17, 2u8)
}

/// The stand-in binary of the amendment program: that of the
/// state-transition program with yet another byte 17.
pub open spec fn mock_amendment_elf_spec() -> Seq<u8> {
    mock_guest_elf_spec().update(17, 3u8)
}

/// The image id of a program: the BLAKE3 digest of its binary.
pub open spec fn image_id_spec(elf: Seq<u8>) -> Seq<u8> {
    blake3_digest(elf)
}

/// The image ids of the three relations, each a configuration value.
#[derive(Debug, Clone, Copy, PartialEq, Eq)]
pub struct ImageIds {
    pub state_transition: [u8; 32],
    pub recursion: [u8; 32],
    pub amendment: [u8; 32],
}

/// The stand-in binary of the state-transition program.
pub fn create_mock_guest_elf() -> (elf: Vec<u8>)
    ensures
        elf@ == mock_guest_elf_spec(),
{
    let mut elf = super::zero_bytes(128);
    elf.set(0, 0x7f);
    elf.set(1, 0x45);
    elf.set(2, 0x4c);
    elf.set(3, 0x46);
    elf.set(4, 2);
    elf.set(5, 1);
    elf.set(6, 1);
    elf.set(16, 2);
    elf.set(18, 0xf3);
    elf.set(20, 1);
    assert(elf@ =~= mock_guest_elf_spec());
    elf
}

/// The stand-in binary of the recursion program.
pub fn create_mock_recursive_elf() -> (elf: Vec<u8>)
    ensures
        elf@ == mock_recursive_elf_spec(),
{
    let mut elf = create_mock_guest_elf();
    elf.set(17, 2);
    elf
}

/// The stand-in binary of the amendment program.
pub fn create_mock_amendment_elf() -> (elf: Vec<u8>)
    ensures
        elf@ == mock_amendment_elf_spec(),
{
    let mut elf = create_mock_guest_elf();
    elf.set(17, 3);
    elf
}

/// The image id of a program binary.
pub fn compute_image_id(elf: &[u8]) -> (id: [u8; 32])
    ensures
        id@ == image_id_spec(elf@),
{
    blake3_hash(elf)
}

impl ImageIds {
    /// The image ids of the three stand-in programs.
    pub fn mock() -> (ids: ImageIds)
        ensures
            ids.state_transition@ == image_id_spec(mock_guest_elf_spec()),
            ids.recursion@ == image_id_spec(mock_recursive_elf_spec()),
            ids.amendment@ == image_id_spec(mock_amendment_elf_spec()),
    {
        ImageIds {
            state_transition: compute_image_id(create_mock_guest_elf().as_slice()),
            recursion: compute_image_id(create_mock_recursive_elf().as_slice()),
            amendment: compute_image_id(create_mock_amendment_elf().as_slice()),
        }
    }
}

/// A transaction as the guest program sees it.
pub open spec fn guest_view(tx: TransactionView) -> TransactionDataView {
    TransactionDataView { from: tx.from, to: tx.to, value: tx.value, nonce: tx.nonce, data: tx.data }
}

/// A batch as the guest program sees it.
pub open spec fn guest_batch(txs: Seq<TransactionView>) -> Seq<TransactionDataView> {
    txs.map_values(|t: TransactionView| guest_view(t))
}

/// The batch in the guest program's format.
pub fn to_guest_transactions(transactions: &[Transaction]) -> (guest: Vec<TransactionData>)
    ensures
        batch_view(guest@) == guest_batch(item_views(transactions@)),
{
    let mut guest: Vec<TransactionData> = Vec::new();
    let mut i: usize = 0;
    while i < transactions.len()
        invariant
            i <= transactions@.len(),
            guest@.len() == i,
            forall|j: int| 0 <= j < i ==> (#[trigger] guest@[j])@ == guest_view(transactions@[j]@),
        decreases transactions@.len() - i,
    {
        let tx = &transactions[i];
        guest.push(
            TransactionData {
                from: tx.from.0,
                to: tx.to.0,
                value: tx.value,
                nonce: tx.nonce,
                data: crate::types::clone_bytes(&tx.data),
            },
        );
        i += 1;
    }
    assert(batch_view(guest@) =~= guest_batch(item_views(transactions@)));
    guest
}

/// The bytes that a receipt's body commits to: the recursion tag, the two
/// roots, the two heights, the number of transactions, the gas, whether the
/// transition succeeded (one byte, 1 or 0) and the commitment to the
/// transactions.
pub open spec fn receipt_commitment_preimage(
    prev_state_root: Seq<u8>,
    new_state_root: Seq<u8>,
    first_block: u64,
    last_block: u64,
    transaction_count: u64,
    gas_used: u64,
    success: bool,
    batch_commitment: Seq<u8>,
) -> Seq<u8> {
    seq![DOMAIN_RECURSION_PUBLIC] + prev_state_root + new_state_root + u64_encoding(first_block)
        + u64_encoding(last_block) + u64_encoding(transaction_count) + u64_encoding(gas_used)
        + seq![if success { 1u8 } else { 0u8 }] + batch_commitment
}

/// The body of a receipt of the deterministic prover: the Keccak-256 digest
/// over its public values.
pub open spec fn receipt_body_spec(
    prev_state_root: Seq<u8>,
    new_state_root: Seq<u8>,
    first_block: u64,
    last_block: u64,
    transaction_count: u64,
    gas_used: u64,
    success: bool,
    batch_commitment: Seq<u8>,
) -> Seq<u8> {
    keccak256_digest(
        receipt_commitment_preimage(
            prev_state_root,
            new_state_root,
            first_block,
            last_block,
            transaction_count,
            gas_used,
            success,
            batch_commitment,
        ),
    )
}

/// The body of a receipt over the given public values.
pub fn receipt_body(
    prev_state_root: &[u8; 32],
    new_state_root: &[u8; 32],
    first_block: u64,
    last_block: u64,
    transaction_count: u64,
    gas_used: u64,
    success: bool,
    batch_commitment: &[u8; 32],
) -> (body: Vec<u8>)
    ensures
        body@ == receipt_body_spec(
            prev_state_root@,
            new_state_root@,
            first_block,
            last_block,
            transaction_count,
            gas_used,
            success,
            batch_commitment@,
        ),
        body@.len() == 32,
{
    let mut bytes: Vec<u8> = Vec::new();
    bytes.push(DOMAIN_RECURSION_PUBLIC);
    append_bytes(&mut bytes, prev_state_root.as_slice());
    append_bytes(&mut bytes, new_state_root.as_slice());
    write_u64(first_block, &mut bytes);
    write_u64(last_block, &mut bytes);
    write_u64(transaction_count, &mut bytes);
    write_u64(gas_used, &mut bytes);
    bytes.push(if success { 1u8 } else { 0u8 });
    append_bytes(&mut bytes, batch_commitment.as_slice());
    assert(bytes@ =~= receipt_commitment_preimage(
        prev_state_root@,
        new_state_root@,
        first_block,
        last_block,
        transaction_count,
        gas_used,
        success,
        batch_commitment@,
    ));
    let digest = keccak256_hash(bytes.as_slice());
    vstd::slice::slice_to_vec(digest.as_slice())
}

/// Whether the deterministic prover's verifier accepts a receipt under an
/// image id: the receipt attests that relation, its body is the commitment
/// to its public values, of the size that the receipt gives, and the
/// transition succeeded.
pub open spec fn receipt_accepted(r: ReceiptView, image_id: Seq<u8>) -> bool {
    &&& r.program_image_id == image_id
    &&& r.success
    &&& r.proof_size == r.receipt.len()
    &&& r.receipt == receipt_body_spec(
        r.prev_state_root,
        r.new_state_root,
        r.first_block,
        r.last_block,
        r.transaction_count,
        r.gas_used,
        r.success,
        r.batch_commitment,
    )
}

/// Whether `later` starts where `earlier` ends: from its new state root, at
/// the block after its last.
pub open spec fn follows(earlier: ReceiptView, later: ReceiptView) -> bool {
    earlier.new_state_root == later.prev_state_root && earlier.last_block + 1 == later.first_block
}

/// Whether each receipt of a run starts where the one before it ends.
pub open spec fn chained(receipts: Seq<ReceiptView>) -> bool {
    forall|i: int, j: int|
        0 <= i && j == i + 1 && j < receipts.len() ==> follows(
            #[trigger] receipts[i],
            #[trigger] receipts[j],
        )
}

/// The first position at which a run breaks: the receipt there does not
/// start where the one before it ends.
pub open spec fn first_break(receipts: Seq<ReceiptView>, k: int) -> bool {
    &&& 1 <= k < receipts.len()
    &&& !follows(receipts[k - 1], receipts[k])
    &&& chained(receipts.subrange(0, k))
}

/// The number of transactions that the first `k` receipts cover together.
pub open spec fn transactions_before(receipts: Seq<ReceiptView>, k: int) -> nat
    decreases k,
{
    if k <= 0 {
        0
    } else {
        transactions_before(receipts, k - 1) + receipts[k - 1].transaction_count as nat
    }
}

/// The gas that the first `k` receipts account for together.
pub open spec fn gas_before(receipts: Seq<ReceiptView>, k: int) -> nat
    decreases k,
{
    if k <= 0 {
        0
    } else {
        gas_before(receipts, k - 1) + receipts[k - 1].gas_used as nat
    }
}

/// Whether the first `k` receipts all report success.
pub open spec fn all_succeeded(receipts: Seq<ReceiptView>, k: int) -> bool {
    forall|i: int| 0 <= i < k ==> (#[trigger] receipts[i]).success
}

pub proof fn lemma_totals_monotone(receipts: Seq<ReceiptView>, j: int, k: int)
    requires
        j <= k,
    ensures
        transactions_before(receipts, j) <= transactions_before(receipts, k),
        gas_before(receipts, j) <= gas_before(receipts, k),
    decreases k - j,
{
    if j < k {
        lemma_totals_monotone(receipts, j, k - 1);
    }
}

/// The image id that is configured for the relation of a receipt of the
/// given kind.
pub open spec fn configured_image_id(kind: ProofKind) -> Seq<u8> {
    match kind {
        ProofKind::Base => image_id_spec(mock_guest_elf_spec()),
        ProofKind::Recursive => image_id_spec(mock_recursive_elf_spec()),
    }
}

/// Whether the verifier accepts a receipt under the image id that is
/// configured for its relation.
pub open spec fn input_accepted(r: ReceiptView) -> bool {
    receipt_accepted(r, configured_image_id(r.proof_kind))
}

/// Whether every receipt of a run is accepted.
pub open spec fn all_accepted(receipts: Seq<ReceiptView>) -> bool {
    forall|i: int| 0 <= i < receipts.len() ==> input_accepted(#[trigger] receipts[i])
}

/// The first position of a run whose receipt is not accepted.
pub open spec fn first_rejected(receipts: Seq<ReceiptView>, k: int) -> bool {
    &&& 0 <= k < receipts.len()
    &&& !input_accepted(receipts[k])
    &&& forall|i: int| 0 <= i < k ==> input_accepted(#[trigger] receipts[i])
}

/// The deterministic prover. It does not measure the time that proving
/// takes: the receipts it gives record a time of zero, for whoever measures
/// it to write in.
pub struct RealZKProver {}

impl RealZKProver {
    pub fn new() -> (r: Result<RealZKProver, ProverError>)
        ensures
            r is Ok,
    {
        Ok(RealZKProver {  })
    }

    /// The base receipt of one block: its public values are those of the
    /// state-transition relation on the block's input.
    pub fn generate_state_transition_proof(
        &self,
        prev_state_root: BlockHash,
        transactions: &[Transaction],
        block_number: u64,
        timestamp: u64,
    ) -> (r: Result<ZKProofResult, ProverError>)
        ensures
            r matches Ok(receipt) && {
                let outcome = state_transition_spec(
                    prev_state_root@,
                    guest_batch(item_views(transactions@)),
                    block_number,
                    timestamp,
                );
                &&& receipt@.prev_state_root == prev_state_root@
                &&& receipt@.new_state_root == outcome.new_state_root
                &&& receipt@.first_block == block_number
                &&& receipt@.last_block == block_number
                &&& receipt@.transaction_count == outcome.transaction_count
                &&& receipt@.gas_used == outcome.gas_used
                &&& receipt@.success == outcome.success
                &&& receipt@.proof_kind == ProofKind::Base
                &&& receipt@.program_image_id == image_id_spec(mock_guest_elf_spec())
                &&& receipt@.batch_commitment == transactions_root_spec(
                    item_views(transactions@),
                )
                &&& receipt@.receipt == receipt_body_spec(
                    receipt@.prev_state_root,
                    receipt@.new_state_root,
                    block_number,
                    block_number,
                    receipt@.transaction_count,
                    receipt@.gas_used,
                    receipt@.success,
                    receipt@.batch_commitment,
                )
                &&& receipt@.receipt.len() == 32
                &&& receipt@.proof_size == 32
                &&& receipt@.generation_time_ms == 0
            },
    {
        let input = StateTransitionInput {
            prev_state_root: prev_state_root.0,
            transactions: to_guest_transactions(transactions),
            block_number,
            timestamp,
        };
        let public_outputs = verify_state_transition(input);
        let tx_batch_commitment = transactions_root(transactions).0;
        let body = receipt_body(
            &prev_state_root.0,
            &public_outputs.new_state_root,
            block_number,
            block_number,
            public_outputs.transaction_count,
            public_outputs.gas_used,
            public_outputs.success,
            &tx_batch_commitment,
        );
        let proof_size = body.len();
        Ok(
            ZKProofResult {
                receipt: body,
                public_outputs,
                proof_size,
                generation_time_ms: 0,
                prev_state_root: prev_state_root.0,
                first_block: block_number,
                last_block: block_number,
                tx_batch_commitment,
                program_image_id: compute_image_id(create_mock_guest_elf().as_slice()),
                proof_kind: ProofKind::Base,
            },
        )
    }

    /// Whether the receipt is accepted under the image id that is configured
    /// for its relation: the state-transition image id for a base receipt,
    /// the recursion image id for a composed one. A receipt that names
    /// another image id is not accepted.
    pub fn verify_proof(&self, proof_result: &ZKProofResult) -> (r: Result<bool, ProverError>)
        ensures
            r == Ok::<bool, ProverError>(
                receipt_accepted(proof_result@, configured_image_id(proof_result@.proof_kind)),
            ),
    {
        Ok(verify_configured(proof_result, &ImageIds::mock()))
    }

    /// Composes a run of receipts into one. The run must not be empty, each
    /// receipt must be accepted under the image id of its relation, and
    /// each must start from the root and the height that the one before it
    /// ends with. The composed receipt starts where the first starts and
    /// ends where the last ends, and covers the transactions and the gas of
    /// all. It is accepted under the recursion image id, and there is none
    /// unless every receipt of the run is accepted.
    pub fn generate_recursive_proof(&self, proof_results: Vec<ZKProofResult>) -> (r: Result<
        ZKProofResult,
        ProverError,
    >)
        ensures
            ({
                let views = receipt_views(proof_results@);
                let n = views.len() as int;
                match r {
                    Ok(composed) => {
                        &&& n > 0
                        &&& all_accepted(views)
                        &&& input_accepted(composed@)
                        &&& chained(views)
                        &&& composed@.prev_state_root == views[0].prev_state_root
                        &&& composed@.new_state_root == views[n - 1].new_state_root
                        &&& composed@.first_block == views[0].first_block
                        &&& composed@.last_block == views[n - 1].last_block
                        &&& composed@.transaction_count == transactions_before(views, n)
                        &&& composed@.gas_used == gas_before(views, n)
                        &&& composed@.success == all_succeeded(views, n)
                        &&& composed@.proof_kind == ProofKind::Recursive
                        &&& composed@.program_image_id == image_id_spec(mock_recursive_elf_spec())
                        &&& composed@.batch_commitment == merkle_root_spec(
                            batch_commitments(views),
                        )
                        &&& composed@.receipt == receipt_body_spec(
                            composed@.prev_state_root,
                            composed@.new_state_root,
                            composed@.first_block,
                            composed@.last_block,
                            composed@.transaction_count,
                            composed@.gas_used,
                            composed@.success,
                            composed@.batch_commitment,
                        )
                        &&& composed@.receipt.len() == 32
                        &&& composed@.proof_size == 32
                        &&& composed@.generation_time_ms == 0
                    },
                    Err(ProverError::EmptyComposition) => n == 0,
                    Err(ProverError::InputRejected { position }) => first_rejected(
                        views,
                        position as int,
                    ),
                    Err(ProverError::BrokenChain { position }) => all_accepted(views) && first_break(
                        views,
                        position as int,
                    ),
                    Err(ProverError::Overflow) => n > 0 && all_accepted(views) && chained(views) && (
                    transactions_before(views, n) > u64::MAX || gas_before(views, n) > u64::MAX),
                }
            }),
    {
        let ghost views = receipt_views(proof_results@);
        let n = proof_results.len();
        if n == 0 {
            return Err(ProverError::EmptyComposition);
        }
        match find_rejected(&proof_results) {
            Some(position) => {
                return Err(ProverError::InputRejected { position });
            },
            None => {},
        }
        match find_break(&proof_results) {
            Some(position) => {
                return Err(ProverError::BrokenChain { position });
            },
            None => {},
        }
        let (total_transactions, total_gas, success) = match total_receipts(&proof_results) {
            Some(totals) => totals,
            None => {
                return Err(ProverError::Overflow);
            },
        };
        let first = &proof_results[0];
        let last = &proof_results[n - 1];
        assert(views[0] == first@ && views[n - 1] == last@);
        let tx_batch_commitment = commit_to_batches(&proof_results);
        let body = receipt_body(
            &first.prev_state_root,
            &last.public_outputs.new_state_root,
            first.first_block,
            last.last_block,
            total_transactions,
            total_gas,
            success,
            &tx_batch_commitment,
        );
        let proof_size = body.len();
        Ok(
            ZKProofResult {
                receipt: body,
                public_outputs: StateTransitionOutput {
                    new_state_root: last.public_outputs.new_state_root,
                    transaction_count: total_transactions,
                    gas_used: total_gas,
                    success,
                },
                proof_size,
                generation_time_ms: 0,
                prev_state_root: first.prev_state_root,
                first_block: first.first_block,
                last_block: last.last_block,
                tx_batch_commitment,
                program_image_id: compute_image_id(create_mock_recursive_elf().as_slice()),
                proof_kind: ProofKind::Recursive,
            },
        )
    }
}

/// Whether the verifier accepts `receipt` under the image id that `ids`
/// holds for its relation.
pub fn verify_configured(receipt: &ZKProofResult, ids: &ImageIds) -> (accepted: bool)
    ensures
        accepted == receipt_accepted(
            receipt@,
            match receipt@.proof_kind {
                ProofKind::Base => ids.state_transition@,
                ProofKind::Recursive => ids.recursion@,
            },
        ),
{
    match receipt.proof_kind {
        ProofKind::Base => verify_receipt(receipt, &ids.state_transition),
        ProofKind::Recursive => verify_receipt(receipt, &ids.recursion),
    }
}

/// The first position of a run whose receipt is not accepted under the
/// image id that is configured for its relation, if there is one.
pub fn find_rejected(receipts: &Vec<ZKProofResult>) -> (r: Option<usize>)
    ensures
        match r {
            Some(k) => first_rejected(receipt_views(receipts@), k as int),
            None => all_accepted(receipt_views(receipts@)),
        },
{
    let ghost views = receipt_views(receipts@);
    let ids = ImageIds::mock();
    let mut k: usize = 0;
    while k < receipts.len()
        invariant
            k <= receipts@.len(),
            views == receipt_views(receipts@),
            ids.state_transition@ == image_id_spec(mock_guest_elf_spec()),
            ids.recursion@ == image_id_spec(mock_recursive_elf_spec()),
            forall|i: int| 0 <= i < k ==> input_accepted(#[trigger] views[i]),
        decreases receipts@.len() - k,
    {
        assert(views[k as int] == receipts@[k as int]@);
        if !verify_configured(&receipts[k], &ids) {
            return Some(k);
        }
        k += 1;
    }
    None
}

/// The commitments of the receipts to their transactions, in order.
pub open spec fn batch_commitments(receipts: Seq<ReceiptView>) -> Seq<Seq<u8>> {
    receipts.map_values(|r: ReceiptView| r.batch_commitment)
}

/// The commitment of a run of receipts to its transactions: the Merkle root
/// over the commitments of the receipts.
pub fn commit_to_batches(receipts: &Vec<ZKProofResult>) -> (commitment: [u8; 32])
    ensures
        commitment@ == merkle_root_spec(batch_commitments(receipt_views(receipts@))),
{
    let mut leaves: Vec<Vec<u8>> = Vec::new();
    let mut i: usize = 0;
    while i < receipts.len()
        invariant
            i <= receipts@.len(),
            leaves@.len() == i,
            forall|j: int|
                0 <= j < i ==> (#[trigger] leaves@[j])@ == receipts@[j]@.batch_commitment,
        decreases receipts@.len() - i,
    {
        leaves.push(vstd::slice::slice_to_vec(receipts[i].tx_batch_commitment.as_slice()));
        i += 1;
    }
    assert(byte_strings(leaves@) =~= batch_commitments(receipt_views(receipts@)));
    merkle_root(leaves.as_slice())
}

/// The first position at which a run of receipts breaks, if it does.
pub fn find_break(receipts: &Vec<ZKProofResult>) -> (r: Option<usize>)
    ensures
        match r {
            Some(k) => first_break(receipt_views(receipts@), k as int),
            None => chained(receipt_views(receipts@)),
        },
{
    let ghost views = receipt_views(receipts@);
    let n = receipts.len();
    if n == 0 {
        return None;
    }
    let mut k: usize = 1;
    assert(chained(views.subrange(0, 1)));
    while k < n
        invariant
            1 <= k <= n,
            n == receipts@.len(),
            views == receipt_views(receipts@),
            chained(views.subrange(0, k as int)),
        decreases n - k,
    {
        let earlier = &receipts[k - 1];
        let later = &receipts[k];
        assert(views[k - 1] == earlier@ && views[k as int] == later@);
        let in_order = crate::types::bytes32_eq(
            &earlier.public_outputs.new_state_root,
            &later.prev_state_root,
        ) && earlier.last_block < u64::MAX && earlier.last_block + 1 == later.first_block;
        if !in_order {
            return Some(k);
        }
        proof {
            let shorter = views.subrange(0, k as int);
            let longer = views.subrange(0, k + 1);
            assert forall|i: int, j: int| 0 <= i && j == i + 1 && j < longer.len() implies follows(
                #[trigger] longer[i],
                #[trigger] longer[j],
            ) by {
                if j < k {
                    assert(follows(shorter[i], shorter[j]));
                }
            }
        }
        k += 1;
    }
    assert(views.subrange(0, n as int) =~= views);
    None
}

/// The transactions and the gas of all the receipts, and whether all succeeded;
/// nothing where a total does not fit in 64 bits.
pub fn total_receipts(receipts: &Vec<ZKProofResult>) -> (r: Option<(u64, u64, bool)>)
    ensures
        ({
            let views = receipt_views(receipts@);
            let n = views.len() as int;
            match r {
                Some((transactions, gas, success)) => transactions == transactions_before(views, n)
                    && gas == gas_before(views, n) && success == all_succeeded(views, n),
                None => transactions_before(views, n) > u64::MAX || gas_before(views, n) > u64::MAX,
            }
        }),
{
    let ghost views = receipt_views(receipts@);
    let n = receipts.len();
    let mut total_transactions: u64 = 0;
    let mut total_gas: u64 = 0;
    let mut success = true;
    let mut i: usize = 0;
    while i < n
        invariant
            i <= n,
            n == receipts@.len(),
            views == receipt_views(receipts@),
            total_transactions == transactions_before(views, i as int),
            total_gas == gas_before(views, i as int),
            success == all_succeeded(views, i as int),
        decreases n - i,
    {
        let receipt = &receipts[i];
        assert(views[i as int] == receipt@);
        proof {
            lemma_totals_monotone(views, i + 1, n as int);
        }
        total_transactions = match total_transactions.checked_add(
            receipt.public_outputs.transaction_count,
        ) {
            Some(t) => t,
            None => {
                return None;
            },
        };
        total_gas = match total_gas.checked_add(receipt.public_outputs.gas_used) {
            Some(t) => t,
            None => {
                return None;
            },
        };
        if !receipt.public_outputs.success {
            success = false;
        }
        i += 1;
    }
    Some((total_transactions, total_gas, success))
}

/// Whether the deterministic prover's verifier accepts `receipt` under `image_id`.
pub fn verify_receipt(receipt: &ZKProofResult, image_id: &[u8; 32]) -> (accepted: bool)
    ensures
        accepted == receipt_accepted(receipt@, image_id@),
{
    if !crate::types::bytes32_eq(&receipt.program_image_id, image_id) {
        return false;
    }
    if !receipt.public_outputs.success || receipt.proof_size != receipt.receipt.len() {
        return false;
    }
    let body = receipt_body(
        &receipt.prev_state_root,
        &receipt.public_outputs.new_state_root,
        receipt.first_block,
        receipt.last_block,
        receipt.public_outputs.transaction_count,
        receipt.public_outputs.gas_used,
        receipt.public_outputs.success,
        &receipt.tx_batch_commitment,
    );
    crate::crypto::hash::hex_utils::bytes_equal(receipt.receipt.as_slice(), body.as_slice())
}

} // verus!
