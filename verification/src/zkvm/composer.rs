//! The recursive composer: one rolling chain receipt that attests the whole
//! history up to a height.
//!
//! The chain receipt of height `n` makes public the genesis state root, the
//! state root after block `n`, the number of transactions so far and the
//! height. Folding the base receipt of block `n + 1` into it checks that the
//! base receipt was accepted, that it starts from the chain's state root and
//! that it is for the next height; protocol rules that the block activates are
//! folded in with it, each under the amendment relation and only for this
//! very height.

use super::real_proofs::{ImageIds, ReceiptView, ZKProofResult};
use crate::crypto::hash::{
    append_bytes, keccak256_digest, keccak256_hash, DOMAIN_RECURSION_PUBLIC,
};
use crate::serialization::{item_views, u64_encoding, write_u64, Canonical};
use crate::types::{ProofType, ProtocolRule, ProtocolRuleView, ZkProof, ZkProofView};
use vstd::prelude::*;

verus! {

/// Why a block's receipt could not be folded into the chain receipt.
#[derive(Debug, Clone, Copy, PartialEq, Eq, Structural)]
pub enum ComposeError {
    /// The base receipt was not accepted under the state-transition image id.
    ProofRejected,
    /// The base receipt does not start from the chain's state root.
    StateRootMismatch,
    /// The base receipt is not for the height after the chain's.
    HeightMismatch,
    /// The number of transactions does not fit in 64 bits.
    CountOverflow,
    /// The validity receipt of a rule was not accepted under the amendment
    /// image id.
    AmendmentReceiptInvalid { rule_id: u32 },
    /// A rule is not to be activated at this height.
    ActivationHeightMismatch { rule_id: u32 },
}

/// The rolling chain receipt.
#[derive(Debug, PartialEq, Eq)]
pub struct ChainReceipt {
    /// The body of the receipt, opaque to the core.
    pub receipt: Vec<u8>,
    pub genesis_state_root: [u8; 32],
    pub state_root: [u8; 32],
    pub cumulative_tx_count: u64,
    pub height: u64,
    /// The rules activated at `height`.
    pub activated_rules: Vec<u32>,
    pub program_image_id: [u8; 32],
}

/// A chain receipt as mathematical values.
pub struct ChainReceiptView {
    pub receipt: Seq<u8>,
    pub genesis_state_root: Seq<u8>,
    pub state_root: Seq<u8>,
    pub cumulative_tx_count: u64,
    pub height: u64,
    pub activated_rules: Seq<u32>,
    pub program_image_id: Seq<u8>,
}

impl View for ChainReceipt {
    type V = ChainReceiptView;

    open spec fn view(&self) -> ChainReceiptView {
        ChainReceiptView {
            receipt: self.receipt@,
            genesis_state_root: self.genesis_state_root@,
            state_root: self.state_root@,
            cumulative_tx_count: self.cumulative_tx_count,
            height: self.height,
            activated_rules: self.activated_rules@,
            program_image_id: self.program_image_id@,
        }
    }
}

/// The identifiers of the rules, in order.
pub open spec fn rule_ids(rules: Seq<ProtocolRuleView>) -> Seq<u32> {
    rules.map_values(|r: ProtocolRuleView| r.rule_id)
}

/// The four little-endian bytes of each identifier, in order.
pub open spec fn rule_ids_encoding(ids: Seq<u32>) -> Seq<u8>
    decreases ids.len(),
{
    if ids.len() == 0 {
        Seq::empty()
    } else {
        rule_ids_encoding(ids.drop_last()) + u32::encoding(ids.last())
    }
}

/// The public values of a chain receipt as bytes: the genesis state root,
/// the state root, the number of transactions so far, the height, and the
/// identifiers of the rules activated at that height.
pub open spec fn chain_public_values_spec(
    genesis_state_root: Seq<u8>,
    state_root: Seq<u8>,
    cumulative_tx_count: u64,
    height: u64,
    activated_rules: Seq<u32>,
) -> Seq<u8> {
    genesis_state_root + state_root + u64_encoding(cumulative_tx_count) + u64_encoding(height)
        + rule_ids_encoding(activated_rules)
}

/// The body of a chain receipt: the Keccak-256 digest over the recursion
/// tag and the receipt's public values.
pub open spec fn chain_body_spec(
    genesis_state_root: Seq<u8>,
    state_root: Seq<u8>,
    cumulative_tx_count: u64,
    height: u64,
    activated_rules: Seq<u32>,
) -> Seq<u8> {
    keccak256_digest(
        seq![DOMAIN_RECURSION_PUBLIC] + chain_public_values_spec(
            genesis_state_root,
            state_root,
            cumulative_tx_count,
            height,
            activated_rules,
        ),
    )
}

/// A chain receipt as the proof that a block carries: the body, the public
/// values as bytes, and the image id that the receipt names.
pub open spec fn chain_proof_spec(chain: ChainReceiptView) -> ZkProofView {
    ZkProofView {
        proof_data: chain.receipt,
        public_inputs: chain_public_values_spec(
            chain.genesis_state_root,
            chain.state_root,
            chain.cumulative_tx_count,
            chain.height,
            chain.activated_rules,
        ),
        verification_key: chain.program_image_id,
        proof_type: ProofType::Risc0,
    }
}

/// Whether a chain receipt is accepted under the recursion image id: it
/// names that image id, and its body is the commitment to its public values.
pub open spec fn chain_receipt_accepted(r: ChainReceiptView, recursion_id: Seq<u8>) -> bool {
    &&& r.program_image_id == recursion_id
    &&& r.receipt == chain_body_spec(
        r.genesis_state_root,
        r.state_root,
        r.cumulative_tx_count,
        r.height,
        r.activated_rules,
    )
}

/// Whether a rule may be folded in at height `height`: its validity receipt
/// was accepted under the amendment image id, and it is to be activated at
/// no other height than this.
pub open spec fn rule_check(
    rule: ProtocolRuleView,
    accepted: bool,
    amendment_id: Seq<u8>,
    height: u64,
) -> Result<(), ComposeError> {
    if !accepted || rule.validity_proof.verification_key != amendment_id {
        Err(ComposeError::AmendmentReceiptInvalid { rule_id: rule.rule_id })
    } else if rule.activation_epoch != height {
        Err(ComposeError::ActivationHeightMismatch { rule_id: rule.rule_id })
    } else {
        Ok(())
    }
}

/// The check of the rules from position `k` on: the error of the first rule
/// that fails, or nothing to object to.
pub open spec fn rules_check(
    rules: Seq<ProtocolRuleView>,
    verdicts: Seq<bool>,
    amendment_id: Seq<u8>,
    height: u64,
    k: int,
) -> Result<(), ComposeError>
    decreases rules.len() - k,
{
    if k >= rules.len() {
        Ok(())
    } else {
        match rule_check(rules[k], verdicts[k], amendment_id, height) {
            Err(e) => Err(e),
            Ok(()) => rules_check(rules, verdicts, amendment_id, height, k + 1),
        }
    }
}

/// What folding the receipt of the next block into the chain receipt gives.
/// `base_accepted` says whether the backend accepted the base receipt, and
/// `verdicts[i]` whether it accepted the validity receipt of rule `i`.
pub open spec fn fold_spec(
    chain: ChainReceiptView,
    base: ReceiptView,
    base_accepted: bool,
    rules: Seq<ProtocolRuleView>,
    verdicts: Seq<bool>,
    state_transition_id: Seq<u8>,
    recursion_id: Seq<u8>,
    amendment_id: Seq<u8>,
) -> Result<ChainReceiptView, ComposeError> {
    if !base_accepted || base.program_image_id != state_transition_id || !base.success {
        Err(ComposeError::ProofRejected)
    } else if base.prev_state_root != chain.state_root {
        Err(ComposeError::StateRootMismatch)
    } else if base.first_block != chain.height + 1 || base.last_block != chain.height + 1 {
        Err(ComposeError::HeightMismatch)
    } else if chain.cumulative_tx_count + base.transaction_count > u64::MAX {
        Err(ComposeError::CountOverflow)
    } else {
        match rules_check(rules, verdicts, amendment_id, (chain.height + 1) as u64, 0) {
            Err(e) => Err(e),
            Ok(()) => {
                let count = (chain.cumulative_tx_count + base.transaction_count) as u64;
                let height = (chain.height + 1) as u64;
                Ok(
                    ChainReceiptView {
                        receipt: chain_body_spec(
                            chain.genesis_state_root,
                            base.new_state_root,
                            count,
                            height,
                            rule_ids(rules),
                        ),
                        genesis_state_root: chain.genesis_state_root,
                        state_root: base.new_state_root,
                        cumulative_tx_count: count,
                        height,
                        activated_rules: rule_ids(rules),
                        program_image_id: recursion_id,
                    },
                )
            },
        }
    }
}

/// The view of the result of a fold.
pub open spec fn fold_view(r: Result<ChainReceipt, ComposeError>) -> Result<
    ChainReceiptView,
    ComposeError,
> {
    match r {
        Ok(c) => Ok(c@),
        Err(e) => Err(e),
    }
}

/// Appends the public values of a chain receipt to `bytes`.
pub fn write_public_values(
    bytes: &mut Vec<u8>,
    genesis_state_root: &[u8; 32],
    state_root: &[u8; 32],
    cumulative_tx_count: u64,
    height: u64,
    activated_rules: &Vec<u32>,
)
    ensures
        final(bytes)@ == old(bytes)@ + chain_public_values_spec(
            genesis_state_root@,
            state_root@,
            cumulative_tx_count,
            height,
            activated_rules@,
        ),
{
    let ghost before = bytes@;
    append_bytes(bytes, genesis_state_root.as_slice());
    append_bytes(bytes, state_root.as_slice());
    write_u64(cumulative_tx_count, bytes);
    write_u64(height, bytes);
    let ghost head = bytes@;
    let mut i: usize = 0;
    assert(activated_rules@.subrange(0, 0) =~= Seq::<u32>::empty());
    assert(bytes@ =~= head + rule_ids_encoding(activated_rules@.subrange(0, 0)));
    while i < activated_rules.len()
        invariant
            i <= activated_rules@.len(),
            bytes@ == head + rule_ids_encoding(activated_rules@.subrange(0, i as int)),
        decreases activated_rules@.len() - i,
    {
        activated_rules[i].write(bytes);
        proof {
            let next = activated_rules@.subrange(0, i + 1);
            assert(next.drop_last() =~= activated_rules@.subrange(0, i as int));
            assert(next.last() == activated_rules@[i as int]);
            assert(bytes@ =~= head + rule_ids_encoding(next));
        }
        i += 1;
    }
    assert(activated_rules@.subrange(0, activated_rules@.len() as int) =~= activated_rules@);
    assert(head =~= before + genesis_state_root@ + state_root@ + u64_encoding(cumulative_tx_count)
        + u64_encoding(height));
    assert(bytes@ =~= before + chain_public_values_spec(
        genesis_state_root@,
        state_root@,
        cumulative_tx_count,
        height,
        activated_rules@,
    ));
}

/// The body of a chain receipt over the given public values.
pub fn chain_body(
    genesis_state_root: &[u8; 32],
    state_root: &[u8; 32],
    cumulative_tx_count: u64,
    height: u64,
    activated_rules: &Vec<u32>,
) -> (body: Vec<u8>)
    ensures
        body@ == chain_body_spec(
            genesis_state_root@,
            state_root@,
            cumulative_tx_count,
            height,
            activated_rules@,
        ),
{
    let mut bytes: Vec<u8> = Vec::new();
    bytes.push(DOMAIN_RECURSION_PUBLIC);
    assert(bytes@ =~= seq![DOMAIN_RECURSION_PUBLIC]);
    write_public_values(
        &mut bytes,
        genesis_state_root,
        state_root,
        cumulative_tx_count,
        height,
        activated_rules,
    );
    let digest = keccak256_hash(bytes.as_slice());
    vstd::slice::slice_to_vec(digest.as_slice())
}

impl ChainReceipt {
    /// The chain receipt before any block: height zero, no transaction, the
    /// state root that of genesis.
    pub fn genesis(genesis_state_root: [u8; 32], ids: &ImageIds) -> (chain: ChainReceipt)
        ensures
            chain@.genesis_state_root == genesis_state_root@,
            chain@.state_root == genesis_state_root@,
            chain@.cumulative_tx_count == 0,
            chain@.height == 0,
            chain@.activated_rules == Seq::<u32>::empty(),
            chain_receipt_accepted(chain@, ids.recursion@),
    {
        let activated_rules: Vec<u32> = Vec::new();
        let body = chain_body(&genesis_state_root, &genesis_state_root, 0, 0, &activated_rules);
        ChainReceipt {
            receipt: body,
            genesis_state_root,
            state_root: genesis_state_root,
            cumulative_tx_count: 0,
            height: 0,
            activated_rules,
            program_image_id: ids.recursion,
        }
    }

    /// Whether the receipt is accepted under the recursion image id.
    pub fn verify(&self, recursion_id: &[u8; 32]) -> (accepted: bool)
        ensures
            accepted == chain_receipt_accepted(self@, recursion_id@),
    {
        if !crate::types::bytes32_eq(&self.program_image_id, recursion_id) {
            return false;
        }
        let body = chain_body(
            &self.genesis_state_root,
            &self.state_root,
            self.cumulative_tx_count,
            self.height,
            &self.activated_rules,
        );
        crate::crypto::hash::hex_utils::bytes_equal(self.receipt.as_slice(), body.as_slice())
    }

    /// The receipt as the proof that a block carries, with its public values
    /// as bytes: the rules activated at its height are the last of them.
    pub fn to_proof(&self) -> (proof: ZkProof)
        ensures
            proof@ == chain_proof_spec(self@),
    {
        let mut public_inputs: Vec<u8> = Vec::new();
        assert(public_inputs@ =~= Seq::<u8>::empty());
        write_public_values(
            &mut public_inputs,
            &self.genesis_state_root,
            &self.state_root,
            self.cumulative_tx_count,
            self.height,
            &self.activated_rules,
        );
        assert(public_inputs@ =~= chain_public_values_spec(
            self.genesis_state_root@,
            self.state_root@,
            self.cumulative_tx_count,
            self.height,
            self.activated_rules@,
        ));
        ZkProof {
            proof_data: crate::types::clone_bytes(&self.receipt),
            public_inputs,
            verification_key: vstd::slice::slice_to_vec(self.program_image_id.as_slice()),
            proof_type: ProofType::Risc0,
        }
    }

    /// Folds the base receipt of the next block, and the rules that the block
    /// activates, into the chain receipt. `base_accepted` and `verdicts` are
    /// what the proving backend said of the base receipt and of each rule's
    /// validity receipt.
    #[verifier::loop_isolation(false)]
    pub fn fold(
        &self,
        base: &ZKProofResult,
        base_accepted: bool,
        rules: &[ProtocolRule],
        verdicts: &[bool],
        ids: &ImageIds,
    ) -> (r: Result<ChainReceipt, ComposeError>)
        requires
            verdicts@.len() == rules@.len(),
        ensures
            fold_view(r) == fold_spec(
                self@,
                base@,
                base_accepted,
                item_views(rules@),
                verdicts@,
                ids.state_transition@,
                ids.recursion@,
                ids.amendment@,
            ),
            r matches Ok(next) ==> chain_receipt_accepted(next@, ids.recursion@),
    {
        if !base_accepted || !crate::types::bytes32_eq(
            &base.program_image_id,
            &ids.state_transition,
        ) || !base.public_outputs.success {
            return Err(ComposeError::ProofRejected);
        }
        if !crate::types::bytes32_eq(&base.prev_state_root, &self.state_root) {
            return Err(ComposeError::StateRootMismatch);
        }
        if self.height == u64::MAX || base.first_block != self.height + 1 || base.last_block
            != self.height + 1 {
            return Err(ComposeError::HeightMismatch);
        }
        let height = self.height + 1;
        let count = match self.cumulative_tx_count.checked_add(
            base.public_outputs.transaction_count,
        ) {
            Some(c) => c,
            None => {
                return Err(ComposeError::CountOverflow);
            },
        };
        let ghost views = item_views(rules@);
        let mut activated_rules: Vec<u32> = Vec::new();
        let mut i: usize = 0;
        while i < rules.len()
            invariant
                i <= rules@.len(),
                verdicts@.len() == rules@.len(),
                views == item_views(rules@),
                activated_rules@ == rule_ids(views).subrange(0, i as int),
                rules_check(views, verdicts@, ids.amendment@, height, 0) == rules_check(
                    views,
                    verdicts@,
                    ids.amendment@,
                    height,
                    i as int,
                ),
            decreases rules@.len() - i,
        {
            let rule = &rules[i];
            assert(views[i as int] == rule@);
            if !verdicts[i] || !crate::crypto::hash::hex_utils::bytes_equal(
                rule.validity_proof.verification_key.as_slice(),
                ids.amendment.as_slice(),
            ) {
                return Err(ComposeError::AmendmentReceiptInvalid { rule_id: rule.rule_id });
            }
            if rule.activation_epoch != height {
                return Err(ComposeError::ActivationHeightMismatch { rule_id: rule.rule_id });
            }
            activated_rules.push(rule.rule_id);
            assert(activated_rules@ =~= rule_ids(views).subrange(0, i + 1));
            i += 1;
        }
        assert(activated_rules@ =~= rule_ids(views));
        let body = chain_body(
            &self.genesis_state_root,
            &base.public_outputs.new_state_root,
            count,
            height,
            &activated_rules,
        );
        Ok(
            ChainReceipt {
                receipt: body,
                genesis_state_root: self.genesis_state_root,
                state_root: base.public_outputs.new_state_root,
                cumulative_tx_count: count,
                height,
                activated_rules,
                program_image_id: ids.recursion,
            },
        )
    }
}

/// The bytes that the validity receipt of a rule commits to.
pub open spec fn amendment_body_spec(rule_id: u32, rule_data: Seq<u8>, activation_epoch: u64) -> Seq<u8> {
    keccak256_digest(
        seq![DOMAIN_RECURSION_PUBLIC] + u32::encoding(rule_id) + u64_encoding(activation_epoch)
            + rule_data,
    )
}

/// Whether the deterministic verifier accepts the validity receipt of a rule
/// under the amendment image id.
pub open spec fn amendment_accepted(rule: ProtocolRuleView, amendment_id: Seq<u8>) -> bool {
    &&& rule.validity_proof.verification_key == amendment_id
    &&& rule.validity_proof.proof_data == amendment_body_spec(
        rule.rule_id,
        rule.rule_data,
        rule.activation_epoch,
    )
}

/// The body of the validity receipt of a rule.
fn amendment_body(rule_id: u32, rule_data: &[u8], activation_epoch: u64) -> (body: Vec<u8>)
    ensures
        body@ == amendment_body_spec(rule_id, rule_data@, activation_epoch),
{
    let mut bytes: Vec<u8> = Vec::new();
    bytes.push(DOMAIN_RECURSION_PUBLIC);
    rule_id.write(&mut bytes);
    write_u64(activation_epoch, &mut bytes);
    append_bytes(&mut bytes, rule_data);
    assert(bytes@ =~= seq![DOMAIN_RECURSION_PUBLIC] + u32::encoding(rule_id) + u64_encoding(
        activation_epoch,
    ) + rule_data@);
    let digest = keccak256_hash(bytes.as_slice());
    vstd::slice::slice_to_vec(digest.as_slice())
}

/// A protocol rule with the validity receipt that the deterministic prover
/// gives for it under the amendment image id.
pub fn prove_amendment(rule_id: u32, rule_data: Vec<u8>, activation_epoch: u64, ids: &ImageIds) -> (rule:
    ProtocolRule)
    ensures
        rule@.rule_id == rule_id,
        rule@.rule_data == rule_data@,
        rule@.activation_epoch == activation_epoch,
        amendment_accepted(rule@, ids.amendment@),
{
    let body = amendment_body(rule_id, rule_data.as_slice(), activation_epoch);
    ProtocolRule {
        rule_id,
        rule_data,
        validity_proof: ZkProof {
            proof_data: body,
            public_inputs: Vec::new(),
            verification_key: vstd::slice::slice_to_vec(ids.amendment.as_slice()),
            proof_type: ProofType::Risc0,
        },
        activation_epoch,
    }
}

/// Whether the deterministic verifier accepts the validity receipt of `rule`.
pub fn verify_amendment(rule: &ProtocolRule, amendment_id: &[u8; 32]) -> (accepted: bool)
    ensures
        accepted == amendment_accepted(rule@, amendment_id@),
{
    if !crate::crypto::hash::hex_utils::bytes_equal(
        rule.validity_proof.verification_key.as_slice(),
        amendment_id.as_slice(),
    ) {
        return false;
    }
    let body = amendment_body(rule.rule_id, rule.rule_data.as_slice(), rule.activation_epoch);
    crate::crypto::hash::hex_utils::bytes_equal(
        rule.validity_proof.proof_data.as_slice(),
        body.as_slice(),
    )
}

/// Checks the rules that a block activates at `height`, given what the
/// backend said of each validity receipt.
pub fn check_rules(rules: &[ProtocolRule], verdicts: &[bool], amendment_id: &[u8; 32], height: u64) -> (r:
    Result<(), ComposeError>)
    requires
        verdicts@.len() == rules@.len(),
    ensures
        r == rules_check(item_views(rules@), verdicts@, amendment_id@, height, 0),
{
    let ghost views = item_views(rules@);
    let mut i: usize = 0;
    while i < rules.len()
        invariant
            i <= rules@.len(),
            verdicts@.len() == rules@.len(),
            views == item_views(rules@),
            rules_check(views, verdicts@, amendment_id@, height, 0) == rules_check(
                views,
                verdicts@,
                amendment_id@,
                height,
                i as int,
            ),
        decreases rules@.len() - i,
    {
        let rule = &rules[i];
        assert(views[i as int] == rule@);
        if !verdicts[i] || !crate::crypto::hash::hex_utils::bytes_equal(
            rule.validity_proof.verification_key.as_slice(),
            amendment_id.as_slice(),
        ) {
            return Err(ComposeError::AmendmentReceiptInvalid { rule_id: rule.rule_id });
        }
        if rule.activation_epoch != height {
            return Err(ComposeError::ActivationHeightMismatch { rule_id: rule.rule_id });
        }
        i += 1;
    }
    Ok(())
}

/// What the deterministic verifier says of each rule's validity receipt.
pub fn amendment_verdicts(rules: &[ProtocolRule], amendment_id: &[u8; 32]) -> (verdicts: Vec<bool>)
    ensures
        verdicts@.len() == rules@.len(),
        forall|i: int|
            0 <= i < rules@.len() ==> #[trigger] verdicts@[i] == amendment_accepted(
                rules@[i]@,
                amendment_id@,
            ),
{
    let mut verdicts: Vec<bool> = Vec::new();
    let mut i: usize = 0;
    while i < rules.len()
        invariant
            i <= rules@.len(),
            verdicts@.len() == i,
            forall|j: int|
                0 <= j < i ==> #[trigger] verdicts@[j] == amendment_accepted(
                    rules@[j]@,
                    amendment_id@,
                ),
        decreases rules@.len() - i,
    {
        verdicts.push(verify_amendment(&rules[i], amendment_id));
        i += 1;
    }
    verdicts
}

/// One block as the composer sees it: its base receipt, the rules it
/// activates, and what the backend said of them.
pub struct BlockProof {
    pub base: ReceiptView,
    pub base_accepted: bool,
    pub rules: Seq<ProtocolRuleView>,
    pub verdicts: Seq<bool>,
}

/// The chain receipt after the first `k` of `blocks` are folded into `chain`
/// one after the other.
pub open spec fn fold_run(
    chain: ChainReceiptView,
    blocks: Seq<BlockProof>,
    state_transition_id: Seq<u8>,
    recursion_id: Seq<u8>,
    amendment_id: Seq<u8>,
    k: nat,
) -> Result<ChainReceiptView, ComposeError>
    decreases k,
{
    if k == 0 {
        Ok(chain)
    } else {
        match fold_run(
            chain,
            blocks,
            state_transition_id,
            recursion_id,
            amendment_id,
            (k - 1) as nat,
        ) {
            Err(e) => Err(e),
            Ok(before) => fold_spec(
                before,
                blocks[k - 1].base,
                blocks[k - 1].base_accepted,
                blocks[k - 1].rules,
                blocks[k - 1].verdicts,
                state_transition_id,
                recursion_id,
                amendment_id,
            ),
        }
    }
}

/// The number of transactions that the first `k` blocks hold together.
pub open spec fn transactions_in(blocks: Seq<BlockProof>, k: nat) -> nat
    decreases k,
{
    if k == 0 {
        0
    } else {
        transactions_in(blocks, (k - 1) as nat) + blocks[k - 1].base.transaction_count as nat
    }
}

/// A chain receipt composed over a run of blocks makes public the state root
/// of the last of them: its state root is the new state root of that block's
/// base receipt, its height is the block's, its count is that of all
/// transactions so far, each base receipt starts from the state root of the
/// block before it, and the genesis root is carried through.
pub proof fn lemma_chain_receipt_tracks_blocks(
    chain: ChainReceiptView,
    blocks: Seq<BlockProof>,
    state_transition_id: Seq<u8>,
    recursion_id: Seq<u8>,
    amendment_id: Seq<u8>,
    k: nat,
)
    requires
        k <= blocks.len(),
        fold_run(chain, blocks, state_transition_id, recursion_id, amendment_id, k) is Ok,
    ensures
        ({
            let composed = fold_run(
                chain,
                blocks,
                state_transition_id,
                recursion_id,
                amendment_id,
                k,
            )->Ok_0;
            &&& composed.genesis_state_root == chain.genesis_state_root
            &&& composed.height == chain.height + k
            &&& composed.cumulative_tx_count == chain.cumulative_tx_count + transactions_in(
                blocks,
                k,
            )
            &&& k > 0 ==> composed.state_root == blocks[k - 1].base.new_state_root
            &&& k > 0 ==> blocks[k - 1].base.first_block == chain.height + k
            &&& k > 0 ==> composed.activated_rules == rule_ids(blocks[k - 1].rules)
            &&& forall|i: int|
                0 < i < k ==> (#[trigger] blocks[i]).base.prev_state_root == blocks[i
                    - 1].base.new_state_root
            &&& k > 0 ==> blocks[0].base.prev_state_root == chain.state_root
        }),
    decreases k,
{
    if k > 0 {
        let before = fold_run(
            chain,
            blocks,
            state_transition_id,
            recursion_id,
            amendment_id,
            (k - 1) as nat,
        );
        lemma_chain_receipt_tracks_blocks(
            chain,
            blocks,
            state_transition_id,
            recursion_id,
            amendment_id,
            (k - 1) as nat,
        );
    }
}

/// A rule that passes the composer's check at a height is one whose
/// activation height is that height: a rule for an earlier or a later height
/// is rejected.
pub proof fn lemma_rules_activate_at_height(
    rules: Seq<ProtocolRuleView>,
    verdicts: Seq<bool>,
    amendment_id: Seq<u8>,
    height: u64,
    k: int,
)
    requires
        0 <= k <= rules.len(),
        rules_check(rules, verdicts, amendment_id, height, k) is Ok,
    ensures
        forall|i: int|
            k <= i < rules.len() ==> (#[trigger] rules[i]).activation_epoch == height
                && verdicts[i] && rules[i].validity_proof.verification_key == amendment_id,
    decreases rules.len() - k,
{
    if k < rules.len() {
        lemma_rules_activate_at_height(rules, verdicts, amendment_id, height, k + 1);
    }
}

} // verus!
