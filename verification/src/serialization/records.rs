//! The canonical encoding of the records that go to and from the proving
//! backend, and of validators.

use super::{list_encoding, write_list, Canonical, Items};
use crate::types::{
    Address, BlockHash, Transaction, TransactionView, Validator, ValidatorView, ZkVMContext,
    ZkVMContextView,
};
use crate::zkvm::programs::guest_program::{
    StateTransitionInput, StateTransitionInputView, StateTransitionOutput,
    StateTransitionOutputView, TransactionData, TransactionDataView,
};
use vstd::prelude::*;

verus! {

impl Canonical for bool {
    open spec fn encodable(v: bool) -> bool {
        true
    }

    open spec fn encoding(v: bool) -> Seq<u8> {
        seq![if v {
            1u8
        } else {
            0u8
        }]
    }

    open spec fn parse(b: Seq<u8>) -> Option<(bool, int)> {
        if b.len() < 1 {
            None
        } else if b[0] == 0 {
            Some((false, 1))
        } else if b[0] == 1 {
            Some((true, 1))
        } else {
            None
        }
    }

    proof fn lemma_parse_of_encoding(v: bool, rest: Seq<u8>) {
    }

    proof fn lemma_encoding_of_parse(b: Seq<u8>) {
        if let Some((v, n)) = Self::parse(b) {
            assert(Self::encoding(v) =~= b.subrange(0, 1));
        }
    }

    fn write(&self, out: &mut Vec<u8>) {
        let byte: u8 = if *self {
            1
        } else {
            0
        };
        out.push(byte);
        assert(out@ =~= old(out)@ + Self::encoding(self@));
    }

    fn read(data: &[u8], pos: usize) -> (r: Option<(bool, usize)>) {
        if pos >= data.len() {
            return None;
        }
        let byte = data[pos];
        if byte == 0 {
            Some((false, pos + 1))
        } else if byte == 1 {
            Some((true, pos + 1))
        } else {
            None
        }
    }
}

impl Canonical for [u8; 20] {
    open spec fn encodable(v: Seq<u8>) -> bool {
        v.len() == 20
    }

    open spec fn encoding(v: Seq<u8>) -> Seq<u8> {
        v
    }

    open spec fn parse(b: Seq<u8>) -> Option<(Seq<u8>, int)> {
        super::parse_fixed(b, 20)
    }

    proof fn lemma_parse_of_encoding(v: Seq<u8>, rest: Seq<u8>) {
        assert((v + rest).subrange(0, 20) =~= v);
    }

    proof fn lemma_encoding_of_parse(b: Seq<u8>) {
    }

    fn write(&self, out: &mut Vec<u8>) {
        crate::crypto::hash::append_bytes(out, self.as_slice());
    }

    fn read(data: &[u8], pos: usize) -> (r: Option<([u8; 20], usize)>) {
        super::read_20(data, pos)
    }
}

impl Canonical for [u8; 32] {
    open spec fn encodable(v: Seq<u8>) -> bool {
        v.len() == 32
    }

    open spec fn encoding(v: Seq<u8>) -> Seq<u8> {
        v
    }

    open spec fn parse(b: Seq<u8>) -> Option<(Seq<u8>, int)> {
        super::parse_fixed(b, 32)
    }

    proof fn lemma_parse_of_encoding(v: Seq<u8>, rest: Seq<u8>) {
        assert((v + rest).subrange(0, 32) =~= v);
    }

    proof fn lemma_encoding_of_parse(b: Seq<u8>) {
    }

    fn write(&self, out: &mut Vec<u8>) {
        crate::crypto::hash::append_bytes(out, self.as_slice());
    }

    fn read(data: &[u8], pos: usize) -> (r: Option<([u8; 32], usize)>) {
        super::read_32(data, pos)
    }
}

/// The fields of a transaction of the guest program in the order in which they are written.
pub type TransactionDataFields =
    (
        [u8; 20],
        (
            [u8; 20],
            (
                u64,
                (
                    u64,
                    Vec<u8>,
                ),
            ),
        ),
    );

/// The fields of a transaction of the guest program, in wire order.
pub open spec fn transaction_data_fields(v: TransactionDataView) ->
    (
        Seq<u8>,
        (
            Seq<u8>,
            (
                u64,
                (
                    u64,
                    Seq<u8>,
                ),
            ),
        ),
    ) {
    (
        v.from,
        (
            v.to,
            (
                v.value,
                (
                    v.nonce,
                    v.data,
                ),
            ),
        ),
    )
}

/// A transaction of the guest program with the given fields.
pub open spec fn transaction_data_of_fields(
    f:
        (
            Seq<u8>,
            (
                Seq<u8>,
                (
                    u64,
                    (
                        u64,
                        Seq<u8>,
                    ),
                ),
            ),
        ),
) -> TransactionDataView {
    let
        (
            from,
            (
                to,
                (
                    value,
                    (
                        nonce,
                        data,
                    ),
                ),
            ),
        ) = f;
    TransactionDataView {
        from,
        to,
        value,
        nonce,
        data,
    }
}

impl Canonical for TransactionData {
    open spec fn encodable(v: TransactionDataView) -> bool {
        <TransactionDataFields as Canonical>::encodable(transaction_data_fields(v))
    }

    open spec fn encoding(v: TransactionDataView) -> Seq<u8> {
        <[u8; 20]>::encoding(v.from)
            + <[u8; 20]>::encoding(v.to)
            + u64::encoding(v.value)
            + u64::encoding(v.nonce)
            + <Vec<u8>>::encoding(v.data)
    }

    open spec fn parse(b: Seq<u8>) -> Option<(TransactionDataView, int)> {
        match <TransactionDataFields as Canonical>::parse(b) {
            Some((f, n)) => Some((transaction_data_of_fields(f), n)),
            None => None,
        }
    }

    proof fn lemma_parse_of_encoding(v: TransactionDataView, rest: Seq<u8>) {
        let f = transaction_data_fields(v);
        assert(Self::encoding(v) =~= <TransactionDataFields as Canonical>::encoding(f));
        <TransactionDataFields as Canonical>::lemma_parse_of_encoding(f, rest);
        assert(transaction_data_of_fields(f) == v);
    }

    proof fn lemma_encoding_of_parse(b: Seq<u8>) {
        <TransactionDataFields as Canonical>::lemma_encoding_of_parse(b);
        if let Some((f, n)) = <TransactionDataFields as Canonical>::parse(b) {
            let v = transaction_data_of_fields(f);
            assert(transaction_data_fields(v) == f);
            assert(Self::encoding(v) =~= <TransactionDataFields as Canonical>::encoding(f));
        }
    }

    fn write(&self, out: &mut Vec<u8>) {
        self.from.write(out);
        self.to.write(out);
        self.value.write(out);
        self.nonce.write(out);
        self.data.write(out);
        assert(out@ =~= old(out)@ + Self::encoding(self@));
    }

    fn read(data: &[u8], pos: usize) -> (r: Option<(TransactionData, usize)>) {
        match <TransactionDataFields as Canonical>::read(data, pos) {
            None => None,
            Some(
                (
                    (
                        from,
                        (
                            to,
                            (
                                value,
                                (
                                    nonce,
                                    data,
                                ),
                            ),
                        ),
                    ),
                    next,
                ),
            ) => Some(
                (
                    TransactionData {
                        from,
                        to,
                        value,
                        nonce,
                        data,
                    },
                    next,
                ),
            ),
        }
    }
}

/// The fields of the input of the relation in the order in which they are written.
pub type StateTransitionInputFields =
    (
        [u8; 32],
        (
            Items<TransactionData>,
            (
                u64,
                u64,
            ),
        ),
    );

/// The fields of the input of the relation, in wire order.
pub open spec fn transition_input_fields(v: StateTransitionInputView) ->
    (
        Seq<u8>,
        (
            Seq<TransactionDataView>,
            (
                u64,
                u64,
            ),
        ),
    ) {
    (
        v.prev_state_root,
        (
            v.transactions,
            (
                v.block_number,
                v.timestamp,
            ),
        ),
    )
}

/// The input of the relation with the given fields.
pub open spec fn transition_input_of_fields(
    f:
        (
            Seq<u8>,
            (
                Seq<TransactionDataView>,
                (
                    u64,
                    u64,
                ),
            ),
        ),
) -> StateTransitionInputView {
    let
        (
            prev_state_root,
            (
                transactions,
                (
                    block_number,
                    timestamp,
                ),
            ),
        ) = f;
    StateTransitionInputView {
        prev_state_root,
        transactions,
        block_number,
        timestamp,
    }
}

impl Canonical for StateTransitionInput {
    open spec fn encodable(v: StateTransitionInputView) -> bool {
        <StateTransitionInputFields as Canonical>::encodable(transition_input_fields(v))
    }

    open spec fn encoding(v: StateTransitionInputView) -> Seq<u8> {
        <[u8; 32]>::encoding(v.prev_state_root)
            + list_encoding::<TransactionData>(v.transactions)
            + u64::encoding(v.block_number)
            + u64::encoding(v.timestamp)
    }

    open spec fn parse(b: Seq<u8>) -> Option<(StateTransitionInputView, int)> {
        match <StateTransitionInputFields as Canonical>::parse(b) {
            Some((f, n)) => Some((transition_input_of_fields(f), n)),
            None => None,
        }
    }

    proof fn lemma_parse_of_encoding(v: StateTransitionInputView, rest: Seq<u8>) {
        let f = transition_input_fields(v);
        assert(Self::encoding(v) =~= <StateTransitionInputFields as Canonical>::encoding(f));
        <StateTransitionInputFields as Canonical>::lemma_parse_of_encoding(f, rest);
        assert(transition_input_of_fields(f) == v);
    }

    proof fn lemma_encoding_of_parse(b: Seq<u8>) {
        <StateTransitionInputFields as Canonical>::lemma_encoding_of_parse(b);
        if let Some((f, n)) = <StateTransitionInputFields as Canonical>::parse(b) {
            let v = transition_input_of_fields(f);
            assert(transition_input_fields(v) == f);
            assert(Self::encoding(v) =~= <StateTransitionInputFields as Canonical>::encoding(f));
        }
    }

    fn write(&self, out: &mut Vec<u8>) {
        self.prev_state_root.write(out);
        write_list(&self.transactions, out);
        self.block_number.write(out);
        self.timestamp.write(out);
        assert(out@ =~= old(out)@ + Self::encoding(self@));
    }

    fn read(data: &[u8], pos: usize) -> (r: Option<(StateTransitionInput, usize)>) {
        match <StateTransitionInputFields as Canonical>::read(data, pos) {
            None => None,
            Some(
                (
                    (
                        prev_state_root,
                        (
                            transactions,
                            (
                                block_number,
                                timestamp,
                            ),
                        ),
                    ),
                    next,
                ),
            ) => Some(
                (
                    StateTransitionInput {
                        prev_state_root,
                        transactions: transactions.0,
                        block_number,
                        timestamp,
                    },
                    next,
                ),
            ),
        }
    }
}

/// The fields of the public output of the relation in the order in which they are written.
pub type StateTransitionOutputFields =
    (
        [u8; 32],
        (
            u64,
            (
                u64,
                bool,
            ),
        ),
    );

/// The fields of the public output of the relation, in wire order.
pub open spec fn transition_output_fields(v: StateTransitionOutputView) ->
    (
        Seq<u8>,
        (
            u64,
            (
                u64,
                bool,
            ),
        ),
    ) {
    (
        v.new_state_root,
        (
            v.transaction_count,
            (
                v.gas_used,
                v.success,
            ),
        ),
    )
}

/// The public output of the relation with the given fields.
pub open spec fn transition_output_of_fields(
    f:
        (
            Seq<u8>,
            (
                u64,
                (
                    u64,
                    bool,
                ),
            ),
        ),
) -> StateTransitionOutputView {
    let
        (
            new_state_root,
            (
                transaction_count,
                (
                    gas_used,
                    success,
                ),
            ),
        ) = f;
    StateTransitionOutputView {
        new_state_root,
        transaction_count,
        gas_used,
        success,
    }
}

impl Canonical for StateTransitionOutput {
    open spec fn encodable(v: StateTransitionOutputView) -> bool {
        <StateTransitionOutputFields as Canonical>::encodable(transition_output_fields(v))
    }

    open spec fn encoding(v: StateTransitionOutputView) -> Seq<u8> {
        <[u8; 32]>::encoding(v.new_state_root)
            + u64::encoding(v.transaction_count)
            + u64::encoding(v.gas_used)
            + bool::encoding(v.success)
    }

    open spec fn parse(b: Seq<u8>) -> Option<(StateTransitionOutputView, int)> {
        match <StateTransitionOutputFields as Canonical>::parse(b) {
            Some((f, n)) => Some((transition_output_of_fields(f), n)),
            None => None,
        }
    }

    proof fn lemma_parse_of_encoding(v: StateTransitionOutputView, rest: Seq<u8>) {
        let f = transition_output_fields(v);
        assert(Self::encoding(v) =~= <StateTransitionOutputFields as Canonical>::encoding(f));
        <StateTransitionOutputFields as Canonical>::lemma_parse_of_encoding(f, rest);
        assert(transition_output_of_fields(f) == v);
    }

    proof fn lemma_encoding_of_parse(b: Seq<u8>) {
        <StateTransitionOutputFields as Canonical>::lemma_encoding_of_parse(b);
        if let Some((f, n)) = <StateTransitionOutputFields as Canonical>::parse(b) {
            let v = transition_output_of_fields(f);
            assert(transition_output_fields(v) == f);
            assert(Self::encoding(v) =~= <StateTransitionOutputFields as Canonical>::encoding(f));
        }
    }

    fn write(&self, out: &mut Vec<u8>) {
        self.new_state_root.write(out);
        self.transaction_count.write(out);
        self.gas_used.write(out);
        self.success.write(out);
        assert(out@ =~= old(out)@ + Self::encoding(self@));
    }

    fn read(data: &[u8], pos: usize) -> (r: Option<(StateTransitionOutput, usize)>) {
        match <StateTransitionOutputFields as Canonical>::read(data, pos) {
            None => None,
            Some(
                (
                    (
                        new_state_root,
                        (
                            transaction_count,
                            (
                                gas_used,
                                success,
                            ),
                        ),
                    ),
                    next,
                ),
            ) => Some(
                (
                    StateTransitionOutput {
                        new_state_root,
                        transaction_count,
                        gas_used,
                        success,
                    },
                    next,
                ),
            ),
        }
    }
}

/// The fields of the witness of a block in the order in which they are written.
pub type ZkVMContextFields =
    (
        BlockHash,
        (
            Items<Transaction>,
            (
                u64,
                (
                    u64,
                    u64,
                ),
            ),
        ),
    );

/// The fields of the witness of a block, in wire order.
pub open spec fn witness_fields(v: ZkVMContextView) ->
    (
        Seq<u8>,
        (
            Seq<TransactionView>,
            (
                u64,
                (
                    u64,
                    u64,
                ),
            ),
        ),
    ) {
    (
        v.previous_state_root,
        (
            v.transactions,
            (
                v.block_number,
                (
                    v.timestamp,
                    v.gas_limit,
                ),
            ),
        ),
    )
}

/// The witness of a block with the given fields.
pub open spec fn witness_of_fields(
    f:
        (
            Seq<u8>,
            (
                Seq<TransactionView>,
                (
                    u64,
                    (
                        u64,
                        u64,
                    ),
                ),
            ),
        ),
) -> ZkVMContextView {
    let
        (
            previous_state_root,
            (
                transactions,
                (
                    block_number,
                    (
                        timestamp,
                        gas_limit,
                    ),
                ),
            ),
        ) = f;
    ZkVMContextView {
        previous_state_root,
        transactions,
        block_number,
        timestamp,
        gas_limit,
    }
}

impl Canonical for ZkVMContext {
    open spec fn encodable(v: ZkVMContextView) -> bool {
        <ZkVMContextFields as Canonical>::encodable(witness_fields(v))
    }

    open spec fn encoding(v: ZkVMContextView) -> Seq<u8> {
        BlockHash::encoding(v.previous_state_root)
            + list_encoding::<Transaction>(v.transactions)
            + u64::encoding(v.block_number)
            + u64::encoding(v.timestamp)
            + u64::encoding(v.gas_limit)
    }

    open spec fn parse(b: Seq<u8>) -> Option<(ZkVMContextView, int)> {
        match <ZkVMContextFields as Canonical>::parse(b) {
            Some((f, n)) => Some((witness_of_fields(f), n)),
            None => None,
        }
    }

    proof fn lemma_parse_of_encoding(v: ZkVMContextView, rest: Seq<u8>) {
        let f = witness_fields(v);
        assert(Self::encoding(v) =~= <ZkVMContextFields as Canonical>::encoding(f));
        <ZkVMContextFields as Canonical>::lemma_parse_of_encoding(f, rest);
        assert(witness_of_fields(f) == v);
    }

    proof fn lemma_encoding_of_parse(b: Seq<u8>) {
        <ZkVMContextFields as Canonical>::lemma_encoding_of_parse(b);
        if let Some((f, n)) = <ZkVMContextFields as Canonical>::parse(b) {
            let v = witness_of_fields(f);
            assert(witness_fields(v) == f);
            assert(Self::encoding(v) =~= <ZkVMContextFields as Canonical>::encoding(f));
        }
    }

    fn write(&self, out: &mut Vec<u8>) {
        self.previous_state_root.write(out);
        write_list(&self.transactions, out);
        self.block_number.write(out);
        self.timestamp.write(out);
        self.gas_limit.write(out);
        assert(out@ =~= old(out)@ + Self::encoding(self@));
    }

    fn read(data: &[u8], pos: usize) -> (r: Option<(ZkVMContext, usize)>) {
        match <ZkVMContextFields as Canonical>::read(data, pos) {
            None => None,
            Some(
                (
                    (
                        previous_state_root,
                        (
                            transactions,
                            (
                                block_number,
                                (
                                    timestamp,
                                    gas_limit,
                                ),
                            ),
                        ),
                    ),
                    next,
                ),
            ) => Some(
                (
                    ZkVMContext {
                        previous_state_root,
                        transactions: transactions.0,
                        block_number,
                        timestamp,
                        gas_limit,
                    },
                    next,
                ),
            ),
        }
    }
}

/// The fields of a validator in the order in which they are written.
pub type ValidatorFields =
    (
        Address,
        (
            u64,
            (
                Vec<u8>,
                u64,
            ),
        ),
    );

/// The fields of a validator, in wire order.
pub open spec fn validator_fields(v: ValidatorView) ->
    (
        Seq<u8>,
        (
            u64,
            (
                Seq<u8>,
                u64,
            ),
        ),
    ) {
    (
        v.address,
        (
            v.stake,
            (
                v.public_key,
                v.performance_score,
            ),
        ),
    )
}

/// A validator with the given fields.
pub open spec fn validator_of_fields(
    f:
        (
            Seq<u8>,
            (
                u64,
                (
                    Seq<u8>,
                    u64,
                ),
            ),
        ),
) -> ValidatorView {
    let
        (
            address,
            (
                stake,
                (
                    public_key,
                    performance_score,
                ),
            ),
        ) = f;
    ValidatorView {
        address,
        stake,
        public_key,
        performance_score,
    }
}

impl Canonical for Validator {
    open spec fn encodable(v: ValidatorView) -> bool {
        <ValidatorFields as Canonical>::encodable(validator_fields(v))
    }

    open spec fn encoding(v: ValidatorView) -> Seq<u8> {
        Address::encoding(v.address)
            + u64::encoding(v.stake)
            + <Vec<u8>>::encoding(v.public_key)
            + u64::encoding(v.performance_score)
    }

    open spec fn parse(b: Seq<u8>) -> Option<(ValidatorView, int)> {
        match <ValidatorFields as Canonical>::parse(b) {
            Some((f, n)) => Some((validator_of_fields(f), n)),
            None => None,
        }
    }

    proof fn lemma_parse_of_encoding(v: ValidatorView, rest: Seq<u8>) {
        let f = validator_fields(v);
        assert(Self::encoding(v) =~= <ValidatorFields as Canonical>::encoding(f));
        <ValidatorFields as Canonical>::lemma_parse_of_encoding(f, rest);
        assert(validator_of_fields(f) == v);
    }

    proof fn lemma_encoding_of_parse(b: Seq<u8>) {
        <ValidatorFields as Canonical>::lemma_encoding_of_parse(b);
        if let Some((f, n)) = <ValidatorFields as Canonical>::parse(b) {
            let v = validator_of_fields(f);
            assert(validator_fields(v) == f);
            assert(Self::encoding(v) =~= <ValidatorFields as Canonical>::encoding(f));
        }
    }

    fn write(&self, out: &mut Vec<u8>) {
        self.address.write(out);
        self.stake.write(out);
        self.public_key.write(out);
        self.performance_score.write(out);
        assert(out@ =~= old(out)@ + Self::encoding(self@));
    }

    fn read(data: &[u8], pos: usize) -> (r: Option<(Validator, usize)>) {
        match <ValidatorFields as Canonical>::read(data, pos) {
            None => None,
            Some(
                (
                    (
                        address,
                        (
                            stake,
                            (
                                public_key,
                                performance_score,
                            ),
                        ),
                    ),
                    next,
                ),
            ) => Some(
                (
                    Validator {
                        address,
                        stake,
                        public_key,
                        performance_score,
                    },
                    next,
                ),
            ),
        }
    }
}

} // verus!
