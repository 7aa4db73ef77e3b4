//! The canonical binary encoding of on-chain objects.
//!
//! Every object has exactly one byte string: integers are little-endian at
//! fixed width, addresses take 20 bytes and digests 32, and each field of
//! variable length follows its length, a little-endian `u64`. A list is its
//! number of items followed by the items. Decoding accepts a byte string only
//! if it is the encoding of some object, so encoding and decoding are inverse
//! to each other; the two laws at the end of this module say so.

use crate::types::{
    Account, AccountView, Address, Block, BlockHash, BlockHeader, BlockHeaderView, BlockView,
    ProofType, ProtocolRule, ProtocolRuleView, SignatureType, StorageSlot, Transaction,
    TransactionView, ValidatorSignature, ValidatorSignatureView, ZkProof, ZkProofView,
};
use vstd::bytes::{
    lemma_auto_spec_u64_to_from_le_bytes, spec_u64_from_le_bytes, spec_u64_to_le_bytes,
    u64_from_le_bytes, u64_to_le_bytes,
};
use vstd::prelude::*;

pub mod records;
pub mod state;

verus! {

/// Why bytes were not accepted as an encoding.
#[derive(Debug, Clone, Copy, PartialEq, Eq, Structural)]
pub enum SerializationError {
    /// The bytes do not start with the encoding of an object of the type
    /// asked for.
    Malformed,
    /// The bytes hold an object and more bytes after it.
    TrailingBytes,
    /// A total over the transactions does not fit in 64 bits.
    Overflow,
}

/// A type with a canonical encoding.
///
/// `encoding` gives the bytes of a value, and `parse` reads a value off the
/// front of a byte string, with the number of bytes it took. The two proof
/// obligations tie them together, and every implementation has to discharge
/// them; `write` and `read` are the executable counterparts.
pub trait Canonical: View + Sized {
    /// Whether a value can be encoded: its lengths fit their prefixes and its
    /// fixed-width fields have their width.
    spec fn encodable(v: Self::V) -> bool;

    /// The canonical bytes of a value.
    spec fn encoding(v: Self::V) -> Seq<u8>;

    /// The value at the front of `b`, and the number of bytes it takes.
    spec fn parse(b: Seq<u8>) -> Option<(Self::V, int)>;

    /// Parsing finds a value again at the front of whatever follows its encoding.
    proof fn lemma_parse_of_encoding(v: Self::V, rest: Seq<u8>)
        requires
            Self::encodable(v),
        ensures
            Self::parse(Self::encoding(v) + rest) == Some((v, Self::encoding(v).len() as int)),
    ;

    /// What parsing accepts is the encoding of what it returns.
    proof fn lemma_encoding_of_parse(b: Seq<u8>)
        ensures
            Self::parse(b) matches Some((v, n)) ==> Self::encodable(v) && 0 <= n <= b.len()
                && Self::encoding(v) == b.subrange(0, n),
    ;

    /// Appends the encoding of `self` to `out`.
    fn write(&self, out: &mut Vec<u8>)
        ensures
            Self::encodable(self@),
            final(out)@ == old(out)@ + Self::encoding(self@),
    ;

    /// Reads a value from `data` at `pos`; gives it with the position behind it.
    fn read(data: &[u8], pos: usize) -> (r: Option<(Self, usize)>)
        requires
            pos <= data@.len(),
        ensures
            match Self::parse(data@.skip(pos as int)) {
                Some((v, n)) => r matches Some((x, next)) && x@ == v && next == pos + n,
                None => r is None,
            },
    ;
}

/// The eight little-endian bytes of `v`.
pub open spec fn u64_encoding(v: u64) -> Seq<u8> {
    spec_u64_to_le_bytes(v)
}

/// The `u64` at the front of `b`.
pub open spec fn parse_u64(b: Seq<u8>) -> Option<(u64, int)> {
    if b.len() < 8 {
        None
    } else {
        Some((spec_u64_from_le_bytes(b.subrange(0, 8)), 8))
    }
}

/// `bytes` behind its length.
pub open spec fn bytes_encoding(bytes: Seq<u8>) -> Seq<u8> {
    u64_encoding(bytes.len() as u64) + bytes
}

/// The length-prefixed byte string at the front of `b`.
pub open spec fn parse_bytes(b: Seq<u8>) -> Option<(Seq<u8>, int)> {
    if b.len() < 8 {
        None
    } else {
        let len = spec_u64_from_le_bytes(b.subrange(0, 8)) as int;
        if b.len() - 8 < len {
            None
        } else {
            Some((b.subrange(8, 8 + len), 8 + len))
        }
    }
}

/// The `width` bytes at the front of `b`.
pub open spec fn parse_fixed(b: Seq<u8>, width: int) -> Option<(Seq<u8>, int)> {
    if b.len() < width {
        None
    } else {
        Some((b.subrange(0, width), width))
    }
}

pub proof fn lemma_u64_round_trip(v: u64, rest: Seq<u8>)
    ensures
        u64_encoding(v).len() == 8,
        parse_u64(u64_encoding(v) + rest) == Some((v, 8int)),
{
    lemma_auto_spec_u64_to_from_le_bytes();
    assert((u64_encoding(v) + rest).subrange(0, 8) =~= u64_encoding(v));
}

pub proof fn lemma_u64_parse_sound(b: Seq<u8>)
    ensures
        parse_u64(b) matches Some((v, n)) ==> n == 8 && b.len() >= 8 && u64_encoding(v)
            == b.subrange(0, 8),
{
    lemma_auto_spec_u64_to_from_le_bytes();
    if b.len() >= 8 {
        let s = b.subrange(0, 8);
        assert(spec_u64_to_le_bytes(spec_u64_from_le_bytes(s)) == s);
    }
}

pub proof fn lemma_bytes_round_trip(bytes: Seq<u8>, rest: Seq<u8>)
    requires
        bytes.len() <= u64::MAX,
    ensures
        bytes_encoding(bytes).len() == 8 + bytes.len(),
        parse_bytes(bytes_encoding(bytes) + rest) == Some((bytes, 8 + bytes.len() as int)),
{
    lemma_auto_spec_u64_to_from_le_bytes();
    let b = bytes_encoding(bytes) + rest;
    assert(b.subrange(0, 8) =~= u64_encoding(bytes.len() as u64));
    assert(b.subrange(8, 8 + bytes.len() as int) =~= bytes);
}

pub proof fn lemma_bytes_parse_sound(b: Seq<u8>)
    ensures
        parse_bytes(b) matches Some((bytes, n)) ==> n == 8 + bytes.len() && n <= b.len()
            && bytes.len() <= u64::MAX && bytes_encoding(bytes) == b.subrange(0, n),
{
    lemma_auto_spec_u64_to_from_le_bytes();
    if let Some((bytes, n)) = parse_bytes(b) {
        let s = b.subrange(0, 8);
        assert(spec_u64_to_le_bytes(spec_u64_from_le_bytes(s)) == s);
        assert(bytes_encoding(bytes) =~= b.subrange(0, n));
    }
}

/// Appends the little-endian bytes of `v`.
pub fn write_u64(v: u64, out: &mut Vec<u8>)
    ensures
        final(out)@ == old(out)@ + u64_encoding(v),
{
    let bytes = u64_to_le_bytes(v);
    crate::crypto::hash::append_bytes(out, bytes.as_slice());
}

/// Reads a little-endian `u64` at `pos`.
pub fn read_u64(data: &[u8], pos: usize) -> (r: Option<(u64, usize)>)
    requires
        pos <= data@.len(),
    ensures
        match parse_u64(data@.skip(pos as int)) {
            Some((v, n)) => r matches Some((x, next)) && x == v && next == pos + n && next
                <= data@.len(),
            None => r is None,
        },
{
    if data.len() - pos < 8 {
        return None;
    }
    let window = vstd::slice::slice_subrange(data, pos, pos + 8);
    assert(window@ =~= data@.skip(pos as int).subrange(0, 8));
    Some((u64_from_le_bytes(window), pos + 8))
}

/// Appends `bytes` behind its length.
pub fn write_bytes(bytes: &[u8], out: &mut Vec<u8>)
    ensures
        bytes@.len() <= u64::MAX,
        final(out)@ == old(out)@ + bytes_encoding(bytes@),
{
    write_u64(bytes.len() as u64, out);
    crate::crypto::hash::append_bytes(out, bytes);
    assert(out@ =~= old(out)@ + bytes_encoding(bytes@));
}

/// Reads a length-prefixed byte string at `pos`.
pub fn read_bytes(data: &[u8], pos: usize) -> (r: Option<(Vec<u8>, usize)>)
    requires
        pos <= data@.len(),
    ensures
        match parse_bytes(data@.skip(pos as int)) {
            Some((v, n)) => r matches Some((x, next)) && x@ == v && next == pos + n && next
                <= data@.len(),
            None => r is None,
        },
{
    let (len, start) = match read_u64(data, pos) {
        Some(r) => r,
        None => {
            return None;
        },
    };
    if ((data.len() - start) as u64) < len {
        return None;
    }
    let len = len as usize;
    let window = vstd::slice::slice_subrange(data, start, start + len);
    assert(window@ =~= data@.skip(pos as int).subrange(8, 8 + len));
    Some((vstd::slice::slice_to_vec(window), start + len))
}

/// Reads 20 bytes at `pos`.
pub fn read_20(data: &[u8], pos: usize) -> (r: Option<([u8; 20], usize)>)
    requires
        pos <= data@.len(),
    ensures
        match parse_fixed(data@.skip(pos as int), 20) {
            Some((v, n)) => r matches Some((x, next)) && x@ == v && next == pos + n && next
                <= data@.len(),
            None => r is None,
        },
{
    if data.len() - pos < 20 {
        return None;
    }
    let mut out = [0u8; 20];
    let mut i: usize = 0;
    while i < 20
        invariant
            i <= 20,
            pos + 20 <= data.len(),
            forall|j: int| 0 <= j < i ==> out@[j] == data@[pos + j],
        decreases 20 - i,
    {
        out[i] = data[pos + i];
        i += 1;
    }
    assert(out@ =~= data@.skip(pos as int).subrange(0, 20));
    Some((out, pos + 20))
}

/// Reads 32 bytes at `pos`.
pub fn read_32(data: &[u8], pos: usize) -> (r: Option<([u8; 32], usize)>)
    requires
        pos <= data@.len(),
    ensures
        match parse_fixed(data@.skip(pos as int), 32) {
            Some((v, n)) => r matches Some((x, next)) && x@ == v && next == pos + n && next
                <= data@.len(),
            None => r is None,
        },
{
    if data.len() - pos < 32 {
        return None;
    }
    let mut out = [0u8; 32];
    let mut i: usize = 0;
    while i < 32
        invariant
            i <= 32,
            pos + 32 <= data.len(),
            forall|j: int| 0 <= j < i ==> out@[j] == data@[pos + j],
        decreases 32 - i,
    {
        out[i] = data[pos + i];
        i += 1;
    }
    assert(out@ =~= data@.skip(pos as int).subrange(0, 32));
    Some((out, pos + 32))
}

impl Canonical for Address {
    open spec fn encodable(v: Seq<u8>) -> bool {
        v.len() == 20
    }

    open spec fn encoding(v: Seq<u8>) -> Seq<u8> {
        v
    }

    open spec fn parse(b: Seq<u8>) -> Option<(Seq<u8>, int)> {
        parse_fixed(b, 20)
    }

    proof fn lemma_parse_of_encoding(v: Seq<u8>, rest: Seq<u8>) {
        assert((v + rest).subrange(0, 20) =~= v);
    }

    proof fn lemma_encoding_of_parse(b: Seq<u8>) {
    }

    fn write(&self, out: &mut Vec<u8>) {
        crate::crypto::hash::append_bytes(out, self.0.as_slice());
    }

    fn read(data: &[u8], pos: usize) -> (r: Option<(Address, usize)>) {
        match read_20(data, pos) {
            Some((bytes, next)) => Some((Address(bytes), next)),
            None => None,
        }
    }
}

impl Canonical for BlockHash {
    open spec fn encodable(v: Seq<u8>) -> bool {
        v.len() == 32
    }

    open spec fn encoding(v: Seq<u8>) -> Seq<u8> {
        v
    }

    open spec fn parse(b: Seq<u8>) -> Option<(Seq<u8>, int)> {
        parse_fixed(b, 32)
    }

    proof fn lemma_parse_of_encoding(v: Seq<u8>, rest: Seq<u8>) {
        assert((v + rest).subrange(0, 32) =~= v);
    }

    proof fn lemma_encoding_of_parse(b: Seq<u8>) {
    }

    fn write(&self, out: &mut Vec<u8>) {
        crate::crypto::hash::append_bytes(out, self.0.as_slice());
    }

    fn read(data: &[u8], pos: usize) -> (r: Option<(BlockHash, usize)>) {
        match read_32(data, pos) {
            Some((bytes, next)) => Some((BlockHash(bytes), next)),
            None => None,
        }
    }
}

impl Canonical for u64 {
    open spec fn encodable(v: u64) -> bool {
        true
    }

    open spec fn encoding(v: u64) -> Seq<u8> {
        u64_encoding(v)
    }

    open spec fn parse(b: Seq<u8>) -> Option<(u64, int)> {
        parse_u64(b)
    }

    proof fn lemma_parse_of_encoding(v: u64, rest: Seq<u8>) {
        lemma_u64_round_trip(v, rest);
    }

    proof fn lemma_encoding_of_parse(b: Seq<u8>) {
        lemma_u64_parse_sound(b);
    }

    fn write(&self, out: &mut Vec<u8>) {
        write_u64(*self, out);
    }

    fn read(data: &[u8], pos: usize) -> (r: Option<(u64, usize)>) {
        read_u64(data, pos)
    }
}

impl Canonical for u32 {
    open spec fn encodable(v: u32) -> bool {
        true
    }

    open spec fn encoding(v: u32) -> Seq<u8> {
        vstd::bytes::spec_u32_to_le_bytes(v)
    }

    open spec fn parse(b: Seq<u8>) -> Option<(u32, int)> {
        if b.len() < 4 {
            None
        } else {
            Some((vstd::bytes::spec_u32_from_le_bytes(b.subrange(0, 4)), 4))
        }
    }

    proof fn lemma_parse_of_encoding(v: u32, rest: Seq<u8>) {
        vstd::bytes::lemma_auto_spec_u32_to_from_le_bytes();
        assert((Self::encoding(v) + rest).subrange(0, 4) =~= Self::encoding(v));
    }

    proof fn lemma_encoding_of_parse(b: Seq<u8>) {
        vstd::bytes::lemma_auto_spec_u32_to_from_le_bytes();
        if b.len() >= 4 {
            let s = b.subrange(0, 4);
            assert(vstd::bytes::spec_u32_to_le_bytes(vstd::bytes::spec_u32_from_le_bytes(s)) == s);
        }
    }

    fn write(&self, out: &mut Vec<u8>) {
        let bytes = vstd::bytes::u32_to_le_bytes(*self);
        crate::crypto::hash::append_bytes(out, bytes.as_slice());
    }

    fn read(data: &[u8], pos: usize) -> (r: Option<(u32, usize)>) {
        if data.len() - pos < 4 {
            return None;
        }
        let window = vstd::slice::slice_subrange(data, pos, pos + 4);
        assert(window@ =~= data@.skip(pos as int).subrange(0, 4));
        Some((vstd::bytes::u32_from_le_bytes(window), pos + 4))
    }
}

impl Canonical for Vec<u8> {
    open spec fn encodable(v: Seq<u8>) -> bool {
        v.len() <= u64::MAX
    }

    open spec fn encoding(v: Seq<u8>) -> Seq<u8> {
        bytes_encoding(v)
    }

    open spec fn parse(b: Seq<u8>) -> Option<(Seq<u8>, int)> {
        parse_bytes(b)
    }

    proof fn lemma_parse_of_encoding(v: Seq<u8>, rest: Seq<u8>) {
        lemma_bytes_round_trip(v, rest);
    }

    proof fn lemma_encoding_of_parse(b: Seq<u8>) {
        lemma_bytes_parse_sound(b);
    }

    fn write(&self, out: &mut Vec<u8>) {
        write_bytes(self.as_slice(), out);
    }

    fn read(data: &[u8], pos: usize) -> (r: Option<(Vec<u8>, usize)>) {
        read_bytes(data, pos)
    }
}

/// The byte that stands for a signature scheme.
pub open spec fn signature_type_tag(t: SignatureType) -> u8 {
    match t {
        SignatureType::Ed25519 => 0,
        SignatureType::Secp256k1 => 1,
        SignatureType::PostQuantum => 2,
    }
}

/// The byte that stands for a proof system.
pub open spec fn proof_type_tag(t: ProofType) -> u8 {
    match t {
        ProofType::SP1 => 0,
        ProofType::Risc0 => 1,
        ProofType::Plonky3 => 2,
    }
}

impl Canonical for SignatureType {
    open spec fn encodable(v: SignatureType) -> bool {
        true
    }

    open spec fn encoding(v: SignatureType) -> Seq<u8> {
        seq![signature_type_tag(v)]
    }

    open spec fn parse(b: Seq<u8>) -> Option<(SignatureType, int)> {
        if b.len() < 1 {
            None
        } else if b[0] == 0 {
            Some((SignatureType::Ed25519, 1))
        } else if b[0] == 1 {
            Some((SignatureType::Secp256k1, 1))
        } else if b[0] == 2 {
            Some((SignatureType::PostQuantum, 1))
        } else {
            None
        }
    }

    proof fn lemma_parse_of_encoding(v: SignatureType, rest: Seq<u8>) {
    }

    proof fn lemma_encoding_of_parse(b: Seq<u8>) {
        if let Some((v, n)) = Self::parse(b) {
            assert(Self::encoding(v) =~= b.subrange(0, 1));
        }
    }

    fn write(&self, out: &mut Vec<u8>) {
        let tag: u8 = match self {
            SignatureType::Ed25519 => 0,
            SignatureType::Secp256k1 => 1,
            SignatureType::PostQuantum => 2,
        };
        out.push(tag);
        assert(out@ =~= old(out)@ + Self::encoding(self@));
    }

    fn read(data: &[u8], pos: usize) -> (r: Option<(SignatureType, usize)>) {
        if pos >= data.len() {
            return None;
        }
        let tag = data[pos];
        if tag == 0 {
            Some((SignatureType::Ed25519, pos + 1))
        } else if tag == 1 {
            Some((SignatureType::Secp256k1, pos + 1))
        } else if tag == 2 {
            Some((SignatureType::PostQuantum, pos + 1))
        } else {
            None
        }
    }
}

impl Canonical for ProofType {
    open spec fn encodable(v: ProofType) -> bool {
        true
    }

    open spec fn encoding(v: ProofType) -> Seq<u8> {
        seq![proof_type_tag(v)]
    }

    open spec fn parse(b: Seq<u8>) -> Option<(ProofType, int)> {
        if b.len() < 1 {
            None
        } else if b[0] == 0 {
            Some((ProofType::SP1, 1))
        } else if b[0] == 1 {
            Some((ProofType::Risc0, 1))
        } else if b[0] == 2 {
            Some((ProofType::Plonky3, 1))
        } else {
            None
        }
    }

    proof fn lemma_parse_of_encoding(v: ProofType, rest: Seq<u8>) {
    }

    proof fn lemma_encoding_of_parse(b: Seq<u8>) {
        if let Some((v, n)) = Self::parse(b) {
            assert(Self::encoding(v) =~= b.subrange(0, 1));
        }
    }

    fn write(&self, out: &mut Vec<u8>) {
        let tag: u8 = match self {
            ProofType::SP1 => 0,
            ProofType::Risc0 => 1,
            ProofType::Plonky3 => 2,
        };
        out.push(tag);
        assert(out@ =~= old(out)@ + Self::encoding(self@));
    }

    fn read(data: &[u8], pos: usize) -> (r: Option<(ProofType, usize)>) {
        if pos >= data.len() {
            return None;
        }
        let tag = data[pos];
        if tag == 0 {
            Some((ProofType::SP1, pos + 1))
        } else if tag == 1 {
            Some((ProofType::Risc0, pos + 1))
        } else if tag == 2 {
            Some((ProofType::Plonky3, pos + 1))
        } else {
            None
        }
    }
}

/// Two values one after the other.
impl<A: Canonical, B: Canonical> Canonical for (A, B) {
    open spec fn encodable(v: (A::V, B::V)) -> bool {
        A::encodable(v.0) && B::encodable(v.1)
    }

    open spec fn encoding(v: (A::V, B::V)) -> Seq<u8> {
        A::encoding(v.0) + B::encoding(v.1)
    }

    open spec fn parse(b: Seq<u8>) -> Option<((A::V, B::V), int)> {
        match A::parse(b) {
            None => None,
            Some((first, n)) => match B::parse(b.skip(n)) {
                None => None,
                Some((second, m)) => Some(((first, second), n + m)),
            },
        }
    }

    proof fn lemma_parse_of_encoding(v: (A::V, B::V), rest: Seq<u8>) {
        let tail = B::encoding(v.1) + rest;
        A::lemma_parse_of_encoding(v.0, tail);
        B::lemma_parse_of_encoding(v.1, rest);
        assert(Self::encoding(v) + rest =~= A::encoding(v.0) + tail);
        assert((A::encoding(v.0) + tail).skip(A::encoding(v.0).len() as int) =~= tail);
    }

    proof fn lemma_encoding_of_parse(b: Seq<u8>) {
        A::lemma_encoding_of_parse(b);
        if let Some((first, n)) = A::parse(b) {
            B::lemma_encoding_of_parse(b.skip(n));
            if let Some((second, m)) = B::parse(b.skip(n)) {
                assert(b.subrange(0, n + m) =~= b.subrange(0, n) + b.skip(n).subrange(0, m));
            }
        }
    }

    fn write(&self, out: &mut Vec<u8>) {
        self.0.write(out);
        self.1.write(out);
        assert(out@ =~= old(out)@ + Self::encoding(self@));
    }

    fn read(data: &[u8], pos: usize) -> (r: Option<((A, B), usize)>) {
        proof {
            A::lemma_encoding_of_parse(data@.skip(pos as int));
        }
        match A::read(data, pos) {
            None => None,
            Some((first, middle)) => {
                assert(data@.skip(pos as int).skip(middle - pos) =~= data@.skip(middle as int));
                match B::read(data, middle) {
                    None => None,
                    Some((second, next)) => Some(((first, second), next)),
                }
            },
        }
    }
}

/// The fields of a transaction in the order in which they are written.
pub type TransactionFields =
    (
        Address,
        (
            Address,
            (
                u64,
                (
                    u64,
                    (
                        u64,
                        (
                            Vec<u8>,
                            (
                                SignatureType,
                                Vec<u8>,
                            ),
                        ),
                    ),
                ),
            ),
        ),
    );

/// The fields of a transaction, in wire order.
pub open spec fn transaction_fields(v: TransactionView) ->
    (
        Seq<u8>,
        (
            Seq<u8>,
            (
                u64,
                (
                    u64,
                    (
                        u64,
                        (
                            Seq<u8>,
                            (
                                SignatureType,
                                Seq<u8>,
                            ),
                        ),
                    ),
                ),
            ),
        ),
    ) {
    (
        v.from,
        (
            v.to,
            (
                v.value,
                (
                    v.nonce,
                    (
                        v.gas_limit,
                        (
                            v.data,
                            (
                                v.sig_type,
                                v.signature,
                            ),
                        ),
                    ),
                ),
            ),
        ),
    )
}

/// A transaction with the given fields.
pub open spec fn transaction_of_fields(
    f:
        (
            Seq<u8>,
            (
                Seq<u8>,
                (
                    u64,
                    (
                        u64,
                        (
                            u64,
                            (
                                Seq<u8>,
                                (
                                    SignatureType,
                                    Seq<u8>,
                                ),
                            ),
                        ),
                    ),
                ),
            ),
        ),
) -> TransactionView {
    let
        (
            from,
            (
                to,
                (
                    value,
                    (
                        nonce,
                        (
                            gas_limit,
                            (
                                data,
                                (
                                    sig_type,
                                    signature,
                                ),
                            ),
                        ),
                    ),
                ),
            ),
        ) = f;
    TransactionView {
        from,
        to,
        value,
        nonce,
        gas_limit,
        data,
        sig_type,
        signature,
    }
}

impl Canonical for Transaction {
    open spec fn encodable(v: TransactionView) -> bool {
        <TransactionFields as Canonical>::encodable(transaction_fields(v))
    }

    open spec fn encoding(v: TransactionView) -> Seq<u8> {
        Address::encoding(v.from)
            + Address::encoding(v.to)
            + u64::encoding(v.value)
            + u64::encoding(v.nonce)
            + u64::encoding(v.gas_limit)
            + <Vec<u8>>::encoding(v.data)
            + SignatureType::encoding(v.sig_type)
            + <Vec<u8>>::encoding(v.signature)
    }

    open spec fn parse(b: Seq<u8>) -> Option<(TransactionView, int)> {
        match <TransactionFields as Canonical>::parse(b) {
            Some((f, n)) => Some((transaction_of_fields(f), n)),
            None => None,
        }
    }

    proof fn lemma_parse_of_encoding(v: TransactionView, rest: Seq<u8>) {
        let f = transaction_fields(v);
        assert(Self::encoding(v) =~= <TransactionFields as Canonical>::encoding(f));
        <TransactionFields as Canonical>::lemma_parse_of_encoding(f, rest);
        assert(transaction_of_fields(f) == v);
    }

    proof fn lemma_encoding_of_parse(b: Seq<u8>) {
        <TransactionFields as Canonical>::lemma_encoding_of_parse(b);
        if let Some((f, n)) = <TransactionFields as Canonical>::parse(b) {
            let v = transaction_of_fields(f);
            assert(transaction_fields(v) == f);
            assert(Self::encoding(v) =~= <TransactionFields as Canonical>::encoding(f));
        }
    }

    fn write(&self, out: &mut Vec<u8>) {
        self.from.write(out);
        self.to.write(out);
        self.value.write(out);
        self.nonce.write(out);
        self.gas_limit.write(out);
        self.data.write(out);
        self.sig_type.write(out);
        self.signature.write(out);
        assert(out@ =~= old(out)@ + Self::encoding(self@));
    }

    fn read(data: &[u8], pos: usize) -> (r: Option<(Transaction, usize)>) {
        match <TransactionFields as Canonical>::read(data, pos) {
            None => None,
            Some(
                (
                    (
                        from,
                        (
                            to,
                            (
                                value,
                                (
                                    nonce,
                                    (
                                        gas_limit,
                                        (
                                            data,
                                            (
                                                sig_type,
                                                signature,
                                            ),
                                        ),
                                    ),
                                ),
                            ),
                        ),
                    ),
                    next,
                ),
            ) => Some(
                (
                    Transaction {
                        from,
                        to,
                        value,
                        nonce,
                        gas_limit,
                        data,
                        sig_type,
                        signature,
                    },
                    next,
                ),
            ),
        }
    }
}

/// The fields of a block header in the order in which they are written.
pub type BlockHeaderFields =
    (
        BlockHash,
        (
            BlockHash,
            (
                BlockHash,
                (
                    u64,
                    (
                        u64,
                        (
                            u64,
                            (
                                u64,
                                (
                                    Address,
                                    Vec<u8>,
                                ),
                            ),
                        ),
                    ),
                ),
            ),
        ),
    );

/// The fields of a block header, in wire order.
pub open spec fn block_header_fields(v: BlockHeaderView) ->
    (
        Seq<u8>,
        (
            Seq<u8>,
            (
                Seq<u8>,
                (
                    u64,
                    (
                        u64,
                        (
                            u64,
                            (
                                u64,
                                (
                                    Seq<u8>,
                                    Seq<u8>,
                                ),
                            ),
                        ),
                    ),
                ),
            ),
        ),
    ) {
    (
        v.previous_hash,
        (
            v.merkle_root,
            (
                v.state_root,
                (
                    v.timestamp,
                    (
                        v.block_number,
                        (
                            v.gas_used,
                            (
                                v.gas_limit,
                                (
                                    v.producer,
                                    v.extra_data,
                                ),
                            ),
                        ),
                    ),
                ),
            ),
        ),
    )
}

/// A block header with the given fields.
pub open spec fn block_header_of_fields(
    f:
        (
            Seq<u8>,
            (
                Seq<u8>,
                (
                    Seq<u8>,
                    (
                        u64,
                        (
                            u64,
                            (
                                u64,
                                (
                                    u64,
                                    (
                                        Seq<u8>,
                                        Seq<u8>,
                                    ),
                                ),
                            ),
                        ),
                    ),
                ),
            ),
        ),
) -> BlockHeaderView {
    let
        (
            previous_hash,
            (
                merkle_root,
                (
                    state_root,
                    (
                        timestamp,
                        (
                            block_number,
                            (
                                gas_used,
                                (
                                    gas_limit,
                                    (
                                        producer,
                                        extra_data,
                                    ),
                                ),
                            ),
                        ),
                    ),
                ),
            ),
        ) = f;
    BlockHeaderView {
        previous_hash,
        merkle_root,
        state_root,
        timestamp,
        block_number,
        gas_used,
        gas_limit,
        producer,
        extra_data,
    }
}

impl Canonical for BlockHeader {
    open spec fn encodable(v: BlockHeaderView) -> bool {
        <BlockHeaderFields as Canonical>::encodable(block_header_fields(v))
    }

    open spec fn encoding(v: BlockHeaderView) -> Seq<u8> {
        BlockHash::encoding(v.previous_hash)
            + BlockHash::encoding(v.merkle_root)
            + BlockHash::encoding(v.state_root)
            + u64::encoding(v.timestamp)
            + u64::encoding(v.block_number)
            + u64::encoding(v.gas_used)
            + u64::encoding(v.gas_limit)
            + Address::encoding(v.producer)
            + <Vec<u8>>::encoding(v.extra_data)
    }

    open spec fn parse(b: Seq<u8>) -> Option<(BlockHeaderView, int)> {
        match <BlockHeaderFields as Canonical>::parse(b) {
            Some((f, n)) => Some((block_header_of_fields(f), n)),
            None => None,
        }
    }

    proof fn lemma_parse_of_encoding(v: BlockHeaderView, rest: Seq<u8>) {
        let f = block_header_fields(v);
        assert(Self::encoding(v) =~= <BlockHeaderFields as Canonical>::encoding(f));
        <BlockHeaderFields as Canonical>::lemma_parse_of_encoding(f, rest);
        assert(block_header_of_fields(f) == v);
    }

    proof fn lemma_encoding_of_parse(b: Seq<u8>) {
        <BlockHeaderFields as Canonical>::lemma_encoding_of_parse(b);
        if let Some((f, n)) = <BlockHeaderFields as Canonical>::parse(b) {
            let v = block_header_of_fields(f);
            assert(block_header_fields(v) == f);
            assert(Self::encoding(v) =~= <BlockHeaderFields as Canonical>::encoding(f));
        }
    }

    fn write(&self, out: &mut Vec<u8>) {
        self.previous_hash.write(out);
        self.merkle_root.write(out);
        self.state_root.write(out);
        self.timestamp.write(out);
        self.block_number.write(out);
        self.gas_used.write(out);
        self.gas_limit.write(out);
        self.producer.write(out);
        self.extra_data.write(out);
        assert(out@ =~= old(out)@ + Self::encoding(self@));
    }

    fn read(data: &[u8], pos: usize) -> (r: Option<(BlockHeader, usize)>) {
        match <BlockHeaderFields as Canonical>::read(data, pos) {
            None => None,
            Some(
                (
                    (
                        previous_hash,
                        (
                            merkle_root,
                            (
                                state_root,
                                (
                                    timestamp,
                                    (
                                        block_number,
                                        (
                                            gas_used,
                                            (
                                                gas_limit,
                                                (
                                                    producer,
                                                    extra_data,
                                                ),
                                            ),
                                        ),
                                    ),
                                ),
                            ),
                        ),
                    ),
                    next,
                ),
            ) => Some(
                (
                    BlockHeader {
                        previous_hash,
                        merkle_root,
                        state_root,
                        timestamp,
                        block_number,
                        gas_used,
                        gas_limit,
                        producer,
                        extra_data,
                    },
                    next,
                ),
            ),
        }
    }
}

/// The fields of an attestation in the order in which they are written.
pub type ValidatorSignatureFields =
    (
        Address,
        (
            u64,
            (
                SignatureType,
                Vec<u8>,
            ),
        ),
    );

/// The fields of an attestation, in wire order.
pub open spec fn validator_signature_fields(v: ValidatorSignatureView) ->
    (
        Seq<u8>,
        (
            u64,
            (
                SignatureType,
                Seq<u8>,
            ),
        ),
    ) {
    (
        v.validator_address,
        (
            v.stake_weight,
            (
                v.sig_type,
                v.signature,
            ),
        ),
    )
}

/// An attestation with the given fields.
pub open spec fn validator_signature_of_fields(
    f:
        (
            Seq<u8>,
            (
                u64,
                (
                    SignatureType,
                    Seq<u8>,
                ),
            ),
        ),
) -> ValidatorSignatureView {
    let
        (
            validator_address,
            (
                stake_weight,
                (
                    sig_type,
                    signature,
                ),
            ),
        ) = f;
    ValidatorSignatureView {
        validator_address,
        stake_weight,
        sig_type,
        signature,
    }
}

impl Canonical for ValidatorSignature {
    open spec fn encodable(v: ValidatorSignatureView) -> bool {
        <ValidatorSignatureFields as Canonical>::encodable(validator_signature_fields(v))
    }

    open spec fn encoding(v: ValidatorSignatureView) -> Seq<u8> {
        Address::encoding(v.validator_address)
            + u64::encoding(v.stake_weight)
            + SignatureType::encoding(v.sig_type)
            + <Vec<u8>>::encoding(v.signature)
    }

    open spec fn parse(b: Seq<u8>) -> Option<(ValidatorSignatureView, int)> {
        match <ValidatorSignatureFields as Canonical>::parse(b) {
            Some((f, n)) => Some((validator_signature_of_fields(f), n)),
            None => None,
        }
    }

    proof fn lemma_parse_of_encoding(v: ValidatorSignatureView, rest: Seq<u8>) {
        let f = validator_signature_fields(v);
        assert(Self::encoding(v) =~= <ValidatorSignatureFields as Canonical>::encoding(f));
        <ValidatorSignatureFields as Canonical>::lemma_parse_of_encoding(f, rest);
        assert(validator_signature_of_fields(f) == v);
    }

    proof fn lemma_encoding_of_parse(b: Seq<u8>) {
        <ValidatorSignatureFields as Canonical>::lemma_encoding_of_parse(b);
        if let Some((f, n)) = <ValidatorSignatureFields as Canonical>::parse(b) {
            let v = validator_signature_of_fields(f);
            assert(validator_signature_fields(v) == f);
            assert(Self::encoding(v) =~= <ValidatorSignatureFields as Canonical>::encoding(f));
        }
    }

    fn write(&self, out: &mut Vec<u8>) {
        self.validator_address.write(out);
        self.stake_weight.write(out);
        self.sig_type.write(out);
        self.signature.write(out);
        assert(out@ =~= old(out)@ + Self::encoding(self@));
    }

    fn read(data: &[u8], pos: usize) -> (r: Option<(ValidatorSignature, usize)>) {
        match <ValidatorSignatureFields as Canonical>::read(data, pos) {
            None => None,
            Some(
                (
                    (
                        validator_address,
                        (
                            stake_weight,
                            (
                                sig_type,
                                signature,
                            ),
                        ),
                    ),
                    next,
                ),
            ) => Some(
                (
                    ValidatorSignature {
                        validator_address,
                        stake_weight,
                        sig_type,
                        signature,
                    },
                    next,
                ),
            ),
        }
    }
}

/// The fields of a proof in the order in which they are written.
pub type ZkProofFields =
    (
        Vec<u8>,
        (
            Vec<u8>,
            (
                Vec<u8>,
                ProofType,
            ),
        ),
    );

/// The fields of a proof, in wire order.
pub open spec fn zk_proof_fields(v: ZkProofView) ->
    (
        Seq<u8>,
        (
            Seq<u8>,
            (
                Seq<u8>,
                ProofType,
            ),
        ),
    ) {
    (
        v.proof_data,
        (
            v.public_inputs,
            (
                v.verification_key,
                v.proof_type,
            ),
        ),
    )
}

/// A proof with the given fields.
pub open spec fn zk_proof_of_fields(
    f:
        (
            Seq<u8>,
            (
                Seq<u8>,
                (
                    Seq<u8>,
                    ProofType,
                ),
            ),
        ),
) -> ZkProofView {
    let
        (
            proof_data,
            (
                public_inputs,
                (
                    verification_key,
                    proof_type,
                ),
            ),
        ) = f;
    ZkProofView {
        proof_data,
        public_inputs,
        verification_key,
        proof_type,
    }
}

impl Canonical for ZkProof {
    open spec fn encodable(v: ZkProofView) -> bool {
        <ZkProofFields as Canonical>::encodable(zk_proof_fields(v))
    }

    open spec fn encoding(v: ZkProofView) -> Seq<u8> {
        <Vec<u8>>::encoding(v.proof_data)
            + <Vec<u8>>::encoding(v.public_inputs)
            + <Vec<u8>>::encoding(v.verification_key)
            + ProofType::encoding(v.proof_type)
    }

    open spec fn parse(b: Seq<u8>) -> Option<(ZkProofView, int)> {
        match <ZkProofFields as Canonical>::parse(b) {
            Some((f, n)) => Some((zk_proof_of_fields(f), n)),
            None => None,
        }
    }

    proof fn lemma_parse_of_encoding(v: ZkProofView, rest: Seq<u8>) {
        let f = zk_proof_fields(v);
        assert(Self::encoding(v) =~= <ZkProofFields as Canonical>::encoding(f));
        <ZkProofFields as Canonical>::lemma_parse_of_encoding(f, rest);
        assert(zk_proof_of_fields(f) == v);
    }

    proof fn lemma_encoding_of_parse(b: Seq<u8>) {
        <ZkProofFields as Canonical>::lemma_encoding_of_parse(b);
        if let Some((f, n)) = <ZkProofFields as Canonical>::parse(b) {
            let v = zk_proof_of_fields(f);
            assert(zk_proof_fields(v) == f);
            assert(Self::encoding(v) =~= <ZkProofFields as Canonical>::encoding(f));
        }
    }

    fn write(&self, out: &mut Vec<u8>) {
        self.proof_data.write(out);
        self.public_inputs.write(out);
        self.verification_key.write(out);
        self.proof_type.write(out);
        assert(out@ =~= old(out)@ + Self::encoding(self@));
    }

    fn read(data: &[u8], pos: usize) -> (r: Option<(ZkProof, usize)>) {
        match <ZkProofFields as Canonical>::read(data, pos) {
            None => None,
            Some(
                (
                    (
                        proof_data,
                        (
                            public_inputs,
                            (
                                verification_key,
                                proof_type,
                            ),
                        ),
                    ),
                    next,
                ),
            ) => Some(
                (
                    ZkProof {
                        proof_data,
                        public_inputs,
                        verification_key,
                        proof_type,
                    },
                    next,
                ),
            ),
        }
    }
}

/// The fields of a protocol rule in the order in which they are written.
pub type ProtocolRuleFields =
    (
        u32,
        (
            Vec<u8>,
            (
                ZkProof,
                u64,
            ),
        ),
    );

/// The fields of a protocol rule, in wire order.
pub open spec fn protocol_rule_fields(v: ProtocolRuleView) ->
    (
        u32,
        (
            Seq<u8>,
            (
                ZkProofView,
                u64,
            ),
        ),
    ) {
    (
        v.rule_id,
        (
            v.rule_data,
            (
                v.validity_proof,
                v.activation_epoch,
            ),
        ),
    )
}

/// A protocol rule with the given fields.
pub open spec fn protocol_rule_of_fields(
    f:
        (
            u32,
            (
                Seq<u8>,
                (
                    ZkProofView,
                    u64,
                ),
            ),
        ),
) -> ProtocolRuleView {
    let
        (
            rule_id,
            (
                rule_data,
                (
                    validity_proof,
                    activation_epoch,
                ),
            ),
        ) = f;
    ProtocolRuleView {
        rule_id,
        rule_data,
        validity_proof,
        activation_epoch,
    }
}

impl Canonical for ProtocolRule {
    open spec fn encodable(v: ProtocolRuleView) -> bool {
        <ProtocolRuleFields as Canonical>::encodable(protocol_rule_fields(v))
    }

    open spec fn encoding(v: ProtocolRuleView) -> Seq<u8> {
        u32::encoding(v.rule_id)
            + <Vec<u8>>::encoding(v.rule_data)
            + ZkProof::encoding(v.validity_proof)
            + u64::encoding(v.activation_epoch)
    }

    open spec fn parse(b: Seq<u8>) -> Option<(ProtocolRuleView, int)> {
        match <ProtocolRuleFields as Canonical>::parse(b) {
            Some((f, n)) => Some((protocol_rule_of_fields(f), n)),
            None => None,
        }
    }

    proof fn lemma_parse_of_encoding(v: ProtocolRuleView, rest: Seq<u8>) {
        let f = protocol_rule_fields(v);
        assert(Self::encoding(v) =~= <ProtocolRuleFields as Canonical>::encoding(f));
        <ProtocolRuleFields as Canonical>::lemma_parse_of_encoding(f, rest);
        assert(protocol_rule_of_fields(f) == v);
    }

    proof fn lemma_encoding_of_parse(b: Seq<u8>) {
        <ProtocolRuleFields as Canonical>::lemma_encoding_of_parse(b);
        if let Some((f, n)) = <ProtocolRuleFields as Canonical>::parse(b) {
            let v = protocol_rule_of_fields(f);
            assert(protocol_rule_fields(v) == f);
            assert(Self::encoding(v) =~= <ProtocolRuleFields as Canonical>::encoding(f));
        }
    }

    fn write(&self, out: &mut Vec<u8>) {
        self.rule_id.write(out);
        self.rule_data.write(out);
        self.validity_proof.write(out);
        self.activation_epoch.write(out);
        assert(out@ =~= old(out)@ + Self::encoding(self@));
    }

    fn read(data: &[u8], pos: usize) -> (r: Option<(ProtocolRule, usize)>) {
        match <ProtocolRuleFields as Canonical>::read(data, pos) {
            None => None,
            Some(
                (
                    (
                        rule_id,
                        (
                            rule_data,
                            (
                                validity_proof,
                                activation_epoch,
                            ),
                        ),
                    ),
                    next,
                ),
            ) => Some(
                (
                    ProtocolRule {
                        rule_id,
                        rule_data,
                        validity_proof,
                        activation_epoch,
                    },
                    next,
                ),
            ),
        }
    }
}

/// The views of the items of a vector.
pub open spec fn item_views<T: View>(items: Seq<T>) -> Seq<T::V> {
    items.map_values(|t: T| t@)
}

/// The encodings of `items` one after the other.
pub open spec fn items_encoding<T: Canonical>(items: Seq<T::V>) -> Seq<u8>
    decreases items.len(),
{
    if items.len() == 0 {
        Seq::empty()
    } else {
        T::encoding(items[0]) + items_encoding::<T>(items.skip(1))
    }
}

/// Whether a list can be encoded: each item can, and their number fits its prefix.
pub open spec fn list_encodable<T: Canonical>(items: Seq<T::V>) -> bool {
    items.len() <= u64::MAX && forall|i: int| 0 <= i < items.len() ==> T::encodable(#[trigger] items[i])
}

/// A list: the number of items, then the items.
pub open spec fn list_encoding<T: Canonical>(items: Seq<T::V>) -> Seq<u8> {
    u64_encoding(items.len() as u64) + items_encoding::<T>(items)
}

/// The `count` items at the front of `b`, and the number of bytes they take.
pub open spec fn parse_items<T: Canonical>(b: Seq<u8>, count: nat) -> Option<(Seq<T::V>, int)>
    decreases count,
{
    if count == 0 {
        Some((Seq::empty(), 0))
    } else {
        match T::parse(b) {
            None => None,
            Some((first, n)) => match parse_items::<T>(b.skip(n), (count - 1) as nat) {
                None => None,
                Some((others, m)) => Some((seq![first] + others, n + m)),
            },
        }
    }
}

/// The list at the front of `b`.
pub open spec fn parse_list<T: Canonical>(b: Seq<u8>) -> Option<(Seq<T::V>, int)> {
    match parse_u64(b) {
        None => None,
        Some((count, _)) => match parse_items::<T>(b.skip(8), count as nat) {
            None => None,
            Some((items, n)) => Some((items, 8 + n)),
        },
    }
}

pub proof fn lemma_items_encoding_push<T: Canonical>(items: Seq<T::V>, last: T::V)
    ensures
        items_encoding::<T>(items.push(last)) == items_encoding::<T>(items) + T::encoding(last),
    decreases items.len(),
{
    let all = items.push(last);
    if items.len() == 0 {
        assert(all.skip(1) =~= Seq::<T::V>::empty());
        assert(items_encoding::<T>(all.skip(1)) =~= Seq::<u8>::empty());
        assert(items_encoding::<T>(all) =~= T::encoding(last));
        assert(items_encoding::<T>(items) + T::encoding(last) =~= T::encoding(last));
    } else {
        assert(all.skip(1) =~= items.skip(1).push(last));
        lemma_items_encoding_push::<T>(items.skip(1), last);
        assert(items_encoding::<T>(all) =~= items_encoding::<T>(items) + T::encoding(last));
    }
}

pub proof fn lemma_parse_items_of_encoding<T: Canonical>(items: Seq<T::V>, rest: Seq<u8>)
    requires
        forall|i: int| 0 <= i < items.len() ==> T::encodable(#[trigger] items[i]),
    ensures
        parse_items::<T>(items_encoding::<T>(items) + rest, items.len()) == Some(
            (items, items_encoding::<T>(items).len() as int),
        ),
    decreases items.len(),
{
    if items.len() == 0 {
        assert(items =~= Seq::<T::V>::empty());
    } else {
        let head = T::encoding(items[0]);
        let tail = items_encoding::<T>(items.skip(1)) + rest;
        assert(items_encoding::<T>(items) + rest =~= head + tail);
        T::lemma_parse_of_encoding(items[0], tail);
        assert((head + tail).skip(head.len() as int) =~= tail);
        lemma_parse_items_of_encoding::<T>(items.skip(1), rest);
        assert(seq![items[0]] + items.skip(1) =~= items);
    }
}

pub proof fn lemma_items_encoding_of_parse<T: Canonical>(b: Seq<u8>, count: nat)
    ensures
        parse_items::<T>(b, count) matches Some((items, n)) ==> {
            &&& items.len() == count
            &&& forall|i: int| 0 <= i < items.len() ==> T::encodable(#[trigger] items[i])
            &&& 0 <= n <= b.len()
            &&& items_encoding::<T>(items) == b.subrange(0, n)
        },
    decreases count,
{
    if count == 0 {
        assert(items_encoding::<T>(Seq::<T::V>::empty()) =~= b.subrange(0, 0));
    } else {
        T::lemma_encoding_of_parse(b);
        if let Some((first, n)) = T::parse(b) {
            lemma_items_encoding_of_parse::<T>(b.skip(n), (count - 1) as nat);
            if let Some((others, m)) = parse_items::<T>(b.skip(n), (count - 1) as nat) {
                let items = seq![first] + others;
                assert(items.skip(1) =~= others);
                assert(b.subrange(0, n + m) =~= b.subrange(0, n) + b.skip(n).subrange(0, m));
            }
        }
    }
}

pub proof fn lemma_parse_list_of_encoding<T: Canonical>(items: Seq<T::V>, rest: Seq<u8>)
    requires
        list_encodable::<T>(items),
    ensures
        parse_list::<T>(list_encoding::<T>(items) + rest) == Some(
            (items, list_encoding::<T>(items).len() as int),
        ),
{
    let body = items_encoding::<T>(items) + rest;
    lemma_u64_round_trip(items.len() as u64, body);
    assert(list_encoding::<T>(items) + rest =~= u64_encoding(items.len() as u64) + body);
    assert((u64_encoding(items.len() as u64) + body).skip(8) =~= body);
    lemma_parse_items_of_encoding::<T>(items, rest);
}

pub proof fn lemma_list_encoding_of_parse<T: Canonical>(b: Seq<u8>)
    ensures
        parse_list::<T>(b) matches Some((items, n)) ==> list_encodable::<T>(items) && 0 <= n
            <= b.len() && list_encoding::<T>(items) == b.subrange(0, n),
{
    lemma_u64_parse_sound(b);
    if let Some((count, _)) = parse_u64(b) {
        lemma_items_encoding_of_parse::<T>(b.skip(8), count as nat);
        if let Some((items, n)) = parse_items::<T>(b.skip(8), count as nat) {
            assert(b.subrange(0, 8 + n) =~= b.subrange(0, 8) + b.skip(8).subrange(0, n));
        }
    }
}

/// Appends a list: the number of items, then each item.
pub fn write_list<T: Canonical>(items: &Vec<T>, out: &mut Vec<u8>)
    ensures
        list_encodable::<T>(item_views(items@)),
        final(out)@ == old(out)@ + list_encoding::<T>(item_views(items@)),
{
    write_u64(items.len() as u64, out);
    let ghost views = item_views(items@);
    let mut i: usize = 0;
    assert(views.subrange(0, 0) =~= Seq::<T::V>::empty());
    while i < items.len()
        invariant
            i <= items@.len(),
            views == item_views(items@),
            forall|j: int| 0 <= j < i ==> T::encodable(#[trigger] views[j]),
            out@ == old(out)@ + u64_encoding(items@.len() as u64) + items_encoding::<T>(
                views.subrange(0, i as int),
            ),
        decreases items@.len() - i,
    {
        items[i].write(out);
        proof {
            lemma_items_encoding_push::<T>(views.subrange(0, i as int), views[i as int]);
            assert(views.subrange(0, i + 1) =~= views.subrange(0, i as int).push(views[i as int]));
        }
        i += 1;
    }
    assert(views.subrange(0, views.len() as int) =~= views);
    assert(out@ =~= old(out)@ + list_encoding::<T>(views));
}

/// What parsing a list gives once `prefix` has been read in `used` bytes and
/// the rest of the parse gives `rest`.
pub open spec fn extend_parse<V>(prefix: Seq<V>, used: int, rest: Option<(Seq<V>, int)>) -> Option<
    (Seq<V>, int),
> {
    match rest {
        None => None,
        Some((others, m)) => Some((prefix + others, used + m)),
    }
}

/// Reads a list at `pos`: the number of items, then each item.
pub fn read_list<T: Canonical>(data: &[u8], pos: usize) -> (r: Option<(Vec<T>, usize)>)
    requires
        pos <= data@.len(),
    ensures
        match parse_list::<T>(data@.skip(pos as int)) {
            Some((v, n)) => r matches Some((x, next)) && item_views(x@) == v && next == pos + n,
            None => r is None,
        },
{
    let (count, start) = match read_u64(data, pos) {
        Some(r) => r,
        None => {
            return None;
        },
    };
    let ghost body = data@.skip(start as int);
    assert(data@.skip(pos as int).skip(8) =~= body);
    let mut items: Vec<T> = Vec::new();
    let mut at: usize = start;
    let mut i: u64 = 0;
    assert(item_views(items@) =~= Seq::<T::V>::empty());
    assert(Seq::<T::V>::empty() + Seq::<T::V>::empty() =~= Seq::<T::V>::empty());
    while i < count
        invariant
            i <= count,
            start <= at <= data@.len(),
            pos <= data@.len(),
            parse_u64(data@.skip(pos as int)) == Some((count, 8int)),
            body == data@.skip(pos as int).skip(8),
            body == data@.skip(start as int),
            parse_items::<T>(body, count as nat) == extend_parse(
                item_views(items@),
                at - start,
                parse_items::<T>(data@.skip(at as int), (count - i) as nat),
            ),
        decreases count - i,
    {
        let ghost here = data@.skip(at as int);
        proof {
            T::lemma_encoding_of_parse(here);
        }
        match T::read(data, at) {
            None => {
                return None;
            },
            Some((item, next)) => {
                proof {
                    let n = next - at;
                    assert(here.skip(n) =~= data@.skip(next as int));
                    let old_views = item_views(items@);
                    let new_views = item_views(items@.push(item));
                    assert(new_views =~= old_views.push(item@));
                    match parse_items::<T>(data@.skip(next as int), (count - i - 1) as nat) {
                        None => {},
                        Some((others, m)) => {
                            assert(old_views + (seq![item@] + others) =~= new_views + others);
                        },
                    }
                }
                items.push(item);
                at = next;
                i += 1;
            },
        }
    }
    assert(item_views(items@) + Seq::<T::V>::empty() =~= item_views(items@));
    Some((items, at))
}

/// A list of items as one value: its view is the sequence of the items' views.
pub struct Items<T>(pub Vec<T>);

impl<T: View> View for Items<T> {
    type V = Seq<T::V>;

    open spec fn view(&self) -> Seq<T::V> {
        item_views(self.0@)
    }
}

impl<T: Canonical> Canonical for Items<T> {
    open spec fn encodable(v: Seq<T::V>) -> bool {
        list_encodable::<T>(v)
    }

    open spec fn encoding(v: Seq<T::V>) -> Seq<u8> {
        list_encoding::<T>(v)
    }

    open spec fn parse(b: Seq<u8>) -> Option<(Seq<T::V>, int)> {
        parse_list::<T>(b)
    }

    proof fn lemma_parse_of_encoding(v: Seq<T::V>, rest: Seq<u8>) {
        lemma_parse_list_of_encoding::<T>(v, rest);
    }

    proof fn lemma_encoding_of_parse(b: Seq<u8>) {
        lemma_list_encoding_of_parse::<T>(b);
    }

    fn write(&self, out: &mut Vec<u8>) {
        write_list(&self.0, out);
    }

    fn read(data: &[u8], pos: usize) -> (r: Option<(Items<T>, usize)>) {
        match read_list::<T>(data, pos) {
            Some((items, next)) => Some((Items(items), next)),
            None => None,
        }
    }
}

/// The parts of a block in the order in which they are written.
pub type BlockFields = (
    BlockHeader,
    (Items<Transaction>, (Items<ValidatorSignature>, (ZkProof, Items<ProtocolRule>))),
);

/// The parts of a block, in wire order.
pub open spec fn block_fields(v: BlockView) -> (
    BlockHeaderView,
    (
        Seq<TransactionView>,
        (Seq<ValidatorSignatureView>, (ZkProofView, Seq<ProtocolRuleView>)),
    ),
) {
    (
        v.header,
        (v.transactions, (v.validator_signatures, (v.recursive_proof, v.protocol_updates))),
    )
}

/// The block with the given parts.
pub open spec fn block_of_fields(
    f: (
        BlockHeaderView,
        (
            Seq<TransactionView>,
            (Seq<ValidatorSignatureView>, (ZkProofView, Seq<ProtocolRuleView>)),
        ),
    ),
) -> BlockView {
    let (header, (transactions, (validator_signatures, (recursive_proof, protocol_updates)))) = f;
    BlockView { header, transactions, validator_signatures, recursive_proof, protocol_updates }
}

impl Canonical for Block {
    open spec fn encodable(v: BlockView) -> bool {
        <BlockFields as Canonical>::encodable(block_fields(v))
    }

    open spec fn encoding(v: BlockView) -> Seq<u8> {
        BlockHeader::encoding(v.header) + list_encoding::<Transaction>(v.transactions)
            + list_encoding::<ValidatorSignature>(v.validator_signatures) + ZkProof::encoding(
            v.recursive_proof,
        ) + list_encoding::<ProtocolRule>(v.protocol_updates)
    }

    open spec fn parse(b: Seq<u8>) -> Option<(BlockView, int)> {
        match <BlockFields as Canonical>::parse(b) {
            Some((f, n)) => Some((block_of_fields(f), n)),
            None => None,
        }
    }

    proof fn lemma_parse_of_encoding(v: BlockView, rest: Seq<u8>) {
        let f = block_fields(v);
        assert(Self::encoding(v) =~= <BlockFields as Canonical>::encoding(f));
        <BlockFields as Canonical>::lemma_parse_of_encoding(f, rest);
        assert(block_of_fields(f) == v);
    }

    proof fn lemma_encoding_of_parse(b: Seq<u8>) {
        <BlockFields as Canonical>::lemma_encoding_of_parse(b);
        if let Some((f, n)) = <BlockFields as Canonical>::parse(b) {
            let v = block_of_fields(f);
            assert(block_fields(v) == f);
            assert(Self::encoding(v) =~= <BlockFields as Canonical>::encoding(f));
        }
    }

    fn write(&self, out: &mut Vec<u8>) {
        self.header.write(out);
        write_list(&self.transactions, out);
        write_list(&self.validator_signatures, out);
        self.recursive_proof.write(out);
        write_list(&self.protocol_updates, out);
        assert(out@ =~= old(out)@ + Self::encoding(self@));
    }

    fn read(data: &[u8], pos: usize) -> (r: Option<(Block, usize)>) {
        match <BlockFields as Canonical>::read(data, pos) {
            None => None,
            Some(
                (
                    (
                        header,
                        (transactions, (validator_signatures, (recursive_proof, protocol_updates))),
                    ),
                    next,
                ),
            ) => Some(
                (
                    Block {
                        header,
                        transactions: transactions.0,
                        validator_signatures: validator_signatures.0,
                        recursive_proof,
                        protocol_updates: protocol_updates.0,
                    },
                    next,
                ),
            ),
        }
    }
}

/// The value that `b` is the encoding of, if it is one: `b` must hold a
/// value and nothing after it.
pub open spec fn decode_spec<T: Canonical>(b: Seq<u8>) -> Option<T::V> {
    match T::parse(b) {
        Some((v, n)) => if n == b.len() {
            Some(v)
        } else {
            None
        },
        None => None,
    }
}

/// What decoding `b` gives: the value, or the reason why there is none.
pub open spec fn decode_result<T: Canonical>(b: Seq<u8>) -> Result<T::V, SerializationError> {
    match T::parse(b) {
        Some((v, n)) => if n == b.len() {
            Ok(v)
        } else {
            Err(SerializationError::TrailingBytes)
        },
        None => Err(SerializationError::Malformed),
    }
}

/// The view of a decoding result.
pub open spec fn decoded_view<T: View>(r: Result<T, SerializationError>) -> Result<
    T::V,
    SerializationError,
> {
    match r {
        Ok(x) => Ok(x@),
        Err(e) => Err(e),
    }
}

/// The canonical bytes of a value. Decoding them gives the value back.
pub fn encode<T: Canonical>(data: &T) -> (bytes: Vec<u8>)
    ensures
        T::encodable(data@),
        bytes@ == T::encoding(data@),
        decode_result::<T>(bytes@) == Ok::<T::V, SerializationError>(data@),
{
    let mut out: Vec<u8> = Vec::new();
    data.write(&mut out);
    assert(out@ =~= T::encoding(data@));
    proof {
        lemma_decode_encode::<T>(data@);
    }
    out
}

/// The value that `data` is the canonical encoding of.
pub fn decode<T: Canonical>(data: &[u8]) -> (r: Result<T, SerializationError>)
    ensures
        decoded_view(r) == decode_result::<T>(data@),
{
    assert(data@.skip(0) =~= data@);
    match T::read(data, 0) {
        None => Err(SerializationError::Malformed),
        Some((value, next)) => {
            if next == data.len() {
                Ok(value)
            } else {
                Err(SerializationError::TrailingBytes)
            }
        },
    }
}

/// Decoding the encoding of a value gives the value back.
pub proof fn lemma_decode_encode<T: Canonical>(v: T::V)
    requires
        T::encodable(v),
    ensures
        decode_spec::<T>(T::encoding(v)) == Some(v),
        decode_result::<T>(T::encoding(v)) == Ok::<T::V, SerializationError>(v),
{
    T::lemma_parse_of_encoding(v, Seq::empty());
    assert(T::encoding(v) + Seq::<u8>::empty() =~= T::encoding(v));
}

/// Bytes that decode to a value are the encoding of that value, so no two
/// byte strings decode to the same value.
pub proof fn lemma_encode_decode<T: Canonical>(b: Seq<u8>)
    ensures
        decode_spec::<T>(b) matches Some(v) ==> T::encodable(v) && T::encoding(v) == b,
        decode_result::<T>(b) matches Ok(v) ==> T::encodable(v) && T::encoding(v) == b,
{
    T::lemma_encoding_of_parse(b);
    assert(b.subrange(0, b.len() as int) =~= b);
}

/// The canonical bytes of an on-chain object.
pub fn encode_blockchain_data<T: Canonical>(data: &T) -> (r: Result<Vec<u8>, SerializationError>)
    ensures
        T::encodable(data@),
        r matches Ok(bytes) && bytes@ == T::encoding(data@),
        r matches Ok(bytes) ==> decode_result::<T>(bytes@) == Ok::<T::V, SerializationError>(data@),
{
    Ok(encode(data))
}

/// The canonical bytes of a piece of state.
pub fn encode_state_data<T: Canonical>(data: &T) -> (r: Result<Vec<u8>, SerializationError>)
    ensures
        T::encodable(data@),
        r matches Ok(bytes) && bytes@ == T::encoding(data@),
        r matches Ok(bytes) ==> decode_result::<T>(bytes@) == Ok::<T::V, SerializationError>(data@),
{
    Ok(encode(data))
}

/// The on-chain object that `data` encodes.
pub fn decode_blockchain_data<T: Canonical>(data: &[u8]) -> (r: Result<T, SerializationError>)
    ensures
        decoded_view(r) == decode_result::<T>(data@),
{
    decode(data)
}

/// The canonical bytes of what a proof makes public.
pub fn encode_zkvm_output<T: Canonical>(data: &T) -> (r: Result<Vec<u8>, SerializationError>)
    ensures
        T::encodable(data@),
        r matches Ok(bytes) && bytes@ == T::encoding(data@),
        r matches Ok(bytes) ==> decode_result::<T>(bytes@) == Ok::<T::V, SerializationError>(data@),
{
    Ok(encode(data))
}

/// The public output that `data` encodes.
pub fn decode_zkvm_output<T: Canonical>(data: &[u8]) -> (r: Result<T, SerializationError>)
    ensures
        decoded_view(r) == decode_result::<T>(data@),
{
    decode(data)
}

/// The piece of state that `data` encodes.
pub fn decode_state_data<T: Canonical>(data: &[u8]) -> (r: Result<T, SerializationError>)
    ensures
        decoded_view(r) == decode_result::<T>(data@),
{
    decode(data)
}

/// The canonical bytes of a message to peers.
pub fn encode_network_message<T: Canonical>(data: &T) -> (r: Result<Vec<u8>, SerializationError>)
    ensures
        T::encodable(data@),
        r matches Ok(bytes) && bytes@ == T::encoding(data@),
        r matches Ok(bytes) ==> decode_result::<T>(bytes@) == Ok::<T::V, SerializationError>(data@),
{
    Ok(encode(data))
}

/// The message that `data` encodes.
pub fn decode_network_message<T: Canonical>(data: &[u8]) -> (r: Result<T, SerializationError>)
    ensures
        decoded_view(r) == decode_result::<T>(data@),
{
    decode(data)
}

/// The canonical bytes of each item, in order.
pub fn encode_batch<T: Canonical>(items: &[T]) -> (r: Result<Vec<Vec<u8>>, SerializationError>)
    ensures
        r matches Ok(encoded) && encoded@.len() == items@.len() && forall|i: int|
            0 <= i < items@.len() ==> (#[trigger] encoded@[i])@ == T::encoding(items@[i]@),
{
    let mut encoded: Vec<Vec<u8>> = Vec::new();
    let mut i: usize = 0;
    while i < items.len()
        invariant
            i <= items@.len(),
            encoded@.len() == i,
            forall|j: int| 0 <= j < i ==> (#[trigger] encoded@[j])@ == T::encoding(items@[j]@),
        decreases items@.len() - i,
    {
        encoded.push(encode(&items[i]));
        i += 1;
    }
    Ok(encoded)
}

/// Where the first byte string lies that does not decode, if there is one.
pub open spec fn first_undecodable<T: Canonical>(data: Seq<Seq<u8>>, k: int) -> bool {
    &&& 0 <= k < data.len()
    &&& decode_result::<T>(data[k]) is Err
    &&& forall|j: int| 0 <= j < k ==> decode_result::<T>(#[trigger] data[j]) is Ok
}

/// The items that the byte strings encode, in order; the error of the first
/// one that does not decode.
pub fn decode_batch<T: Canonical>(data: &[Vec<u8>]) -> (r: Result<Vec<T>, SerializationError>)
    ensures
        match r {
            Ok(items) => items@.len() == data@.len() && forall|i: int|
                0 <= i < data@.len() ==> decode_result::<T>(data@[i]@) == Ok::<
                    T::V,
                    SerializationError,
                >((#[trigger] items@[i])@),
            Err(e) => exists|k: int|
                first_undecodable::<T>(crate::crypto::hash::byte_strings(data@), k)
                    && decode_result::<T>(data@[k]@) == Err::<T::V, SerializationError>(e),
        },
{
    let mut items: Vec<T> = Vec::new();
    let mut i: usize = 0;
    while i < data.len()
        invariant
            i <= data@.len(),
            items@.len() == i,
            forall|j: int|
                0 <= j < i ==> decode_result::<T>(data@[j]@) == Ok::<T::V, SerializationError>(
                    (#[trigger] items@[j])@,
                ),
        decreases data@.len() - i,
    {
        match decode::<T>(data[i].as_slice()) {
            Ok(item) => {
                items.push(item);
            },
            Err(e) => {
                proof {
                    let strings = crate::crypto::hash::byte_strings(data@);
                    assert forall|j: int| 0 <= j < i implies decode_result::<T>(
                        #[trigger] strings[j],
                    ) is Ok by {
                        assert(strings[j] == data@[j]@);
                        assert(decode_result::<T>(data@[j]@) == Ok::<T::V, SerializationError>(
                            items@[j]@,
                        ));
                    }
                    assert(strings[i as int] == data@[i as int]@);
                    assert(first_undecodable::<T>(strings, i as int));
                }
                return Err(e);
            },
        }
        i += 1;
    }
    Ok(items)
}

/// The number of bytes that the canonical encoding of a value takes.
pub fn estimate_size<T: Canonical>(data: &T) -> (r: Result<usize, SerializationError>)
    ensures
        r == Ok::<usize, SerializationError>(T::encoding(data@).len() as usize),
        T::encoding(data@).len() <= usize::MAX,
{
    let bytes = encode(data);
    Ok(bytes.len())
}

/// How well the transactions of a block were packed.
#[derive(Debug, Clone, Copy, PartialEq, Eq, Structural)]
pub struct EncodingStats {
    /// The number of bytes that the transactions take as a list.
    pub compressed_size: usize,
    /// The size after compression in hundredths of the size before it.
    pub compression_ratio_percent: u64,
}

/// Totals over the transactions of a block, for analytics.
#[derive(Debug, Clone, Copy, PartialEq, Eq)]
pub struct BlockMetadata {
    pub transaction_count: u64,
    pub total_gas_used: u64,
    pub total_value_transferred: u64,
    pub producer: Address,
    pub encoding_stats: EncodingStats,
}

/// What a report says of a block.
#[derive(Debug, Clone, Copy, PartialEq, Eq)]
pub struct BlockSummary {
    pub block_number: u64,
    pub transaction_count: u64,
    pub producer: Address,
    pub timestamp: u64,
    pub total_size: usize,
}

/// The sum of the gas limits of the transactions.
pub open spec fn total_gas_limit(txs: Seq<TransactionView>) -> nat
    decreases txs.len(),
{
    if txs.len() == 0 {
        0
    } else {
        total_gas_limit(txs.drop_last()) + txs.last().gas_limit as nat
    }
}

/// The sum of the values of the transactions.
pub open spec fn total_value(txs: Seq<TransactionView>) -> nat
    decreases txs.len(),
{
    if txs.len() == 0 {
        0
    } else {
        total_value(txs.drop_last()) + txs.last().value as nat
    }
}

pub proof fn lemma_totals_grow(txs: Seq<TransactionView>, k: int)
    requires
        0 <= k <= txs.len(),
    ensures
        total_gas_limit(txs.subrange(0, k)) <= total_gas_limit(txs),
        total_value(txs.subrange(0, k)) <= total_value(txs),
    decreases txs.len() - k,
{
    if k == txs.len() {
        assert(txs.subrange(0, k) =~= txs);
    } else {
        lemma_totals_grow(txs.drop_last(), k);
        assert(txs.drop_last().subrange(0, k) =~= txs.subrange(0, k));
    }
}

/// Totals over the transactions of a block: their number, the gas they may
/// use, the value they move and the bytes they take. Fails where a total
/// does not fit in 64 bits.
pub fn create_block_metadata(transactions: &[Transaction], producer: Address) -> (r: Result<
    BlockMetadata,
    SerializationError,
>)
    ensures
        match r {
            Ok(m) => {
                &&& m.transaction_count == transactions@.len()
                &&& m.total_gas_used == total_gas_limit(item_views(transactions@))
                &&& m.total_value_transferred == total_value(item_views(transactions@))
                &&& m.producer == producer
                &&& m.encoding_stats.compressed_size == list_encoding::<Transaction>(
                    item_views(transactions@),
                ).len()
                &&& m.encoding_stats.compression_ratio_percent == 100
            },
            Err(e) => e == SerializationError::Overflow && (total_gas_limit(
                item_views(transactions@),
            ) > u64::MAX || total_value(item_views(transactions@)) > u64::MAX),
        },
{
    let ghost views = item_views(transactions@);
    let mut total_gas: u64 = 0;
    let mut total_moved: u64 = 0;
    let mut bytes: Vec<u8> = Vec::new();
    write_u64(transactions.len() as u64, &mut bytes);
    let mut i: usize = 0;
    assert(views.subrange(0, 0) =~= Seq::<TransactionView>::empty());
    while i < transactions.len()
        invariant
            i <= transactions@.len(),
            views == item_views(transactions@),
            total_gas == total_gas_limit(views.subrange(0, i as int)),
            total_moved == total_value(views.subrange(0, i as int)),
            bytes@ == u64_encoding(transactions@.len() as u64) + items_encoding::<Transaction>(
                views.subrange(0, i as int),
            ),
        decreases transactions@.len() - i,
    {
        let tx = &transactions[i];
        proof {
            let next = views.subrange(0, i + 1);
            assert(next.drop_last() =~= views.subrange(0, i as int));
            assert(next.last() == tx@);
            lemma_totals_grow(views, i + 1);
            lemma_items_encoding_push::<Transaction>(views.subrange(0, i as int), tx@);
            assert(next =~= views.subrange(0, i as int).push(tx@));
        }
        total_gas = match total_gas.checked_add(tx.gas_limit) {
            Some(t) => t,
            None => {
                return Err(SerializationError::Overflow);
            },
        };
        total_moved = match total_moved.checked_add(tx.value) {
            Some(t) => t,
            None => {
                return Err(SerializationError::Overflow);
            },
        };
        tx.write(&mut bytes);
        i += 1;
    }
    assert(views.subrange(0, views.len() as int) =~= views);
    Ok(
        BlockMetadata {
            transaction_count: transactions.len() as u64,
            total_gas_used: total_gas,
            total_value_transferred: total_moved,
            producer,
            encoding_stats: EncodingStats {
                compressed_size: bytes.len(),
                compression_ratio_percent: 100,
            },
        },
    )
}

/// What a report says of a block: its number, the number of its
/// transactions, its producer, its time and the bytes it takes.
pub fn extract_block_summary(block: &Block) -> (summary: BlockSummary)
    ensures
        summary.block_number == block.header.block_number,
        summary.transaction_count == block.transactions@.len(),
        summary.producer == block.header.producer,
        summary.timestamp == block.header.timestamp,
        summary.total_size == Block::encoding(block@).len(),
{
    let bytes = encode(block);
    BlockSummary {
        block_number: block.header.block_number,
        transaction_count: block.transactions.len() as u64,
        producer: block.header.producer,
        timestamp: block.header.timestamp,
        total_size: bytes.len(),
    }
}

impl Canonical for StorageSlot {
    open spec fn encodable(v: (Seq<u8>, Seq<u8>)) -> bool {
        v.0.len() == 32 && v.1.len() == 32
    }

    open spec fn encoding(v: (Seq<u8>, Seq<u8>)) -> Seq<u8> {
        v.0 + v.1
    }

    open spec fn parse(b: Seq<u8>) -> Option<((Seq<u8>, Seq<u8>), int)> {
        if b.len() < 64 {
            None
        } else {
            Some(((b.subrange(0, 32), b.subrange(32, 64)), 64))
        }
    }

    proof fn lemma_parse_of_encoding(v: (Seq<u8>, Seq<u8>), rest: Seq<u8>) {
        let b = Self::encoding(v) + rest;
        assert(b.subrange(0, 32) =~= v.0);
        assert(b.subrange(32, 64) =~= v.1);
    }

    proof fn lemma_encoding_of_parse(b: Seq<u8>) {
        if b.len() >= 64 {
            assert(b.subrange(0, 32) + b.subrange(32, 64) =~= b.subrange(0, 64));
        }
    }

    fn write(&self, out: &mut Vec<u8>) {
        crate::crypto::hash::append_bytes(out, self.key.as_slice());
        crate::crypto::hash::append_bytes(out, self.value.as_slice());
        assert(out@ =~= old(out)@ + Self::encoding(self@));
    }

    fn read(data: &[u8], pos: usize) -> (r: Option<(StorageSlot, usize)>) {
        if data.len() - pos < 64 {
            return None;
        }
        let ghost b = data@.skip(pos as int);
        let (key, middle) = match read_32(data, pos) {
            Some(r) => r,
            None => {
                return None;
            },
        };
        let (value, next) = match read_32(data, middle) {
            Some(r) => r,
            None => {
                return None;
            },
        };
        assert(data@.skip(middle as int).subrange(0, 32) =~= b.subrange(32, 64));
        Some((StorageSlot { key, value }, next))
    }
}

/// The fields of an account in the order in which they are written.
pub type AccountFields = (u64, (u64, (Vec<u8>, Items<StorageSlot>)));

/// The fields of an account, in wire order.
pub open spec fn account_fields(v: AccountView) -> (u64, (u64, (Seq<u8>, Seq<(Seq<u8>, Seq<u8>)>))) {
    (v.balance, (v.nonce, (v.code, v.storage)))
}

/// An account with the given fields.
pub open spec fn account_of_fields(
    f: (u64, (u64, (Seq<u8>, Seq<(Seq<u8>, Seq<u8>)>))),
) -> AccountView {
    let (balance, (nonce, (code, storage))) = f;
    AccountView { balance, nonce, code, storage }
}

impl Canonical for Account {
    open spec fn encodable(v: AccountView) -> bool {
        <AccountFields as Canonical>::encodable(account_fields(v))
    }

    open spec fn encoding(v: AccountView) -> Seq<u8> {
        u64::encoding(v.balance) + u64::encoding(v.nonce) + <Vec<u8>>::encoding(v.code)
            + list_encoding::<StorageSlot>(v.storage)
    }

    open spec fn parse(b: Seq<u8>) -> Option<(AccountView, int)> {
        match <AccountFields as Canonical>::parse(b) {
            Some((f, n)) => Some((account_of_fields(f), n)),
            None => None,
        }
    }

    proof fn lemma_parse_of_encoding(v: AccountView, rest: Seq<u8>) {
        let f = account_fields(v);
        assert(Self::encoding(v) =~= <AccountFields as Canonical>::encoding(f));
        <AccountFields as Canonical>::lemma_parse_of_encoding(f, rest);
        assert(account_of_fields(f) == v);
    }

    proof fn lemma_encoding_of_parse(b: Seq<u8>) {
        <AccountFields as Canonical>::lemma_encoding_of_parse(b);
        if let Some((f, n)) = <AccountFields as Canonical>::parse(b) {
            let v = account_of_fields(f);
            assert(account_fields(v) == f);
            assert(Self::encoding(v) =~= <AccountFields as Canonical>::encoding(f));
        }
    }

    fn write(&self, out: &mut Vec<u8>) {
        self.balance.write(out);
        self.nonce.write(out);
        self.code.write(out);
        write_list(&self.storage, out);
        assert(out@ =~= old(out)@ + Self::encoding(self@));
    }

    fn read(data: &[u8], pos: usize) -> (r: Option<(Account, usize)>) {
        match <AccountFields as Canonical>::read(data, pos) {
            None => None,
            Some(((balance, (nonce, (code, storage))), next)) => Some(
                (Account { balance, nonce, code, storage: storage.0 }, next),
            ),
        }
    }
}

/// The indented JSON text of a byte string: an array of its bytes as numbers.
pub uninterp spec fn json_pretty_text(bytes: Seq<u8>) -> Seq<char>;

/// `serde_json::to_string_pretty` on a byte slice: the indented JSON text of
/// the bytes.
#[verifier::external_body]
fn json_pretty(bytes: &[u8]) -> (text: String)
    ensures
        text@ == json_pretty_text(bytes@),
{
    serde_json::to_string_pretty(bytes).unwrap_or_default()
}

/// The indented JSON text of a byte string, for debugging. It is no part of
/// the canonical encoding, and no hash is taken over it.
pub fn to_json_pretty(bytes: &[u8]) -> (r: Result<String, SerializationError>)
    ensures
        r matches Ok(text) && text@ == json_pretty_text(bytes@),
{
    Ok(json_pretty(bytes))
}

/// The UTF-8 bytes of the indented JSON text of a digest, for debugging.
pub fn to_json_pretty_bytes(hash: &BlockHash) -> (r: Result<Vec<u8>, SerializationError>)
    ensures
        r matches Ok(bytes) && bytes@ == vstd::utf8::encode_utf8(json_pretty_text(hash@)),
{
    let text = json_pretty(hash.0.as_slice());
    Ok(vstd::string::StrSliceExecFns::as_bytes_vec(text.as_str()))
}

} // verus!
