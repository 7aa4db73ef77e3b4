//! The hash suite: three families of digests, the Merkle commitment over a
//! sequence of leaves, the state-root fold and a streaming hasher.
//!
//! The digests themselves are computed by the `blake3` and `sha3` crates. Each
//! is given a name here, a function of the hashed bytes alone, and every
//! contract of this module is stated over those names.

use vstd::prelude::*;

pub mod hash_compare;
pub mod hex_utils;

verus! {

/// The domain tag of transaction hashes: each use of a hash in the protocol
/// puts its own one-byte tag in front of what it hashes.
pub const DOMAIN_TRANSACTION: u8 = 1;

/// The domain tag of header hashes.
pub const DOMAIN_HEADER: u8 = 2;

/// The domain tag of state entries.
pub const DOMAIN_STATE_ENTRY: u8 = 3;

/// The domain tag of election seeds.
pub const DOMAIN_ELECTION_SEED: u8 = 5;

/// The domain tag of the public values of a recursion.
pub const DOMAIN_RECURSION_PUBLIC: u8 = 6;

/// The 32-byte BLAKE3 digest of `data`.
pub uninterp spec fn blake3_digest(data: Seq<u8>) -> Seq<u8>;

/// The 32-byte BLAKE3 digest of `data` in keyed mode under `key`.
pub uninterp spec fn blake3_keyed_digest(key: Seq<u8>, data: Seq<u8>) -> Seq<u8>;

/// The 32-byte subkey that BLAKE3 derives from `material` in the given context.
pub uninterp spec fn blake3_derived_key(context: Seq<char>, material: Seq<u8>) -> Seq<u8>;

/// The first `n` bytes of BLAKE3's extended output for `data`, in keyed mode
/// where `key` is given.
pub uninterp spec fn blake3_xof(key: Option<Seq<u8>>, data: Seq<u8>, n: nat) -> Seq<u8>;

/// The SHA3-256 digest of `data`.
pub uninterp spec fn sha3_256_digest(data: Seq<u8>) -> Seq<u8>;

/// The SHA3-512 digest of `data`.
pub uninterp spec fn sha3_512_digest(data: Seq<u8>) -> Seq<u8>;

/// The Keccak-256 digest of `data`.
pub uninterp spec fn keccak256_digest(data: Seq<u8>) -> Seq<u8>;

/// The first `n` bytes of SHAKE128's output for `data`.
pub uninterp spec fn shake128_xof(data: Seq<u8>, n: nat) -> Seq<u8>;

/// The first `n` bytes of SHAKE256's output for `data`.
pub uninterp spec fn shake256_xof(data: Seq<u8>, n: nat) -> Seq<u8>;

/// The key that a streaming hasher was made with, if any.
pub uninterp spec fn hasher_key(h: blake3::Hasher) -> Option<Seq<u8>>;

/// All the bytes that a streaming hasher has taken in, in order.
pub uninterp spec fn hasher_absorbed(h: blake3::Hasher) -> Seq<u8>;

#[verifier::external_type_specification]
#[verifier::external_body]
pub struct ExBlake3Hasher(blake3::Hasher);

/// `blake3::hash`: the result is the BLAKE3 digest of the input, 32 bytes.
#[verifier::external_body]
pub fn blake3_hash(data: &[u8]) -> (h: [u8; 32])
    ensures
        h@ == blake3_digest(data@),
{
    *blake3::hash(data).as_bytes()
}

/// `blake3::keyed_hash`: the result is the keyed BLAKE3 digest of the input.
#[verifier::external_body]
pub fn blake3_keyed_hash(key: &[u8; 32], data: &[u8]) -> (h: [u8; 32])
    ensures
        h@ == blake3_keyed_digest(key@, data@),
{
    *blake3::keyed_hash(key, data).as_bytes()
}

/// `blake3::derive_key`: the result is the 32-byte subkey for the context and
/// the key material.
#[verifier::external_body]
fn blake3_subkey(context: &str, key_material: &[u8]) -> (k: [u8; 32])
    ensures
        k@ == blake3_derived_key(context@, key_material@),
{
    blake3::derive_key(context, key_material)
}

/// `blake3::Hasher::new`: a hasher without a key that has taken in nothing.
#[verifier::external_body]
fn hasher_new() -> (h: blake3::Hasher)
    ensures
        hasher_key(h) == None::<Seq<u8>>,
        hasher_absorbed(h) == Seq::<u8>::empty(),
{
    blake3::Hasher::new()
}

/// `blake3::Hasher::new_keyed`: a hasher in keyed mode that has taken in nothing.
#[verifier::external_body]
fn hasher_new_keyed(key: &[u8; 32]) -> (h: blake3::Hasher)
    ensures
        hasher_key(h) == Some(key@),
        hasher_absorbed(h) == Seq::<u8>::empty(),
{
    blake3::Hasher::new_keyed(key)
}

/// `blake3::Hasher::update`: the input is appended to what the hasher has
/// taken in; its key stays.
#[verifier::external_body]
fn hasher_update(h: &mut blake3::Hasher, data: &[u8])
    ensures
        hasher_key(*final(h)) == hasher_key(*old(h)),
        hasher_absorbed(*final(h)) == hasher_absorbed(*old(h)) + data@,
{
    h.update(data);
}

/// `blake3::Hasher::finalize`: the digest of everything taken in, which is
/// what the one-shot functions give for the same bytes (and key).
#[verifier::external_body]
fn hasher_finalize(h: &blake3::Hasher) -> (d: [u8; 32])
    ensures
        d@ == match hasher_key(*h) {
            Some(k) => blake3_keyed_digest(k, hasher_absorbed(*h)),
            None => blake3_digest(hasher_absorbed(*h)),
        },
{
    *h.finalize().as_bytes()
}

/// `blake3::Hasher::finalize_xof` and `blake3::OutputReader::fill`: the first
/// `output_len` bytes of the extended output for everything taken in.
#[verifier::external_body]
fn hasher_finalize_xof(h: &blake3::Hasher, output_len: usize) -> (out: Vec<u8>)
    ensures
        out@ == blake3_xof(hasher_key(*h), hasher_absorbed(*h), output_len as nat),
        out@.len() == output_len,
{
    let mut output_reader = h.finalize_xof();
    let mut output = vec![0u8; output_len];
    output_reader.fill(&mut output);
    output
}

/// `sha3::Sha3_256`: the SHA3-256 digest of the input.
#[verifier::external_body]
pub fn sha3_256_hash(data: &[u8]) -> (h: [u8; 32])
    ensures
        h@ == sha3_256_digest(data@),
{
    let mut hasher = <sha3::Sha3_256 as sha3::Digest>::new();
    sha3::Digest::update(&mut hasher, data);
    sha3::Digest::finalize(hasher).into()
}

/// `sha3::Sha3_512`: the SHA3-512 digest of the input.
#[verifier::external_body]
pub fn sha3_512_hash(data: &[u8]) -> (h: [u8; 64])
    ensures
        h@ == sha3_512_digest(data@),
{
    let mut hasher = <sha3::Sha3_512 as sha3::Digest>::new();
    sha3::Digest::update(&mut hasher, data);
    sha3::Digest::finalize(hasher).into()
}

/// `sha3::Keccak256`: the Keccak-256 digest of the input.
#[verifier::external_body]
pub fn keccak256_hash(data: &[u8]) -> (h: [u8; 32])
    ensures
        h@ == keccak256_digest(data@),
{
    let mut hasher = <sha3::Keccak256 as sha3::Digest>::new();
    sha3::Digest::update(&mut hasher, data);
    sha3::Digest::finalize(hasher).into()
}

/// `sha3::Shake128`: the first `output_len` bytes of its output for the input.
#[verifier::external_body]
pub fn shake128_hash(data: &[u8], output_len: usize) -> (out: Vec<u8>)
    ensures
        out@ == shake128_xof(data@, output_len as nat),
        out@.len() == output_len,
{
    let mut hasher = sha3::Shake128::default();
    sha3::digest::Update::update(&mut hasher, data);
    let mut reader = sha3::digest::ExtendableOutput::finalize_xof(hasher);
    let mut output = vec![0u8; output_len];
    sha3::digest::XofReader::read(&mut reader, &mut output);
    output
}

/// `sha3::Shake256`: the first `output_len` bytes of its output for the input.
#[verifier::external_body]
pub fn shake256_hash(data: &[u8], output_len: usize) -> (out: Vec<u8>)
    ensures
        out@ == shake256_xof(data@, output_len as nat),
        out@.len() == output_len,
{
    let mut hasher = sha3::Shake256::default();
    sha3::digest::Update::update(&mut hasher, data);
    let mut reader = sha3::digest::ExtendableOutput::finalize_xof(hasher);
    let mut output = vec![0u8; output_len];
    sha3::digest::XofReader::read(&mut reader, &mut output);
    output
}

/// A streaming BLAKE3 hasher: bytes go in piece by piece, and the digest is
/// that of their concatenation.
pub struct IncrementalHasher {
    hasher: blake3::Hasher,
}

impl IncrementalHasher {
    /// The key the hasher was made with, if it is in keyed mode.
    pub closed spec fn key(&self) -> Option<Seq<u8>> {
        hasher_key(self.hasher)
    }

    /// Everything the hasher has taken in so far.
    pub closed spec fn absorbed(&self) -> Seq<u8> {
        hasher_absorbed(self.hasher)
    }

    /// The digest that finalizing would give now.
    pub open spec fn digest(&self) -> Seq<u8> {
        match self.key() {
            Some(k) => blake3_keyed_digest(k, self.absorbed()),
            None => blake3_digest(self.absorbed()),
        }
    }

    pub fn new() -> (h: IncrementalHasher)
        ensures
            h.key() == None::<Seq<u8>>,
            h.absorbed() == Seq::<u8>::empty(),
    {
        IncrementalHasher { hasher: hasher_new() }
    }

    pub fn new_keyed(key: &[u8; 32]) -> (h: IncrementalHasher)
        ensures
            h.key() == Some(key@),
            h.absorbed() == Seq::<u8>::empty(),
    {
        IncrementalHasher { hasher: hasher_new_keyed(key) }
    }

    pub fn update(&mut self, data: &[u8])
        ensures
            final(self).key() == old(self).key(),
            final(self).absorbed() == old(self).absorbed() + data@,
    {
        hasher_update(&mut self.hasher, data);
    }

    pub fn finalize(self) -> (d: [u8; 32])
        ensures
            d@ == self.digest(),
    {
        hasher_finalize(&self.hasher)
    }

    pub fn finalize_extended(self, output_len: usize) -> (out: Vec<u8>)
        ensures
            out@ == blake3_xof(self.key(), self.absorbed(), output_len as nat),
            out@.len() == output_len,
    {
        hasher_finalize_xof(&self.hasher, output_len)
    }
}

/// BLAKE3 with extended output: `output_len` bytes for `data`.
pub fn blake3_hash_extended(data: &[u8], output_len: usize) -> (out: Vec<u8>)
    ensures
        out@ == blake3_xof(None, data@, output_len as nat),
        out@.len() == output_len,
{
    let mut hasher = IncrementalHasher::new();
    hasher.update(data);
    assert(hasher.absorbed() =~= data@);
    hasher.finalize_extended(output_len)
}

/// What `blake3_derive_key` returns: the derived subkey itself where 32 bytes
/// are asked for, else the extended output over that subkey.
pub open spec fn derive_key_spec(context: Seq<char>, material: Seq<u8>, n: nat) -> Seq<u8> {
    if n == 32 {
        blake3_derived_key(context, material)
    } else {
        blake3_xof(None, blake3_derived_key(context, material), n)
    }
}

/// Derives `output_len` bytes of key from `key_material` for the given context.
pub fn blake3_derive_key(context: &str, key_material: &[u8], output_len: usize) -> (out: Vec<u8>)
    ensures
        out@ == derive_key_spec(context@, key_material@, output_len as nat),
{
    let derived = blake3_subkey(context, key_material);
    if output_len == 32 {
        let out = vstd::slice::slice_to_vec(derived.as_slice());
        out
    } else {
        blake3_hash_extended(derived.as_slice(), output_len)
    }
}

/// The all-zero digest, which stands for an empty input.
pub open spec fn zero_digest() -> Seq<u8> {
    Seq::new(32, |i: int| 0u8)
}

/// The level above `level` in a Merkle tree: neighbours are hashed in pairs,
/// left before right, and an odd node at the end moves up unchanged.
pub open spec fn merkle_next_level(level: Seq<Seq<u8>>) -> Seq<Seq<u8>> {
    Seq::new(
        ((level.len() + 1) / 2) as nat,
        |i: int|
            if 2 * i + 1 < level.len() {
                blake3_digest(level[2 * i] + level[2 * i + 1])
            } else {
                level[2 * i]
            },
    )
}

/// The single node that repeated pairing reduces a non-empty level to.
pub open spec fn merkle_fold(level: Seq<Seq<u8>>) -> Seq<u8>
    decreases level.len(),
{
    if level.len() == 0 {
        zero_digest()
    } else if level.len() == 1 {
        level[0]
    } else {
        merkle_fold(merkle_next_level(level))
    }
}

/// The Merkle root over `leaves`: all zero for no leaves, else the fold of
/// the leaves' digests.
pub open spec fn merkle_root_spec(leaves: Seq<Seq<u8>>) -> Seq<u8> {
    if leaves.len() == 0 {
        zero_digest()
    } else {
        merkle_fold(leaves.map_values(|leaf: Seq<u8>| blake3_digest(leaf)))
    }
}

/// The byte strings that a vector of byte vectors holds.
pub open spec fn byte_strings(v: Seq<Vec<u8>>) -> Seq<Seq<u8>> {
    v.map_values(|b: Vec<u8>| b@)
}

/// The byte strings that a vector of digests holds.
pub open spec fn digest_strings(v: Seq<[u8; 32]>) -> Seq<Seq<u8>> {
    v.map_values(|d: [u8; 32]| d@)
}

/// The digest of two nodes side by side.
fn merkle_pair(left: &[u8; 32], right: &[u8; 32]) -> (parent: [u8; 32])
    ensures
        parent@ == blake3_digest(left@ + right@),
{
    let mut hasher = IncrementalHasher::new();
    hasher.update(left.as_slice());
    hasher.update(right.as_slice());
    assert(hasher.absorbed() =~= left@ + right@);
    hasher.finalize()
}

/// The Merkle root over a sequence of leaves.
pub fn merkle_root(leaves: &[Vec<u8>]) -> (root: [u8; 32])
    ensures
        root@ == merkle_root_spec(byte_strings(leaves@)),
{
    if leaves.len() == 0 {
        let root = [0u8; 32];
        assert(root@ =~= zero_digest());
        return root;
    }
    let mut level: Vec<[u8; 32]> = Vec::new();
    let mut i: usize = 0;
    while i < leaves.len()
        invariant
            i <= leaves.len(),
            level@.len() == i,
            forall|j: int| 0 <= j < i ==> (#[trigger] level@[j])@ == blake3_digest(leaves@[j]@),
        decreases leaves.len() - i,
    {
        level.push(blake3_hash(leaves[i].as_slice()));
        i += 1;
    }
    assert(digest_strings(level@) =~= byte_strings(leaves@).map_values(
        |leaf: Seq<u8>| blake3_digest(leaf),
    ));
    while level.len() > 1
        invariant
            level@.len() >= 1,
            merkle_fold(digest_strings(level@)) == merkle_root_spec(byte_strings(leaves@)),
        decreases level@.len(),
    {
        let mut next_level: Vec<[u8; 32]> = Vec::new();
        let n = level.len();
        let mut k: usize = 0;
        while n - k >= 2
            invariant
                n == level@.len(),
                k % 2 == 0,
                k <= n,
                next_level@.len() == k / 2,
                forall|j: int|
                    0 <= j < next_level@.len() ==> (#[trigger] next_level@[j])@
                        == merkle_next_level(digest_strings(level@))[j],
            decreases n - k,
        {
            next_level.push(merkle_pair(&level[k], &level[k + 1]));
            k += 2;
        }
        if k < n {
            next_level.push(level[k]);
        }
        assert(digest_strings(next_level@) =~= merkle_next_level(digest_strings(level@)));
        level = next_level;
    }
    level[0]
}

/// The bytes that the state-root fold hashes: the previous root, then each
/// update's key and value in order.
pub open spec fn state_root_preimage(prev_root: Seq<u8>, updates: Seq<([u8; 32], [u8; 32])>) -> Seq<u8>
    decreases updates.len(),
{
    if updates.len() == 0 {
        prev_root
    } else {
        state_root_preimage(prev_root, updates.drop_last()) + updates.last().0@ + updates.last().1@
    }
}

/// Appends the bytes of `src` to `dst`.
pub fn append_bytes(dst: &mut Vec<u8>, src: &[u8])
    ensures
        final(dst)@ == old(dst)@ + src@,
{
    let mut i: usize = 0;
    while i < src.len()
        invariant
            i <= src.len(),
            dst@ == old(dst)@ + src@.subrange(0, i as int),
        decreases src.len() - i,
    {
        dst.push(src[i]);
        i += 1;
        assert(dst@ =~= old(dst)@ + src@.subrange(0, i as int));
    }
    assert(src@.subrange(0, src@.len() as int) =~= src@);
}

/// The state root that follows `prev_root` once `updates` are applied: the
/// Keccak-256 digest over the previous root and the updates in the order given.
pub fn compute_state_root_enhanced(updates: &[([u8; 32], [u8; 32])], prev_root: &[u8; 32]) -> (root:
    [u8; 32])
    ensures
        root@ == keccak256_digest(state_root_preimage(prev_root@, updates@)),
{
    let mut buffer: Vec<u8> = Vec::new();
    append_bytes(&mut buffer, prev_root.as_slice());
    assert(buffer@ =~= prev_root@);
    let mut i: usize = 0;
    while i < updates.len()
        invariant
            i <= updates.len(),
            buffer@ == state_root_preimage(prev_root@, updates@.subrange(0, i as int)),
        decreases updates.len() - i,
    {
        append_bytes(&mut buffer, updates[i].0.as_slice());
        append_bytes(&mut buffer, updates[i].1.as_slice());
        proof {
            let next = updates@.subrange(0, i + 1);
            assert(next.drop_last() =~= updates@.subrange(0, i as int));
            assert(next.last() == updates@[i as int]);
        }
        i += 1;
    }
    assert(updates@.subrange(0, updates@.len() as int) =~= updates@);
    keccak256_hash(buffer.as_slice())
}

/// The address of a 64-byte public key: the last 20 bytes of its Keccak-256
/// digest.
pub fn public_key_to_address(public_key: &[u8; 64]) -> (address: [u8; 20])
    ensures
        address@ == keccak256_digest(public_key@).subrange(12, 32),
{
    let hash = keccak256_hash(public_key.as_slice());
    let mut address = [0u8; 20];
    let mut i: usize = 0;
    while i < 20
        invariant
            i <= 20,
            hash@ == keccak256_digest(public_key@),
            forall|j: int| 0 <= j < i ==> address@[j] == hash@[12 + j],
        decreases 20 - i,
    {
        address[i] = hash[i + 12];
        i += 1;
    }
    assert(address@ =~= hash@.subrange(12, 32));
    address
}

/// The eight bytes of `v`, most significant first.
pub open spec fn u64_be_bytes(v: u64) -> Seq<u8> {
    vstd::bytes::spec_u64_to_le_bytes(v).reverse()
}

/// Appends the big-endian bytes of `v` to `dst`.
pub fn append_u64_be(dst: &mut Vec<u8>, v: u64)
    ensures
        final(dst)@ == old(dst)@ + u64_be_bytes(v),
{
    let le = vstd::bytes::u64_to_le_bytes(v);
    let mut i: usize = 8;
    while i > 0
        invariant
            i <= 8,
            le@.len() == 8,
            dst@ == old(dst)@ + le@.reverse().subrange(0, 8 - i),
        decreases i,
    {
        i -= 1;
        dst.push(le[i]);
        assert(dst@ =~= old(dst)@ + le@.reverse().subrange(0, 8 - i));
    }
    assert(le@.reverse().subrange(0, 8) =~= le@.reverse());
}

/// The bytes that the wire-compatible transaction hash is taken over:
/// nonce, gas price, gas limit (each big-endian), recipient, value
/// (big-endian), payload.
pub open spec fn evm_transaction_preimage(
    nonce: u64,
    gas_price: u64,
    gas_limit: u64,
    to: Seq<u8>,
    value: u64,
    data: Seq<u8>,
) -> Seq<u8> {
    u64_be_bytes(nonce) + u64_be_bytes(gas_price) + u64_be_bytes(gas_limit) + to + u64_be_bytes(
        value,
    ) + data
}

/// The wire-compatible transaction hash.
pub fn compute_transaction_hash_evm(
    nonce: u64,
    gas_price: u64,
    gas_limit: u64,
    to: &[u8; 20],
    value: u64,
    data: &[u8],
) -> (h: [u8; 32])
    ensures
        h@ == keccak256_digest(
            evm_transaction_preimage(nonce, gas_price, gas_limit, to@, value, data@),
        ),
{
    let mut buffer: Vec<u8> = Vec::new();
    append_u64_be(&mut buffer, nonce);
    append_u64_be(&mut buffer, gas_price);
    append_u64_be(&mut buffer, gas_limit);
    append_bytes(&mut buffer, to.as_slice());
    append_u64_be(&mut buffer, value);
    append_bytes(&mut buffer, data);
    assert(buffer@ =~= evm_transaction_preimage(nonce, gas_price, gas_limit, to@, value, data@));
    keccak256_hash(buffer.as_slice())
}

/// The number of whole bytes that hold `bits` bits.
pub open spec fn bytes_for_bits(bits: nat) -> nat {
    (bits + 7) / 8
}

/// A digest wide enough for a field of `field_size_bits` bits, from SHAKE256.
pub fn zk_hash_extended(data: &[u8], field_size_bits: usize) -> (out: Vec<u8>)
    ensures
        out@ == shake256_xof(data@, bytes_for_bits(field_size_bits as nat)),
        out@.len() == bytes_for_bits(field_size_bits as nat),
{
    let whole = field_size_bits / 8;
    let output_bytes = if field_size_bits % 8 == 0 {
        whole
    } else {
        whole + 1
    };
    shake256_hash(data, output_bytes)
}

/// The inputs laid end to end.
pub open spec fn concat_digests(inputs: Seq<[u8; 32]>) -> Seq<u8>
    decreases inputs.len(),
{
    if inputs.len() == 0 {
        Seq::empty()
    } else {
        concat_digests(inputs.drop_last()) + inputs.last()@
    }
}

/// A sponge hash over several 32-byte inputs, for use in proof circuits:
/// SHAKE128 over the inputs laid end to end.
pub fn zk_poseidon_like_hash(inputs: &[[u8; 32]], output_len: usize) -> (out: Vec<u8>)
    ensures
        out@ == shake128_xof(concat_digests(inputs@), output_len as nat),
        out@.len() == output_len,
{
    let mut buffer: Vec<u8> = Vec::new();
    let mut i: usize = 0;
    assert(inputs@.subrange(0, 0) =~= Seq::<[u8; 32]>::empty());
    while i < inputs.len()
        invariant
            i <= inputs.len(),
            buffer@ == concat_digests(inputs@.subrange(0, i as int)),
        decreases inputs.len() - i,
    {
        append_bytes(&mut buffer, inputs[i].as_slice());
        proof {
            let next = inputs@.subrange(0, i + 1);
            assert(next.drop_last() =~= inputs@.subrange(0, i as int));
            assert(next.last() == inputs@[i as int]);
        }
        i += 1;
    }
    assert(inputs@.subrange(0, inputs@.len() as int) =~= inputs@);
    shake128_hash(buffer.as_slice(), output_len)
}

/// The three digests of one input: fast, wire-compatible, post-quantum-robust.
pub fn compute_consensus_hash(data: &[u8]) -> (r: ([u8; 32], [u8; 32], [u8; 32]))
    ensures
        r.0@ == blake3_digest(data@),
        r.1@ == keccak256_digest(data@),
        r.2@ == sha3_256_digest(data@),
{
    (blake3_hash(data), keccak256_hash(data), sha3_256_hash(data))
}

} // verus!
