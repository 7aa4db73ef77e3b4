//! The signature suite: a classical scheme (Ed25519, through the
//! `ed25519-dalek` crate) and a stand-in for a post-quantum scheme behind one
//! set of errors, with key storage by address and sequential verification of
//! aggregates.
//!
//! What the classical scheme computes is given names here, functions of the
//! bytes that go in; the engine's contracts are stated over those names.

use crate::address_map::AddressMap;
use crate::crypto::hash::{blake3_digest, blake3_hash};
use crate::types::{Address, SignatureType};
use vstd::bytes::{
    lemma_auto_spec_u32_to_from_le_bytes, spec_u32_from_le_bytes, spec_u32_to_le_bytes,
    u32_from_le_bytes, u32_to_le_bytes,
};
use vstd::prelude::*;

verus! {

/// Why a signature operation failed.
#[derive(Debug, Clone, Copy, PartialEq, Eq, Structural)]
pub enum SignatureError {
    /// No key is held for the address.
    NoKeyForAddress,
    /// A classical signature must have 64 bytes.
    InvalidSignatureLength,
    /// A classical public key must have 32 bytes.
    InvalidPublicKeyLength,
    /// The 32 bytes are not a public key.
    InvalidPublicKey,
    /// The signature is not one over the message under the key.
    VerificationFailed,
    /// A post-quantum signature is too short, or not made by this address
    /// for a message of this length.
    InvalidLmsFormat,
    /// A post-quantum signature is over another message.
    LmsHashMismatch,
}

/// The Ed25519 public key that belongs to a 32-byte secret seed.
pub uninterp spec fn ed25519_public_key(seed: Seq<u8>) -> Seq<u8>;

/// The Ed25519 signature that a secret seed gives over a message.
pub uninterp spec fn ed25519_signature(seed: Seq<u8>, message: Seq<u8>) -> Seq<u8>;

/// Whether 32 bytes are an Ed25519 public key.
pub uninterp spec fn ed25519_key_valid(public_key: Seq<u8>) -> bool;

/// Whether a 64-byte signature is accepted for a message under a public key.
pub uninterp spec fn ed25519_accepts(
    public_key: Seq<u8>,
    message: Seq<u8>,
    signature: Seq<u8>,
) -> bool;

/// `ed25519_dalek::SigningKey::verifying_key`, for the key made from `seed`:
/// the public key of the seed, which is always a valid key.
#[verifier::external_body]
fn derive_public_key(seed: &[u8; 32]) -> (public_key: [u8; 32])
    ensures
        public_key@ == ed25519_public_key(seed@),
        ed25519_key_valid(public_key@),
{
    ed25519_dalek::SigningKey::from_bytes(seed).verifying_key().to_bytes()
}

/// `ed25519_dalek::Signer::sign`, for the key made from `seed`: signing is
/// deterministic, and the signature is accepted under the seed's public key.
#[verifier::external_body]
fn sign_with_seed(seed: &[u8; 32], message: &[u8]) -> (signature: [u8; 64])
    ensures
        signature@ == ed25519_signature(seed@, message@),
        ed25519_accepts(ed25519_public_key(seed@), message@, signature@),
{
    let key = ed25519_dalek::SigningKey::from_bytes(seed);
    ed25519_dalek::Signer::sign(&key, message).to_bytes()
}

/// `ed25519_dalek::VerifyingKey::from_bytes` and `Verifier::verify`: nothing
/// where the bytes are no public key, else whether the signature is accepted.
#[verifier::external_body]
fn check_signature(public_key: &[u8; 32], message: &[u8], signature: &[u8; 64]) -> (r: Option<bool>)
    ensures
        r is Some <==> ed25519_key_valid(public_key@),
        r matches Some(accepted) ==> accepted == ed25519_accepts(
            public_key@,
            message@,
            signature@,
        ),
{
    match ed25519_dalek::VerifyingKey::from_bytes(public_key) {
        Err(_) => None,
        Ok(key) => {
            let signature = ed25519_dalek::Signature::from_bytes(signature);
            Some(ed25519_dalek::Verifier::verify(&key, message, &signature).is_ok())
        },
    }
}

/// `rand::rngs::OsRng`: 32 bytes from the operating system's generator.
#[verifier::external_body]
fn random_seed() -> (seed: [u8; 32]) {
    let mut seed = [0u8; 32];
    rand::RngCore::fill_bytes(&mut rand::rngs::OsRng, &mut seed);
    seed
}

/// The first 32 bytes of `bytes` as an array.
fn to_array_32(bytes: &[u8]) -> (a: [u8; 32])
    requires
        bytes@.len() >= 32,
    ensures
        a@ == bytes@.subrange(0, 32),
{
    let mut a = [0u8; 32];
    let mut i: usize = 0;
    while i < 32
        invariant
            i <= 32,
            bytes@.len() >= 32,
            forall|j: int| 0 <= j < i ==> a@[j] == bytes@[j],
        decreases 32 - i,
    {
        a[i] = bytes[i];
        i += 1;
    }
    assert(a@ =~= bytes@.subrange(0, 32));
    a
}

/// The first 64 bytes of `bytes` as an array.
fn to_array_64(bytes: &[u8]) -> (a: [u8; 64])
    requires
        bytes@.len() >= 64,
    ensures
        a@ == bytes@.subrange(0, 64),
{
    let mut a = [0u8; 64];
    let mut i: usize = 0;
    while i < 64
        invariant
            i <= 64,
            bytes@.len() >= 64,
            forall|j: int| 0 <= j < i ==> a@[j] == bytes@[j],
        decreases 64 - i,
    {
        a[i] = bytes[i];
        i += 1;
    }
    assert(a@ =~= bytes@.subrange(0, 64));
    a
}

/// What verifying a classical signature under a public key gives.
pub open spec fn verify_with_public_key_spec(
    signature: Seq<u8>,
    public_key: Seq<u8>,
    message: Seq<u8>,
) -> Result<(), SignatureError> {
    if signature.len() != 64 {
        Err(SignatureError::InvalidSignatureLength)
    } else if public_key.len() != 32 {
        Err(SignatureError::InvalidPublicKeyLength)
    } else if !ed25519_key_valid(public_key) {
        Err(SignatureError::InvalidPublicKey)
    } else if !ed25519_accepts(public_key, message, signature) {
        Err(SignatureError::VerificationFailed)
    } else {
        Ok(())
    }
}

/// Holds the classical signing keys by address, signs with them and verifies.
pub struct SignatureEngine {
    ed25519_keys: AddressMap<[u8; 32]>,
}

impl SignatureEngine {
    /// The secret seeds held, by address.
    pub closed spec fn seeds(&self) -> Map<Seq<u8>, [u8; 32]> {
        self.ed25519_keys@
    }

    /// What verifying a signature by the key of an address gives.
    pub open spec fn verify_ed25519_spec(
        &self,
        signature: Seq<u8>,
        address: Seq<u8>,
        message: Seq<u8>,
    ) -> Result<(), SignatureError> {
        if signature.len() != 64 {
            Err(SignatureError::InvalidSignatureLength)
        } else if !self.seeds().contains_key(address) {
            Err(SignatureError::NoKeyForAddress)
        } else if !ed25519_accepts(
            ed25519_public_key(self.seeds()[address]@),
            message,
            signature,
        ) {
            Err(SignatureError::VerificationFailed)
        } else {
            Ok(())
        }
    }

    /// An engine that holds no key.
    pub fn new() -> (engine: SignatureEngine)
        ensures
            engine.seeds() == Map::<Seq<u8>, [u8; 32]>::empty(),
    {
        SignatureEngine { ed25519_keys: AddressMap::new() }
    }

    /// The number of addresses that a key is held for.
    pub fn key_count(&self) -> (n: usize)
        ensures
            n == self.seeds().dom().len(),
    {
        proof {
            use_type_invariant(&self.ed25519_keys);
            self.ed25519_keys.lemma_domain_size();
        }
        self.ed25519_keys.len()
    }

    /// Makes a fresh key for `address` and gives its public key. Which key it
    /// is depends on chance; it replaces the one held before.
    pub fn generate_ed25519_keypair(&mut self, address: Address) -> (r: Result<
        Vec<u8>,
        SignatureError,
    >)
        ensures
            r matches Ok(public_key) && final(self).seeds().contains_key(address@)
                && public_key@ == ed25519_public_key(final(self).seeds()[address@]@)
                && final(self).seeds() == old(self).seeds().insert(
                address@,
                final(self).seeds()[address@],
            ),
    {
        let seed = random_seed();
        self.generate_keypair_from_seed(address, &seed)
    }

    /// Makes the key of `seed` the key of `address` and gives its public key.
    pub fn generate_keypair_from_seed(&mut self, address: Address, seed: &[u8; 32]) -> (r: Result<
        Vec<u8>,
        SignatureError,
    >)
        ensures
            final(self).seeds() == old(self).seeds().insert(address@, *seed),
            r matches Ok(public_key) && public_key@ == ed25519_public_key(seed@),
    {
        let public_key = derive_public_key(seed);
        self.ed25519_keys.insert(address, *seed);
        Ok(vstd::slice::slice_to_vec(public_key.as_slice()))
    }

    /// The public key of `address`.
    pub fn get_public_key(&self, address: &Address) -> (r: Result<Vec<u8>, SignatureError>)
        ensures
            match r {
                Ok(public_key) => self.seeds().contains_key(address@) && public_key@
                    == ed25519_public_key(self.seeds()[address@]@) && ed25519_key_valid(
                    public_key@,
                ),
                Err(e) => e == SignatureError::NoKeyForAddress && !self.seeds().contains_key(
                    address@,
                ),
            },
    {
        match self.ed25519_keys.get(address) {
            None => Err(SignatureError::NoKeyForAddress),
            Some(seed) => {
                let public_key = derive_public_key(seed);
                Ok(vstd::slice::slice_to_vec(public_key.as_slice()))
            },
        }
    }

    /// Signs `message` with the key of `address`. The signature is the one
    /// the key always gives for the message, and verifies under the public
    /// key of `address`.
    pub fn sign_ed25519(&self, address: &Address, message: &[u8]) -> (r: Result<
        Vec<u8>,
        SignatureError,
    >)
        ensures
            match r {
                Ok(signature) => {
                    &&& self.seeds().contains_key(address@)
                    &&& signature@ == ed25519_signature(self.seeds()[address@]@, message@)
                    &&& signature@.len() == 64
                    &&& self.verify_ed25519_spec(signature@, address@, message@) is Ok
                    &&& verify_with_public_key_spec(
                        signature@,
                        ed25519_public_key(self.seeds()[address@]@),
                        message@,
                    ) is Ok
                },
                Err(e) => e == SignatureError::NoKeyForAddress && !self.seeds().contains_key(
                    address@,
                ),
            },
    {
        match self.ed25519_keys.get(address) {
            None => Err(SignatureError::NoKeyForAddress),
            Some(seed) => {
                let signature = sign_with_seed(seed, message);
                let public_key = derive_public_key(seed);
                Ok(vstd::slice::slice_to_vec(signature.as_slice()))
            },
        }
    }

    /// Verifies a signature over `message` by the key held for `address`.
    pub fn verify_ed25519(&self, signature: &[u8], address: &Address, message: &[u8]) -> (r: Result<
        (),
        SignatureError,
    >)
        ensures
            r == self.verify_ed25519_spec(signature@, address@, message@),
    {
        if signature.len() != 64 {
            return Err(SignatureError::InvalidSignatureLength);
        }
        let seed = match self.ed25519_keys.get(address) {
            None => {
                return Err(SignatureError::NoKeyForAddress);
            },
            Some(seed) => seed,
        };
        let public_key = derive_public_key(seed);
        let sig = to_array_64(signature);
        assert(sig@ =~= signature@);
        match check_signature(&public_key, message, &sig) {
            Some(true) => Ok(()),
            _ => Err(SignatureError::VerificationFailed),
        }
    }

    /// Verifies a signature over `message` under a public key that the caller
    /// supplies; no stored key is consulted.
    pub fn verify_with_public_key(&self, signature: &[u8], public_key: &[u8], message: &[u8]) -> (r:
        Result<(), SignatureError>)
        ensures
            r == verify_with_public_key_spec(signature@, public_key@, message@),
    {
        verify_signature(signature, public_key, message)
    }
}

/// Verifies a classical signature over `message` under `public_key`.
pub fn verify_signature(signature: &[u8], public_key: &[u8], message: &[u8]) -> (r: Result<
    (),
    SignatureError,
>)
    ensures
        r == verify_with_public_key_spec(signature@, public_key@, message@),
{
    if signature.len() != 64 {
        return Err(SignatureError::InvalidSignatureLength);
    }
    if public_key.len() != 32 {
        return Err(SignatureError::InvalidPublicKeyLength);
    }
    let key = to_array_32(public_key);
    let sig = to_array_64(signature);
    assert(key@ =~= public_key@);
    assert(sig@ =~= signature@);
    match check_signature(&key, message, &sig) {
        None => Err(SignatureError::InvalidPublicKey),
        Some(false) => Err(SignatureError::VerificationFailed),
        Some(true) => Ok(()),
    }
}

/// Verifies each signature under its key over its message, and reports on
/// every one: entry `i` of the result says whether signature `i` verifies.
/// An entry without a key or a message does not verify.
pub fn verify_batch(signatures: &[Vec<u8>], public_keys: &[Vec<u8>], messages: &[Vec<u8>]) -> (r:
    Vec<bool>)
    ensures
        r@.len() == signatures@.len(),
        forall|i: int|
            0 <= i < signatures@.len() ==> #[trigger] r@[i] == (i < public_keys@.len() && i
                < messages@.len() && verify_with_public_key_spec(
                signatures@[i]@,
                public_keys@[i]@,
                messages@[i]@,
            ) is Ok),
{
    let mut results: Vec<bool> = Vec::new();
    let mut i: usize = 0;
    while i < signatures.len()
        invariant
            i <= signatures@.len(),
            results@.len() == i,
            forall|j: int|
                0 <= j < i ==> #[trigger] results@[j] == (j < public_keys@.len() && j
                    < messages@.len() && verify_with_public_key_spec(
                    signatures@[j]@,
                    public_keys@[j]@,
                    messages@[j]@,
                ) is Ok),
        decreases signatures@.len() - i,
    {
        let ok = if i < public_keys.len() && i < messages.len() {
            verify_signature(
                signatures[i].as_slice(),
                public_keys[i].as_slice(),
                messages[i].as_slice(),
            ).is_ok()
        } else {
            false
        };
        results.push(ok);
        i += 1;
    }
    results
}

/// The size of a post-quantum signature in bytes.
pub const LMS_SIGNATURE_SIZE: usize = 1024;

/// The byte that marks a post-quantum public key.
pub const LMS_KEY_MARKER: u8 = 0xFF;

/// The byte that marks a post-quantum signature.
pub const LMS_SIGNATURE_MARKER: u8 = 0xAA;

/// The length of a message as the signature records it: its low 32 bits.
pub open spec fn lms_length_field(message: Seq<u8>) -> Seq<u8> {
    spec_u32_to_le_bytes((message.len() % 0x1_0000_0000) as u32)
}

/// The post-quantum public key of an address: its first four bytes, the key
/// marker, its other sixteen bytes, and zeros up to 32 bytes.
pub open spec fn lms_public_key_spec(address: Seq<u8>) -> Seq<u8> {
    Seq::new(
        32,
        |i: int|
            if i < 4 {
                address[i]
            } else if i == 4 {
                LMS_KEY_MARKER
            } else if i < 21 {
                address[i - 1]
            } else {
                0u8
            },
    )
}

/// The number of bytes of a post-quantum signature that verification reads:
/// the fields up to the end of the signer's address.
pub const LMS_SIGNED_PREFIX: usize = 57;

/// The post-quantum signature of an address over a message: the first four
/// bytes of the address, the message's length, the signature marker, the
/// message's BLAKE3 digest, the other sixteen bytes of the address, and
/// zeros up to 1024 bytes.
pub open spec fn lms_signature_spec(address: Seq<u8>, message: Seq<u8>) -> Seq<u8> {
    Seq::new(
        1024,
        |i: int|
            if i < 4 {
                address[i]
            } else if i < 8 {
                lms_length_field(message)[i - 4]
            } else if i == 8 {
                LMS_SIGNATURE_MARKER
            } else if i < 41 {
                blake3_digest(message)[i - 9]
            } else if i < 57 {
                address[i - 37]
            } else {
                0u8
            },
    )
}

/// Whether bytes 9 to 40 of a signature are the first 32 bytes of `digest`.
pub open spec fn lms_digest_matches(signature: Seq<u8>, digest: Seq<u8>) -> bool {
    forall|j: int| 0 <= j < 32 ==> signature[9 + j] == #[trigger] digest[j]
}

/// The address that a signature of at least 57 bytes names as its signer:
/// bytes 0 to 3, then bytes 41 to 56.
pub open spec fn lms_signer(signature: Seq<u8>) -> Seq<u8> {
    signature.subrange(0, 4) + signature.subrange(41, 57)
}

/// What verifying a post-quantum signature gives. The signature is accepted
/// for the one address that it names, all twenty bytes of it, and for a
/// message of the length and the digest that it records. The length is
/// recorded and compared in its low 32 bits.
pub open spec fn verify_lms_spec(signature: Seq<u8>, address: Seq<u8>, message: Seq<u8>) -> Result<
    (),
    SignatureError,
> {
    if signature.len() >= 57 && lms_signer(signature) == address && signature.subrange(4, 8)
        == lms_length_field(message) && signature[8] == LMS_SIGNATURE_MARKER {
        if lms_digest_matches(signature, blake3_digest(message)) {
            Ok(())
        } else {
            Err(SignatureError::LmsHashMismatch)
        }
    } else {
        Err(SignatureError::InvalidLmsFormat)
    }
}

/// Signs and verifies with the post-quantum scheme. The scheme here is a
/// stand-in that fixes the size and the layout of a signature and what a
/// verifier checks of it: the signer it names, the length and the digest of
/// the message. It holds no secret, so it binds a signature to a signer and
/// a message but does not keep anyone from making one.
pub struct PostQuantumSigner {}

impl PostQuantumSigner {
    pub fn new() -> (r: Result<PostQuantumSigner, SignatureError>)
        ensures
            r is Ok,
    {
        Ok(PostQuantumSigner {  })
    }

    /// The post-quantum public key of `address`.
    pub fn generate_lms_keypair(&mut self, address: Address) -> (r: Result<Vec<u8>, SignatureError>)
        ensures
            r matches Ok(public_key) && public_key@ == lms_public_key_spec(address@),
    {
        let mut public_key: Vec<u8> = Vec::new();
        let mut i: usize = 0;
        while i < 32
            invariant
                i <= 32,
                public_key@.len() == i,
                forall|j: int| 0 <= j < i ==> public_key@[j] == lms_public_key_spec(address@)[j],
            decreases 32 - i,
        {
            let byte = if i < 4 {
                address.0[i]
            } else if i == 4 {
                LMS_KEY_MARKER
            } else if i < 21 {
                address.0[i - 1]
            } else {
                0u8
            };
            public_key.push(byte);
            i += 1;
        }
        assert(public_key@ =~= lms_public_key_spec(address@));
        Ok(public_key)
    }

    /// Signs `message` for `address` with the post-quantum scheme.
    pub fn sign_lms(&self, address: &Address, message: &[u8]) -> (r: Result<Vec<u8>, SignatureError>)
        ensures
            r matches Ok(signature) && signature@ == lms_signature_spec(address@, message@),
    {
        let length = u32_to_le_bytes((message.len() as u64 % 0x1_0000_0000) as u32);
        let digest = blake3_hash(message);
        let mut signature: Vec<u8> = Vec::new();
        let mut i: usize = 0;
        proof {
            lemma_auto_spec_u32_to_from_le_bytes();
        }
        while i < 1024
            invariant
                i <= 1024,
                signature@.len() == i,
                length@ == lms_length_field(message@),
                length@.len() == 4,
                digest@ == blake3_digest(message@),
                forall|j: int|
                    0 <= j < i ==> signature@[j] == lms_signature_spec(address@, message@)[j],
            decreases 1024 - i,
        {
            let byte = if i < 4 {
                address.0[i]
            } else if i < 8 {
                length[i - 4]
            } else if i == 8 {
                LMS_SIGNATURE_MARKER
            } else if i < 41 {
                digest[i - 9]
            } else if i < 57 {
                address.0[i - 37]
            } else {
                0u8
            };
            signature.push(byte);
            i += 1;
        }
        assert(signature@ =~= lms_signature_spec(address@, message@));
        Ok(signature)
    }

    /// Verifies a post-quantum signature of `address` over `message`.
    pub fn verify_lms(&self, signature: &[u8], address: &Address, message: &[u8]) -> (r: Result<
        (),
        SignatureError,
    >)
        ensures
            r == verify_lms_spec(signature@, address@, message@),
    {
        if signature.len() < LMS_SIGNED_PREFIX {
            return Err(SignatureError::InvalidLmsFormat);
        }
        let mut i: usize = 0;
        while i < 20
            invariant
                i <= 20,
                signature@.len() >= 57,
                address@.len() == 20,
                forall|j: int| 0 <= j < i ==> lms_signer(signature@)[j] == address@[j],
            decreases 20 - i,
        {
            let named = if i < 4 {
                signature[i]
            } else {
                signature[i + 37]
            };
            assert(named == lms_signer(signature@)[i as int]);
            if named != address.0[i] {
                return Err(SignatureError::InvalidLmsFormat);
            }
            i += 1;
        }
        assert(lms_signer(signature@) =~= address@);
        let length = u32_to_le_bytes((message.len() as u64 % 0x1_0000_0000) as u32);
        proof {
            lemma_auto_spec_u32_to_from_le_bytes();
        }
        let mut k: usize = 0;
        while k < 4
            invariant
                k <= 4,
                signature@.len() >= 57,
                length@ == lms_length_field(message@),
                length@.len() == 4,
                forall|j: int| 0 <= j < k ==> signature@[4 + j] == length@[j],
            decreases 4 - k,
        {
            if signature[4 + k] != length[k] {
                assert(signature@.subrange(4, 8)[k as int] != lms_length_field(message@)[k as int]);
                return Err(SignatureError::InvalidLmsFormat);
            }
            k += 1;
        }
        assert(signature@.subrange(4, 8) =~= lms_length_field(message@));
        if signature[8] != LMS_SIGNATURE_MARKER {
            return Err(SignatureError::InvalidLmsFormat);
        }
        let expected = blake3_hash(message);
        let mut j: usize = 0;
        while j < 32
            invariant
                j <= 32,
                signature@.len() >= 57,
                lms_signer(signature@) == address@,
                signature@.subrange(4, 8) == lms_length_field(message@),
                signature@[8] == LMS_SIGNATURE_MARKER,
                expected@ == blake3_digest(message@),
                forall|k: int| 0 <= k < j ==> signature@[9 + k] == expected@[k],
            decreases 32 - j,
        {
            if signature[9 + j] != expected[j] {
                return Err(SignatureError::LmsHashMismatch);
            }
            j += 1;
        }
        Ok(())
    }

    /// The size in bytes of a signature of the given scheme.
    pub fn get_signature_size(&self, sig_type: &SignatureType) -> (size: usize)
        ensures
            size == if *sig_type == SignatureType::PostQuantum {
                1024usize
            } else {
                64usize
            },
    {
        match sig_type {
            SignatureType::PostQuantum => LMS_SIGNATURE_SIZE,
            _ => 64,
        }
    }
}

/// A post-quantum signature verifies for the address and the message it was
/// made for.
pub proof fn lemma_lms_sign_then_verify(address: Seq<u8>, message: Seq<u8>)
    requires
        address.len() == 20,
    ensures
        verify_lms_spec(lms_signature_spec(address, message), address, message) is Ok,
{
    lemma_auto_spec_u32_to_from_le_bytes();
    let signature = lms_signature_spec(address, message);
    assert(lms_signer(signature) =~= address);
    assert(signature.subrange(4, 8) =~= lms_length_field(message));
}

/// A post-quantum signature is accepted for no other address than the one it
/// was made for, whatever the message.
pub proof fn lemma_lms_signer_is_bound(
    address: Seq<u8>,
    other: Seq<u8>,
    message: Seq<u8>,
    claimed: Seq<u8>,
)
    requires
        address.len() == 20,
        other != address,
    ensures
        verify_lms_spec(lms_signature_spec(address, message), other, claimed) is Err,
{
    let signature = lms_signature_spec(address, message);
    assert(lms_signer(signature) =~= address);
}

/// A post-quantum signature is accepted only for a message of the length,
/// in its low 32 bits, and the digest of the one it was made for.
pub proof fn lemma_lms_message_is_bound(address: Seq<u8>, message: Seq<u8>, claimed: Seq<u8>)
    requires
        address.len() == 20,
        verify_lms_spec(lms_signature_spec(address, message), address, claimed) is Ok,
    ensures
        claimed.len() % 0x1_0000_0000 == message.len() % 0x1_0000_0000,
        forall|j: int|
            0 <= j < 32 ==> #[trigger] blake3_digest(claimed)[j] == blake3_digest(message)[j],
{
    lemma_auto_spec_u32_to_from_le_bytes();
    let signature = lms_signature_spec(address, message);
    assert(signature.subrange(4, 8) =~= lms_length_field(message));
    assert(spec_u32_from_le_bytes(lms_length_field(claimed)) == spec_u32_from_le_bytes(
        lms_length_field(message),
    ));
    assert forall|j: int| 0 <= j < 32 implies #[trigger] blake3_digest(claimed)[j]
        == blake3_digest(message)[j] by {
        assert(signature[9 + j] == blake3_digest(message)[j]);
    }
}

/// The signatures laid end to end.
pub open spec fn concat_signatures(signatures: Seq<Vec<u8>>) -> Seq<u8>
    decreases signatures.len(),
{
    if signatures.len() == 0 {
        Seq::empty()
    } else {
        concat_signatures(signatures.drop_last()) + signatures.last()@
    }
}

/// Whether an aggregate of classical signatures verifies: it holds one
/// 64-byte signature for each key, and signature `i` verifies under key `i`
/// over message `i`.
pub open spec fn aggregate_verifies(
    signature: Seq<u8>,
    messages: Seq<Vec<u8>>,
    public_keys: Seq<Vec<u8>>,
) -> bool {
    &&& messages.len() == public_keys.len()
    &&& signature.len() == 64 * public_keys.len()
    &&& forall|i: int|
        0 <= i < public_keys.len() ==> verify_with_public_key_spec(
            signature.subrange(64 * i, 64 * i + 64),
            (#[trigger] public_keys[i])@,
            messages[i]@,
        ) is Ok
}

/// Puts attestations together into one aggregate, and verifies an aggregate.
/// Aggregation is deferred: the aggregate is the signatures laid end to end,
/// and verifying it verifies each in turn.
pub struct SignatureAggregator {}

impl SignatureAggregator {
    pub fn new() -> (a: SignatureAggregator) {
        SignatureAggregator {  }
    }

    /// The aggregate of the signatures: all of them, end to end, in order.
    pub fn aggregate_signatures(&self, signatures: Vec<Vec<u8>>) -> (r: Result<
        Vec<u8>,
        SignatureError,
    >)
        ensures
            r matches Ok(aggregate) && aggregate@ == concat_signatures(signatures@),
    {
        let mut aggregate: Vec<u8> = Vec::new();
        let mut i: usize = 0;
        assert(signatures@.subrange(0, 0) =~= Seq::<Vec<u8>>::empty());
        while i < signatures.len()
            invariant
                i <= signatures@.len(),
                aggregate@ == concat_signatures(signatures@.subrange(0, i as int)),
            decreases signatures@.len() - i,
        {
            crate::crypto::hash::append_bytes(&mut aggregate, signatures[i].as_slice());
            proof {
                let next = signatures@.subrange(0, i + 1);
                assert(next.drop_last() =~= signatures@.subrange(0, i as int));
                assert(next.last() == signatures@[i as int]);
            }
            i += 1;
        }
        assert(signatures@.subrange(0, signatures@.len() as int) =~= signatures@);
        Ok(aggregate)
    }

    /// Whether an aggregate of classical signatures verifies for the given
    /// messages and keys, one signature for each.
    pub fn verify_aggregated_signature(
        &self,
        signature: &[u8],
        messages: &[Vec<u8>],
        public_keys: &[Vec<u8>],
    ) -> (r: Result<bool, SignatureError>)
        ensures
            r == Ok::<bool, SignatureError>(
                aggregate_verifies(signature@, messages@, public_keys@),
            ),
    {
        let n = public_keys.len();
        if messages.len() != n {
            return Ok(false);
        }
        if signature.len() % 64 != 0 || signature.len() / 64 != n {
            return Ok(false);
        }
        let mut i: usize = 0;
        while i < n
            invariant
                i <= n,
                n == public_keys@.len(),
                n == messages@.len(),
                signature@.len() == 64 * n,
                64 * n <= usize::MAX,
                forall|j: int|
                    0 <= j < i ==> verify_with_public_key_spec(
                        signature@.subrange(64 * j, 64 * j + 64),
                        (#[trigger] public_keys@[j])@,
                        messages@[j]@,
                    ) is Ok,
            decreases n - i,
        {
            let part = vstd::slice::slice_subrange(signature, 64 * i, 64 * i + 64);
            if verify_signature(part, public_keys[i].as_slice(), messages[i].as_slice()).is_err() {
                assert(!(verify_with_public_key_spec(
                    signature@.subrange(64 * i, 64 * i + 64),
                    public_keys@[i as int]@,
                    messages@[i as int]@,
                ) is Ok));
                return Ok(false);
            }
            i += 1;
        }
        Ok(true)
    }
}

} // verus!
