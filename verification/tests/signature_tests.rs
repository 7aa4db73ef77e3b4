use zk_sac_engine::crypto::hash::blake3_hash;
use zk_sac_engine::crypto::signatures::{
    verify_batch, verify_signature, PostQuantumSigner, SignatureAggregator, SignatureEngine,
    SignatureError,
};
use zk_sac_engine::types::{Address, SignatureType};

#[test]
fn ed25519_sign_then_verify() {
    let mut engine = SignatureEngine::new();
    let address = Address::new(1);
    let message = b"test message";
    let public_key = engine.generate_ed25519_keypair(address).unwrap();
    assert_eq!(public_key.len(), 32);
    assert_eq!(engine.key_count(), 1);
    let signature = engine.sign_ed25519(&address, message).unwrap();
    assert_eq!(signature.len(), 64);
    assert_eq!(engine.verify_ed25519(&signature, &address, message), Ok(()));
    assert_eq!(engine.verify_with_public_key(&signature, &public_key, message), Ok(()));
    assert_eq!(engine.get_public_key(&address).unwrap(), public_key);
}

#[test]
fn ed25519_from_seed_matches_known_vector() {
    // The first test vector of RFC 8032, section 7.1.
    let seed: [u8; 32] = [
        0x9d, 0x61, 0xb1, 0x9d, 0xef, 0xfd, 0x5a, 0x60, 0xba, 0x84, 0x4a, 0xf4, 0x92, 0xec, 0x2c, 0xc4,
        0x44, 0x49, 0xc5, 0x69, 0x7b, 0x32, 0x69, 0x19, 0x70, 0x3b, 0xac, 0x03, 0x1c, 0xae, 0x7f, 0x60,
    ];
    let public: [u8; 32] = [
        0xd7, 0x5a, 0x98, 0x01, 0x82, 0xb1, 0x0a, 0xb7, 0xd5, 0x4b, 0xfe, 0xd3, 0xc9, 0x64, 0x07, 0x3a,
        0x0e, 0xe1, 0x72, 0xf3, 0xda, 0xa6, 0x23, 0x25, 0xaf, 0x02, 0x1a, 0x68, 0xf7, 0x07, 0x51, 0x1a,
    ];
    let mut engine = SignatureEngine::new();
    let address = Address::new(7);
    let derived = engine.generate_keypair_from_seed(address, &seed).unwrap();
    assert_eq!(derived, public.to_vec());
    let signature = engine.sign_ed25519(&address, b"").unwrap();
    assert_eq!(&signature[..4], &[0xe5, 0x56, 0x43, 0x00]);
    assert_eq!(signature, engine.sign_ed25519(&address, b"").unwrap());
    assert_eq!(verify_signature(&signature, &public, b""), Ok(()));
}

#[test]
fn ed25519_errors_each_have_their_input() {
    let mut engine = SignatureEngine::new();
    let a = Address::new(1);
    let b = Address::new(2);
    let key_a = engine.generate_keypair_from_seed(a, &[1; 32]).unwrap();
    let key_b = engine.generate_keypair_from_seed(b, &[2; 32]).unwrap();
    assert_ne!(key_a, key_b);
    let signature = engine.sign_ed25519(&a, b"m").unwrap();

    assert_eq!(engine.sign_ed25519(&Address::new(3), b"m"), Err(SignatureError::NoKeyForAddress));
    assert_eq!(engine.get_public_key(&Address::new(3)), Err(SignatureError::NoKeyForAddress));
    assert_eq!(
        engine.verify_ed25519(&signature[..63], &a, b"m"),
        Err(SignatureError::InvalidSignatureLength)
    );
    assert_eq!(
        engine.verify_ed25519(&signature, &Address::new(3), b"m"),
        Err(SignatureError::NoKeyForAddress)
    );
    assert_eq!(engine.verify_ed25519(&signature, &b, b"m"), Err(SignatureError::VerificationFailed));
    assert_eq!(engine.verify_ed25519(&signature, &a, b"n"), Err(SignatureError::VerificationFailed));

    assert_eq!(
        engine.verify_with_public_key(&[0; 65], &key_a, b"m"),
        Err(SignatureError::InvalidSignatureLength)
    );
    assert_eq!(
        engine.verify_with_public_key(&signature, &key_a[..31], b"m"),
        Err(SignatureError::InvalidPublicKeyLength)
    );
    let mut no_point = [0u8; 32];
    no_point[0] = 2;
    assert_eq!(
        engine.verify_with_public_key(&signature, &no_point, b"m"),
        Err(SignatureError::InvalidPublicKey)
    );
    assert_eq!(
        engine.verify_with_public_key(&signature, &key_b, b"m"),
        Err(SignatureError::VerificationFailed)
    );
}

#[test]
fn a_new_key_replaces_the_old_one() {
    let mut engine = SignatureEngine::new();
    let a = Address::new(1);
    let first = engine.generate_keypair_from_seed(a, &[1; 32]).unwrap();
    let signature = engine.sign_ed25519(&a, b"m").unwrap();
    let second = engine.generate_keypair_from_seed(a, &[2; 32]).unwrap();
    assert_ne!(first, second);
    assert_eq!(engine.key_count(), 1);
    assert_eq!(engine.get_public_key(&a).unwrap(), second);
    assert_eq!(engine.verify_ed25519(&signature, &a, b"m"), Err(SignatureError::VerificationFailed));
}

#[test]
fn lms_signature_layout_and_round_trip() {
    let mut signer = PostQuantumSigner::new().unwrap();
    let address = Address([9, 8, 7, 6, 5, 4, 3, 2, 1, 0, 0, 0, 0, 0, 0, 0, 0, 0, 0, 0]);
    let message = b"post-quantum test message";
    let public_key = signer.generate_lms_keypair(address).unwrap();
    let mut expected_key = vec![0u8; 32];
    expected_key[..4].copy_from_slice(&[9, 8, 7, 6]);
    expected_key[4] = 0xFF;
    expected_key[5..21].copy_from_slice(&address.0[4..20]);
    assert_eq!(public_key, expected_key);

    let signature = signer.sign_lms(&address, message).unwrap();
    assert_eq!(signature.len(), 1024);
    assert_eq!(&signature[0..4], &[9, 8, 7, 6]);
    assert_eq!(&signature[4..8], &25u32.to_le_bytes());
    assert_eq!(signature[8], 0xAA);
    assert_eq!(&signature[9..41], &blake3_hash(message));
    assert_eq!(&signature[41..57], &address.0[4..20]);
    assert!(signature[57..].iter().all(|b| *b == 0));
    assert_eq!(signer.verify_lms(&signature, &address, message), Ok(()));
    assert_eq!(signer.get_signature_size(&SignatureType::PostQuantum), 1024);
    assert_eq!(signer.get_signature_size(&SignatureType::Ed25519), 64);
    assert_eq!(signer.get_signature_size(&SignatureType::Secp256k1), 64);
}

#[test]
fn test_lms_signature_cycle() {
    let mut signer = PostQuantumSigner::new().unwrap();
    let address = Address::new(2);
    let message = b"post-quantum test message";

    let _public_key = signer.generate_lms_keypair(address).unwrap();
    let signature = signer.sign_lms(&address, message).unwrap();
    signer.verify_lms(&signature, &address, message).unwrap();
}

#[test]
fn test_ed25519_signature_cycle() {
    let mut engine = SignatureEngine::new();
    let address = Address::new(1);
    let message = b"test message";

    let _public_key = engine.generate_ed25519_keypair(address).unwrap();
    let signature = engine.sign_ed25519(&address, message).unwrap();
    engine.verify_ed25519(&signature, &address, message).unwrap();
}

#[test]
fn lms_errors_each_have_their_input() {
    let signer = PostQuantumSigner::new().unwrap();
    let address = Address([1; 20]);
    let signature = signer.sign_lms(&address, b"abc").unwrap();
    assert_eq!(
        signer.verify_lms(&signature[..40], &address, b"abc"),
        Err(SignatureError::InvalidLmsFormat)
    );
    assert_eq!(
        signer.verify_lms(&signature[..56], &address, b"abc"),
        Err(SignatureError::InvalidLmsFormat)
    );
    assert_eq!(signer.verify_lms(&signature[..57], &address, b"abc"), Ok(()));
    assert_eq!(
        signer.verify_lms(&signature, &Address([2; 20]), b"abc"),
        Err(SignatureError::InvalidLmsFormat)
    );
    assert_eq!(
        signer.verify_lms(&signature, &address, b"abcd"),
        Err(SignatureError::InvalidLmsFormat)
    );
    let mut unmarked = signature.clone();
    unmarked[8] = 0;
    assert_eq!(signer.verify_lms(&unmarked, &address, b"abc"), Err(SignatureError::InvalidLmsFormat));
    assert_eq!(signer.verify_lms(&signature, &address, b"abd"), Err(SignatureError::LmsHashMismatch));
    let mut other_digest = signature.clone();
    other_digest[40] ^= 1;
    assert_eq!(
        signer.verify_lms(&other_digest, &address, b"abc"),
        Err(SignatureError::LmsHashMismatch)
    );
}

#[test]
fn batch_verification_reports_on_every_signature() {
    let mut engine = SignatureEngine::new();
    let keys: Vec<Vec<u8>> = (1..=3u8)
        .map(|i| engine.generate_keypair_from_seed(Address::new(i), &[i; 32]).unwrap())
        .collect();
    let messages = vec![b"a".to_vec(), b"b".to_vec(), b"c".to_vec()];
    let mut signatures: Vec<Vec<u8>> = (1..=3u8)
        .map(|i| engine.sign_ed25519(&Address::new(i), &messages[i as usize - 1]).unwrap())
        .collect();
    assert_eq!(verify_batch(&signatures, &keys, &messages), vec![true, true, true]);
    signatures[1][3] ^= 1;
    assert_eq!(verify_batch(&signatures, &keys, &messages), vec![true, false, true]);
    assert_eq!(verify_batch(&signatures, &keys[..2], &messages), vec![true, false, false]);
    assert_eq!(verify_batch(&[], &keys, &messages), Vec::<bool>::new());
}

#[test]
fn aggregate_is_the_signatures_end_to_end() {
    let mut engine = SignatureEngine::new();
    let keys: Vec<Vec<u8>> = (1..=2u8)
        .map(|i| engine.generate_keypair_from_seed(Address::new(i), &[i; 32]).unwrap())
        .collect();
    let messages = vec![b"header".to_vec(), b"header".to_vec()];
    let signatures: Vec<Vec<u8>> = (1..=2u8)
        .map(|i| engine.sign_ed25519(&Address::new(i), b"header").unwrap())
        .collect();
    let aggregator = SignatureAggregator::new();
    let aggregate = aggregator.aggregate_signatures(signatures.clone()).unwrap();
    assert_eq!(aggregate.len(), 128);
    assert_eq!(&aggregate[..64], &signatures[0][..]);
    assert_eq!(&aggregate[64..], &signatures[1][..]);
    assert_eq!(aggregator.verify_aggregated_signature(&aggregate, &messages, &keys), Ok(true));
    let mut swapped = signatures[1].clone();
    swapped.extend_from_slice(&signatures[0]);
    assert_eq!(aggregator.verify_aggregated_signature(&swapped, &messages, &keys), Ok(false));
    assert_eq!(aggregator.verify_aggregated_signature(&aggregate[..64], &messages, &keys), Ok(false));
    assert_eq!(aggregator.verify_aggregated_signature(&aggregate, &messages[..1], &keys), Ok(false));
    assert_eq!(aggregator.verify_aggregated_signature(&[], &[], &[]), Ok(true));
    assert_eq!(aggregator.aggregate_signatures(vec![]).unwrap(), Vec::<u8>::new());
}

#[test]
fn lms_signature_is_for_its_signer_and_message_only() {
    let signer = PostQuantumSigner::new().unwrap();
    let message = b"a message";
    let signature = signer.sign_lms(&Address::new(1), message).unwrap();
    assert_eq!(signer.verify_lms(&signature, &Address::new(1), message), Ok(()));
    assert_eq!(
        signer.verify_lms(&signature, &Address::new(2), message),
        Err(SignatureError::InvalidLmsFormat)
    );
    assert_eq!(
        signer.verify_lms(&signature, &Address::new(1), b"b message"),
        Err(SignatureError::LmsHashMismatch)
    );
    assert_eq!(
        signer.verify_lms(&signature, &Address::new(1), b"another message"),
        Err(SignatureError::InvalidLmsFormat)
    );
    // Addresses that agree in their first four bytes are told apart.
    let mut near = [7u8; 20];
    let signature = signer.sign_lms(&Address(near), message).unwrap();
    near[19] = 8;
    assert_eq!(
        signer.verify_lms(&signature, &Address(near), message),
        Err(SignatureError::InvalidLmsFormat)
    );
    for short in [0usize, 8, 40, 41, 56] {
        assert_eq!(
            signer.verify_lms(&signature[..short], &Address([7; 20]), message),
            Err(SignatureError::InvalidLmsFormat)
        );
    }
}
