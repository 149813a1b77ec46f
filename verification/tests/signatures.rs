//! Recoverable signature checks through the library's verifiers.

use godwoken::hash::blake2b_256;
use godwoken::sig::{verify_ag_signature, verify_signature, SigError};

fn seckey(fill: u8) -> libsecp256k1::SecretKey {
    libsecp256k1::SecretKey::parse(&[fill; 32]).expect("valid key")
}

fn pubkey_hash(key: &libsecp256k1::SecretKey) -> [u8; 20] {
    let pubkey = libsecp256k1::PublicKey::from_secret_key(key);
    let digest = blake2b_256(&pubkey.serialize_compressed());
    let mut out = [0u8; 20];
    out.copy_from_slice(&digest[..20]);
    out
}

fn sign(message: &[u8; 32], key: &libsecp256k1::SecretKey) -> [u8; 65] {
    let (sig, recid) = libsecp256k1::sign(&libsecp256k1::Message::parse(message), key);
    let mut out = [0u8; 65];
    out[..64].copy_from_slice(&sig.serialize());
    out[64] = recid.serialize();
    out
}

#[test]
fn good_signature_verifies() {
    let key = seckey(42);
    let message = blake2b_256(b"a block to sign");
    let signature = sign(&message, &key);
    let hash = pubkey_hash(&key);
    assert!(verify_signature(&signature, &message, &hash).is_ok());
    assert!(verify_ag_signature(&signature, &message, &hash).is_ok());
}

#[test]
fn wrong_key_is_rejected() {
    let message = blake2b_256(b"a block to sign");
    let signature = sign(&message, &seckey(42));
    let hash = pubkey_hash(&seckey(43));
    assert!(matches!(
        verify_signature(&signature, &message, &hash),
        Err(SigError::IncorrectPubkeyHash)
    ));
}

#[test]
fn wrong_message_is_rejected() {
    let key = seckey(42);
    let message = blake2b_256(b"a block to sign");
    let signature = sign(&message, &key);
    let other = blake2b_256(b"another block");
    let hash = pubkey_hash(&key);
    assert!(verify_signature(&signature, &other, &hash).is_err());
}

#[test]
fn malformed_signatures_are_rejected() {
    let key = seckey(42);
    let message = blake2b_256(b"a block to sign");
    let hash = pubkey_hash(&key);
    // Too short.
    assert!(matches!(
        verify_signature(&[0u8; 64], &message, &hash),
        Err(SigError::InvalidSignature)
    ));
    // A recovery byte out of range.
    let mut signature = sign(&message, &key);
    signature[64] = 9;
    assert!(matches!(
        verify_signature(&signature, &message, &hash),
        Err(SigError::InvalidRecoveryId)
    ));
    // The all-zero witness from the wrong-signature scenario.
    assert!(verify_signature(&[0u8; 65], &message, &hash).is_err());
}
