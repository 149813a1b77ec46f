//! Recoverable secp256k1 signatures over BLAKE2b messages.
//!
//! A witness is 65 bytes: a 64-byte signature and one recovery byte.
//! Verification recovers the compressed public key, hashes it with
//! BLAKE2b and compares the first 20 bytes with the account's pubkey
//! hash.  The curve arithmetic is libsecp256k1's, named below; the
//! length checks, hashing and comparison are verified.

use crate::hash::blake2b;
use vstd::prelude::*;

verus! {

/// How a recovery attempt can end.
pub enum RecoverOutcome {
    /// The 33-byte compressed public key that signed the message.
    Pubkey(Vec<u8>),
    /// The 64 signature bytes do not parse as a standard signature.
    BadSignature,
    /// The recovery byte is out of range.
    BadRecoveryId,
    /// The curve arithmetic found no public key.
    Failed,
}

/// What libsecp256k1 recovers from a 64-byte signature, a recovery byte
/// and a 32-byte message: a pure function of those bytes.
pub uninterp spec fn secp256k1_recover(
    signature: Seq<u8>,
    recovery_id: u8,
    message: Seq<u8>,
) -> RecoverOutcome;

/// Relies on libsecp256k1's `Signature::parse_standard_slice`,
/// `RecoveryId::parse`, `Message::parse` and `recover`: recovering the
/// compressed public key from a recoverable signature, a function of
/// the signature, recovery byte and message alone.
#[verifier::external_body]
pub(crate) fn recover_pubkey(signature: &[u8], recovery_id: u8, message: &[u8; 32]) -> (r: RecoverOutcome)
    requires
        signature@.len() == 64,
    ensures
        r == secp256k1_recover(signature@, recovery_id, message@),
{
    let sig = match libsecp256k1::Signature::parse_standard_slice(signature) {
        Ok(sig) => sig,
        Err(_) => return RecoverOutcome::BadSignature,
    };
    let rec_id = match libsecp256k1::RecoveryId::parse(recovery_id) {
        Ok(id) => id,
        Err(_) => return RecoverOutcome::BadRecoveryId,
    };
    let msg = libsecp256k1::Message::parse(message);
    match libsecp256k1::recover(&msg, &sig, &rec_id) {
        Ok(pubkey) => RecoverOutcome::Pubkey(pubkey.serialize_compressed().to_vec()),
        Err(_) => RecoverOutcome::Failed,
    }
}

/// Why a signature check failed.
#[derive(Debug)]
pub enum SigError {
    InvalidSignature,
    InvalidMessage,
    InvalidPubkeyHash,
    InvalidRecoveryId,
    RecoveryPubkey,
    IncorrectPubkeyHash,
}

/// Whether a recovered key hashes to the expected pubkey hash: the
/// first 20 bytes of the key's BLAKE2b digest must match.
pub open spec fn pubkey_matches(pubkey: Seq<u8>, pubkey_hash: Seq<u8>) -> bool {
    blake2b(pubkey).take(20) == pubkey_hash
}

/// The outcome `verify_signature` owes for the given bytes.
pub open spec fn spec_verify_signature(
    signature: Seq<u8>,
    message: Seq<u8>,
    pubkey_hash: Seq<u8>,
) -> Result<(), SigError> {
    if signature.len() != 65 {
        Result::Err(SigError::InvalidSignature)
    } else if message.len() != 32 {
        Result::Err(SigError::InvalidMessage)
    } else if pubkey_hash.len() != 20 {
        Result::Err(SigError::InvalidPubkeyHash)
    } else {
        match secp256k1_recover(signature.take(64), signature[64], message) {
            RecoverOutcome::BadSignature => Result::Err(SigError::InvalidSignature),
            RecoverOutcome::BadRecoveryId => Result::Err(SigError::InvalidRecoveryId),
            RecoverOutcome::Failed => Result::Err(SigError::RecoveryPubkey),
            RecoverOutcome::Pubkey(pk) => if pubkey_matches(pk@, pubkey_hash) {
                Result::Ok(())
            } else {
                Result::Err(SigError::IncorrectPubkeyHash)
            },
        }
    }
}

/// Verify a 65-byte recoverable signature over a 32-byte message against
/// a 20-byte pubkey hash.  Returns `Ok` exactly when the recovered key's
/// BLAKE2b digest starts with the given hash.
pub fn verify_signature(signature: &[u8], message: &[u8], pubkey_hash: &[u8]) -> (r: Result<
    (),
    SigError,
>)
    ensures
        r == spec_verify_signature(signature@, message@, pubkey_hash@),
{
    if signature.len() != 65 {
        return Result::Err(SigError::InvalidSignature);
    }
    if message.len() != 32 {
        return Result::Err(SigError::InvalidMessage);
    }
    if pubkey_hash.len() != 20 {
        return Result::Err(SigError::InvalidPubkeyHash);
    }
    let mut msg = [0u8; 32];
    let mut sig64: Vec<u8> = Vec::new();
    let mut i: usize = 0;
    while i < 32
        invariant
            i <= 32,
            message@.len() == 32,
            msg@.len() == 32,
            forall|k: int| 0 <= k < i ==> msg@[k] == message@[k],
        decreases 32 - i,
    {
        msg[i] = message[i];
        i = i + 1;
    }
    let mut j: usize = 0;
    while j < 64
        invariant
            j <= 64,
            signature@.len() == 65,
            sig64@ == signature@.take(j as int),
        decreases 64 - j,
    {
        sig64.push(signature[j]);
        proof {
            assert(sig64@ =~= signature@.take(j + 1));
        }
        j = j + 1;
    }
    proof {
        assert(msg@ =~= message@);
    }
    let outcome = recover_pubkey(sig64.as_slice(), signature[64], &msg);
    match outcome {
        RecoverOutcome::BadSignature => Result::Err(SigError::InvalidSignature),
        RecoverOutcome::BadRecoveryId => Result::Err(SigError::InvalidRecoveryId),
        RecoverOutcome::Failed => Result::Err(SigError::RecoveryPubkey),
        RecoverOutcome::Pubkey(pk) => {
            let digest = crate::hash::blake2b_256(pk.as_slice());
            let mut matches = true;
            let mut k: usize = 0;
            proof {
                assert(digest@.take(0) =~= pubkey_hash@.take(0));
            }
            while k < 20
                invariant
                    k <= 20,
                    digest@.len() == 32,
                    pubkey_hash@.len() == 20,
                    matches <==> digest@.take(k as int) == pubkey_hash@.take(k as int),
                decreases 20 - k,
            {
                proof {
                    assert(digest@.take(k + 1).drop_last() =~= digest@.take(k as int));
                    assert(pubkey_hash@.take(k + 1).drop_last() =~= pubkey_hash@.take(k as int));
                    assert(digest@.take(k + 1).last() == digest@[k as int]);
                    assert(pubkey_hash@.take(k + 1).last() == pubkey_hash@[k as int]);
                }
                if digest[k] != pubkey_hash[k] {
                    matches = false;
                    proof {
                        assert(digest@.take(k + 1) != pubkey_hash@.take(k + 1));
                    }
                } else {
                    proof {
                        if digest@.take(k as int) == pubkey_hash@.take(k as int) {
                            assert(digest@.take(k + 1) =~= pubkey_hash@.take(k + 1));
                        } else {
                            assert(digest@.take(k + 1) != pubkey_hash@.take(k + 1));
                        }
                    }
                }
                k = k + 1;
            }
            proof {
                assert(pubkey_hash@.take(20) =~= pubkey_hash@);
                assert(blake2b(pk@).take(20) == digest@.take(20));
            }
            if matches {
                Result::Ok(())
            } else {
                Result::Err(SigError::IncorrectPubkeyHash)
            }
        },
    }
}

/// Verify an aggregator's signature over a block's signing message.
/// `Ok` exactly when the 65-byte signature recovers a key whose BLAKE2b
/// digest starts with the aggregator's pubkey hash.
pub fn verify_ag_signature(ag_sig: &[u8; 65], sig_message: &[u8; 32], ag_pubkey_hash: &[u8; 20])
    -> (r: Result<(), SigError>)
    ensures
        r == spec_verify_signature(ag_sig@, sig_message@, ag_pubkey_hash@),
{
    verify_signature(
        crate::codec::self_slice_65(ag_sig),
        sig_message.as_slice(),
        crate::codec::self_slice_20(ag_pubkey_hash),
    )
}

} // verus!
