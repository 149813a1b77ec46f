//! The challenge cell's own transitions: anchoring the transfers and
//! withdrawing the bond.

use godwoken::challenge::{
    verify_challenge_context, verify_withdraw_challenge, ChallengeError,
};
use godwoken::codec::serialize_tx;
use godwoken::hash::blake2b_256;
use godwoken::types::{AgBlock, Tx};

fn transfer() -> Tx {
    Tx {
        sender_index: 0,
        to_index: 1,
        fee_token: [0u8; 32],
        fee_amount: 3,
        token: [0u8; 32],
        amount: 15,
        nonce: 1,
        witness: vec![0x55; 65],
    }
}

fn block_with_tx_root(tx_root: [u8; 32]) -> AgBlock {
    AgBlock {
        number: 0,
        tx_root,
        txs_count: 1,
        ag_index: 2,
        prev_account_root: [0u8; 32],
        prev_account_count: 3,
        account_root: [0u8; 32],
        account_count: 3,
        ag_sig: [2u8; 65],
    }
}

#[test]
fn challenge_context_anchors_to_tx_root() {
    let tx = transfer();
    let tx_hash = blake2b_256(&serialize_tx(&tx));
    let block = block_with_tx_root(tx_hash);
    let r = verify_challenge_context(&block, &vec![tx], &Vec::new());
    assert!(r.is_ok());
}

#[test]
fn challenge_context_with_foreign_txs_is_rejected() {
    let tx = transfer();
    let block = block_with_tx_root([9u8; 32]);
    let r = verify_challenge_context(&block, &vec![tx], &Vec::new());
    assert!(matches!(r, Err(ChallengeError::InvalidMerkleProof)));
}

#[test]
fn withdraw_after_epoch_wait() {
    let lock = [4u8; 32];
    let since = (1u64 << 63) | (1u64 << 61) | 6;
    let r = verify_withdraw_challenge(since, &lock, &vec![[1u8; 32], lock]);
    assert!(r.is_ok());
}

#[test]
fn withdraw_too_early_is_rejected() {
    let lock = [4u8; 32];
    let since = (1u64 << 63) | (1u64 << 61) | 5;
    let r = verify_withdraw_challenge(since, &lock, &vec![lock]);
    assert!(matches!(r, Err(ChallengeError::InvalidSince)));
}

#[test]
fn withdraw_without_unlock_cell_is_rejected() {
    let lock = [4u8; 32];
    let since = (1u64 << 63) | (1u64 << 61) | 6;
    let r = verify_withdraw_challenge(since, &lock, &vec![[1u8; 32]]);
    assert!(matches!(r, Err(ChallengeError::NoUnlockCell)));
}
