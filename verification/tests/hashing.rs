//! The digest wrappers and the fixed-layout codec.

use godwoken::bytes::{append_u32, append_u64, read_u32, read_u64};
use godwoken::codec::{parse_global_state, serialize_global_state, serialize_tx};
use godwoken::hash::{blake2b_256, merge_nodes, HashMerge};
use godwoken::types::{GlobalState, Tx};

fn reference_blake2b(data: &[u8]) -> [u8; 32] {
    let mut hash = [0u8; 32];
    let mut hasher = blake2b_ref::Blake2bBuilder::new(32)
        .personal(b"ckb-default-hash")
        .build();
    hasher.update(data);
    hasher.finalize(&mut hash);
    hash
}

#[test]
fn blake2b_matches_reference() {
    let data = b"optimistic rollup".to_vec();
    assert_eq!(blake2b_256(&data), reference_blake2b(&data));
    // The digest is not the input echoed back.
    assert_ne!(blake2b_256(&data).to_vec()[..17.min(32)], data[..]);
    assert_eq!(blake2b_256(&[]), reference_blake2b(&[]));
}

#[test]
fn merge_is_hash_of_concatenation() {
    let left = [1u8; 32];
    let right = [2u8; 32];
    let mut cat = Vec::new();
    cat.extend_from_slice(&left);
    cat.extend_from_slice(&right);
    assert_eq!(merge_nodes(&left, &right), reference_blake2b(&cat));
    assert_eq!(HashMerge::merge(&left, &right), merge_nodes(&left, &right));
}

#[test]
fn little_endian_round_trip() {
    let mut buf: Vec<u8> = Vec::new();
    append_u64(&mut buf, 0x0102_0304_0506_0708);
    assert_eq!(buf, vec![8, 7, 6, 5, 4, 3, 2, 1]);
    append_u32(&mut buf, 0xdead_beef);
    assert_eq!(&buf[8..], &[0xef, 0xbe, 0xad, 0xde]);
    assert_eq!(read_u64(&buf, 0), 0x0102_0304_0506_0708);
    assert_eq!(read_u32(&buf, 8), 0xdead_beef);
}

#[test]
fn global_state_round_trip() {
    let g = GlobalState {
        account_root: [3u8; 32],
        block_root: [9u8; 32],
        account_count: 7,
        block_count: 1234567890123,
    };
    let bytes = serialize_global_state(&g);
    assert_eq!(bytes.len(), 80);
    let back = parse_global_state(&bytes).expect("80 bytes parse");
    assert_eq!(back.account_root, g.account_root);
    assert_eq!(back.block_root, g.block_root);
    assert_eq!(back.account_count, g.account_count);
    assert_eq!(back.block_count, g.block_count);
    assert!(parse_global_state(&bytes[1..]).is_none());
}

#[test]
fn tx_encoding_layout() {
    let tx = Tx {
        sender_index: 1,
        to_index: 2,
        fee_token: [0u8; 32],
        fee_amount: 3,
        token: [0u8; 32],
        amount: 15,
        nonce: 1,
        witness: vec![0xaa, 0xbb],
    };
    let bytes = serialize_tx(&tx);
    assert_eq!(bytes.len(), 8 + 8 + 32 + 8 + 32 + 8 + 4 + 2);
    assert_eq!(bytes[0], 1);
    assert_eq!(bytes[8], 2);
    assert_eq!(bytes[48], 3);
    assert_eq!(bytes[88], 15);
    assert_eq!(bytes[96], 1);
    assert_eq!(&bytes[100..], &[0xaa, 0xbb]);
}
