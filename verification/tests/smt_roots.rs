//! The SMT wrappers against the sparse-merkle-tree crate: proofs
//! generated by the crate must recompute the same roots here.

use godwoken::executor::{State, StateEntry};
use godwoken::kv::KVMap;
use godwoken::smt::{
    account_index_key, account_to_node, balance_to_node, compute_root, compute_root_with_proof,
    token_id_key, ProofNode,
};
use godwoken::types::Account;
use sparse_merkle_tree::blake2b::Blake2bHasher;
use sparse_merkle_tree::default_store::DefaultStore;
use sparse_merkle_tree::merge::MergeValue;
use sparse_merkle_tree::{SparseMerkleTree, H256};

type Smt = SparseMerkleTree<Blake2bHasher, H256, DefaultStore<H256>>;

fn build_tree(leaves: &[([u8; 32], [u8; 32])]) -> Smt {
    let mut tree = Smt::default();
    for (k, v) in leaves {
        tree.update((*k).into(), (*v).into()).expect("update");
    }
    tree
}

/// Generate a proof for `keys` and hand it over in the library's shape.
fn gen_proof(tree: &Smt, keys: &[[u8; 32]]) -> (Vec<[u8; 32]>, Vec<ProofNode>) {
    let proof = tree
        .merkle_proof(keys.iter().map(|k| (*k).into()).collect())
        .expect("proof");
    let (bitmap, path) = proof.take();
    let bitmap: Vec<[u8; 32]> = bitmap.into_iter().map(|w| w.into()).collect();
    let path: Vec<ProofNode> = path
        .into_iter()
        .map(|m| match m {
            MergeValue::Value(v) => ProofNode::Value(v.into()),
            MergeValue::MergeWithZero { base_node, zero_bits, zero_count } => {
                ProofNode::MergeWithZero(base_node.into(), zero_bits.into(), zero_count)
            },
        })
        .collect();
    (bitmap, path)
}

#[test]
fn proof_recomputes_tree_root() {
    let leaves: Vec<([u8; 32], [u8; 32])> = vec![
        ([1u8; 32], [11u8; 32]),
        ([2u8; 32], [22u8; 32]),
        ([7u8; 32], [77u8; 32]),
    ];
    let tree = build_tree(&leaves);
    let expected: [u8; 32] = (*tree.root()).into();
    assert_eq!(compute_root(&leaves), Some(expected));

    let keys = vec![[1u8; 32], [7u8; 32]];
    let (bitmap, path) = gen_proof(&tree, &keys);
    let picked: Vec<([u8; 32], [u8; 32])> = vec![([1u8; 32], [11u8; 32]), ([7u8; 32], [77u8; 32])];
    assert_eq!(
        compute_root_with_proof(&picked, &bitmap, &path),
        Some(expected)
    );
    // A tampered leaf digest computes a different root.
    let tampered: Vec<([u8; 32], [u8; 32])> = vec![([1u8; 32], [12u8; 32]), ([7u8; 32], [77u8; 32])];
    assert_ne!(
        compute_root_with_proof(&tampered, &bitmap, &path),
        Some(expected)
    );
}

#[test]
fn empty_tree_root_is_zero() {
    assert_eq!(compute_root(&Vec::new()), Some([0u8; 32]));
}

fn plain_account(index: u64) -> Account {
    Account { index, pubkey_hash: [0x11; 20], nonce: 0, script: None }
}

#[test]
fn state_root_matches_tree_of_its_leaves() {
    // The account-commitment law on concrete values: the state's root
    // equals the root of the sparse merkle tree over its index and
    // token leaves.
    let mut kv0 = KVMap::new();
    kv0.insert([0u8; 32], 20);
    let mut kv1 = KVMap::new();
    kv1.insert([0u8; 32], 100);
    kv1.insert([5u8; 32], 9);
    let entries = vec![
        StateEntry { account: plain_account(0), kv: kv0 },
        StateEntry { account: plain_account(1), kv: kv1 },
    ];
    let state = State::new(entries).expect("unique indices");
    let root = state.root().expect("root");

    let leaves = vec![
        (token_id_key(0, &[0u8; 32]), balance_to_node(20)),
        (account_index_key(0), account_to_node(&plain_account(0))),
        (token_id_key(1, &[0u8; 32]), balance_to_node(100)),
        (token_id_key(1, &[5u8; 32]), balance_to_node(9)),
        (account_index_key(1), account_to_node(&plain_account(1))),
    ];
    let tree = build_tree(&leaves);
    let expected: [u8; 32] = (*tree.root()).into();
    assert_eq!(root, expected);

    // Reading a balance does not move the root.
    let probe = state.find(1);
    assert!(probe.is_some());
    assert_eq!(state.root().expect("root"), expected);
}

#[test]
fn balance_digest_shapes() {
    // A zero balance is the empty leaf; a nonzero one is its
    // little-endian bytes padded to 32.
    assert_eq!(balance_to_node(0), [0u8; 32]);
    let mut expected = [0u8; 32];
    expected[0] = 0xe8;
    expected[1] = 0x03;
    assert_eq!(balance_to_node(1000), expected);
}

#[test]
fn account_keys_are_prefixed_hashes() {
    let mut data = vec![1u8];
    data.extend_from_slice(&5u64.to_le_bytes());
    assert_eq!(account_index_key(5), {
        let mut hash = [0u8; 32];
        let mut hasher = blake2b_ref::Blake2bBuilder::new(32)
            .personal(b"ckb-default-hash")
            .build();
        hasher.update(&data);
        hasher.finalize(&mut hash);
        hash
    });
    let token = [9u8; 32];
    let mut data2 = vec![2u8];
    data2.extend_from_slice(&5u64.to_le_bytes());
    data2.extend_from_slice(&token);
    assert_eq!(token_id_key(5, &token), {
        let mut hash = [0u8; 32];
        let mut hasher = blake2b_ref::Blake2bBuilder::new(32)
            .personal(b"ckb-default-hash")
            .build();
        hasher.update(&data2);
        hasher.finalize(&mut hash);
        hash
    });
}
