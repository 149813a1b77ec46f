//! The MMR arithmetic against the ckb-merkle-mountain-range crate:
//! roots and proofs computed there must verify here, byte for byte.

use ckb_merkle_mountain_range::util::{MemMMR, MemStore};
use ckb_merkle_mountain_range::{leaf_index_to_pos, Merge, Result as MmrResult};
use godwoken::mmr::{
    compute_block_root, compute_new_block_root, compute_tx_root, leaf_index_to_mmr_size,
    merkle_root,
};

struct HashMerge;

impl Merge for HashMerge {
    type Item = [u8; 32];

    fn merge(left: &Self::Item, right: &Self::Item) -> MmrResult<Self::Item> {
        let mut out = [0u8; 32];
        let mut hasher = blake2b_ref::Blake2bBuilder::new(32)
            .personal(b"ckb-default-hash")
            .build();
        hasher.update(left);
        hasher.update(right);
        hasher.finalize(&mut out);
        Ok(out)
    }
}

fn leaf(i: u8) -> [u8; 32] {
    let mut out = [0u8; 32];
    let mut hasher = blake2b_ref::Blake2bBuilder::new(32)
        .personal(b"ckb-default-hash")
        .build();
    hasher.update(&[i]);
    hasher.finalize(&mut out);
    out
}

fn build_reference(leaves: &[[u8; 32]]) -> (MemStore<[u8; 32]>, u64) {
    let store = MemStore::default();
    let mut mmr: MemMMR<[u8; 32], HashMerge> = MemMMR::new(0, &store);
    for l in leaves {
        mmr.push(*l).expect("push");
    }
    let size = mmr.mmr_size();
    mmr.commit().expect("commit");
    (store, size)
}

#[test]
fn merkle_root_matches_reference() {
    assert_eq!(merkle_root(&Vec::new()), Some([0u8; 32]));
    for count in 1u8..=9 {
        let leaves: Vec<[u8; 32]> = (0..count).map(leaf).collect();
        let store = MemStore::default();
        let mut mmr: MemMMR<[u8; 32], HashMerge> = MemMMR::new(0, &store);
        for l in &leaves {
            mmr.push(*l).expect("push");
        }
        let expected = mmr.get_root().expect("root");
        assert_eq!(merkle_root(&leaves), Some(expected), "count {}", count);
    }
}

#[test]
fn single_leaf_proofs_verify() {
    for count in 1u8..=8 {
        let leaves: Vec<[u8; 32]> = (0..count).map(leaf).collect();
        let (store, size) = build_reference(&leaves);
        let mmr: MemMMR<[u8; 32], HashMerge> = MemMMR::new(size, &store);
        let root = mmr.get_root().expect("root");
        for index in 0..count as u64 {
            let proof = mmr
                .gen_proof(vec![leaf_index_to_pos(index)])
                .expect("gen proof");
            let items: Vec<[u8; 32]> = proof.proof_items().to_vec();
            let got = compute_block_root(
                &vec![(index, leaves[index as usize])],
                count as u64,
                &items,
            );
            assert_eq!(got, Some(root), "leaf {} of {}", index, count);
            // A wrong leaf hash must not reach the same root.
            let other = compute_block_root(&vec![(index, leaf(200))], count as u64, &items);
            assert_ne!(other, Some(root));
        }
    }
}

#[test]
fn multi_leaf_proofs_verify() {
    let leaves: Vec<[u8; 32]> = (0..7).map(leaf).collect();
    let (store, size) = build_reference(&leaves);
    let mmr: MemMMR<[u8; 32], HashMerge> = MemMMR::new(size, &store);
    let root = mmr.get_root().expect("root");
    let picks: Vec<u64> = vec![1, 4, 6];
    let proof = mmr
        .gen_proof(picks.iter().map(|i| leaf_index_to_pos(*i)).collect())
        .expect("gen proof");
    let items: Vec<[u8; 32]> = proof.proof_items().to_vec();
    let ours: Vec<(u64, [u8; 32])> = picks.iter().map(|i| (*i, leaves[*i as usize])).collect();
    assert_eq!(compute_tx_root(&ours, 7, &items), Some(root));
}

#[test]
fn full_leaf_set_needs_no_proof() {
    let leaves: Vec<[u8; 32]> = (0..5).map(leaf).collect();
    let (store, size) = build_reference(&leaves);
    let mmr: MemMMR<[u8; 32], HashMerge> = MemMMR::new(size, &store);
    let root = mmr.get_root().expect("root");
    let all: Vec<(u64, [u8; 32])> = leaves.iter().cloned().enumerate().map(|(i, h)| (i as u64, h)).collect();
    assert_eq!(compute_tx_root(&all, 5, &Vec::new()), Some(root));
}

#[test]
fn append_root_matches_reference() {
    // Chains of every length up to seven: the proof of the last block
    // must predict the root after the next one is appended.
    for count in 1u8..=7 {
        let leaves: Vec<[u8; 32]> = (0..count).map(leaf).collect();
        let (store, size) = build_reference(&leaves);
        let mmr: MemMMR<[u8; 32], HashMerge> = MemMMR::new(size, &store);
        let last_index = count as u64 - 1;
        let proof = mmr
            .gen_proof(vec![leaf_index_to_pos(last_index)])
            .expect("gen proof");
        let items: Vec<[u8; 32]> = proof.proof_items().to_vec();
        let new_leaf = leaf(100 + count);
        let mut grown = leaves.clone();
        grown.push(new_leaf);
        let (store2, size2) = build_reference(&grown);
        let mmr2: MemMMR<[u8; 32], HashMerge> = MemMMR::new(size2, &store2);
        let expected = mmr2.get_root().expect("root");
        let got = compute_new_block_root(
            leaves[last_index as usize],
            last_index,
            new_leaf,
            count as u64,
            count as u64 + 1,
            &items,
        );
        assert_eq!(got, Some(expected), "append to {}", count);
    }
}

#[test]
fn mmr_size_matches_reference() {
    for index in 0u64..40 {
        let expected = ckb_merkle_mountain_range::leaf_index_to_mmr_size(index);
        assert_eq!(leaf_index_to_mmr_size(index), expected);
        assert_eq!(
            godwoken::mmr::leaf_index_to_pos(index),
            leaf_index_to_pos(index)
        );
    }
}
