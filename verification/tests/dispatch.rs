//! The single entry point: dispatching an update to its verifier.

use godwoken::actions::{
    check_output, verify_action, Action, DepositAction, Error, RegisterAction, SMTProof,
};
use godwoken::kv::KVMap;
use godwoken::smt::{account_index_key, account_to_node, balance_to_node, token_id_key, ProofNode};
use godwoken::types::{Account, CapacityChange, GlobalState};
use sparse_merkle_tree::blake2b::Blake2bHasher;
use sparse_merkle_tree::default_store::DefaultStore;
use sparse_merkle_tree::merge::MergeValue;
use sparse_merkle_tree::{SparseMerkleTree, H256};

type Smt = SparseMerkleTree<Blake2bHasher, H256, DefaultStore<H256>>;

const NATIVE: [u8; 32] = [0u8; 32];

fn slot_leaves(a: &Account, balance: u64) -> Vec<([u8; 32], [u8; 32])> {
    vec![
        (token_id_key(a.index, &NATIVE), balance_to_node(balance)),
        (account_index_key(a.index), account_to_node(a)),
    ]
}

fn build_tree(leaves: &[([u8; 32], [u8; 32])]) -> Smt {
    let mut tree = Smt::default();
    for (k, v) in leaves {
        tree.update((*k).into(), (*v).into()).expect("update");
    }
    tree
}

fn gen_proof(tree: &Smt, keys: &[[u8; 32]]) -> SMTProof {
    let proof = tree
        .merkle_proof(keys.iter().map(|k| (*k).into()).collect())
        .expect("proof");
    let (bitmap, path) = proof.take();
    SMTProof {
        leaves_bitmap: bitmap.into_iter().map(|w| w.into()).collect(),
        merkle_path: path
            .into_iter()
            .map(|m| match m {
                MergeValue::Value(v) => ProofNode::Value(v.into()),
                MergeValue::MergeWithZero { base_node, zero_bits, zero_count } => {
                    ProofNode::MergeWithZero(base_node.into(), zero_bits.into(), zero_count)
                },
            })
            .collect(),
    }
}

fn holder() -> Account {
    Account { index: 0, pubkey_hash: [0x11; 20], nonce: 0, script: None }
}

#[test]
fn dispatch_register_action() {
    let genesis = GlobalState {
        account_root: [0u8; 32],
        block_root: [0u8; 32],
        account_count: 0,
        block_count: 0,
    };
    let tree = build_tree(&slot_leaves(&holder(), 1000));
    let new_state = GlobalState {
        account_root: (*tree.root()).into(),
        block_root: [0u8; 32],
        account_count: 1,
        block_count: 0,
    };
    let keys = vec![token_id_key(0, &NATIVE), account_index_key(0)];
    let action = Action::Register(RegisterAction {
        account: holder(),
        proof: gen_proof(&tree, &keys),
    });
    let r = verify_action(genesis, new_state, action, &CapacityChange { input: 0, output: 1000 });
    assert!(r.is_ok());
}

#[test]
fn dispatch_rejects_nonzero_nonce() {
    let genesis = GlobalState {
        account_root: [0u8; 32],
        block_root: [0u8; 32],
        account_count: 0,
        block_count: 0,
    };
    let mut seasoned = holder();
    seasoned.nonce = 3;
    let tree = build_tree(&slot_leaves(&seasoned, 1000));
    let new_state = GlobalState {
        account_root: (*tree.root()).into(),
        block_root: [0u8; 32],
        account_count: 1,
        block_count: 0,
    };
    let keys = vec![token_id_key(0, &NATIVE), account_index_key(0)];
    let action = Action::Register(RegisterAction {
        account: seasoned,
        proof: gen_proof(&tree, &keys),
    });
    let r = verify_action(genesis, new_state, action, &CapacityChange { input: 0, output: 1000 });
    assert!(matches!(r, Err(Error::InvalidAccountNonce)));
}

#[test]
fn dispatch_rejects_contract_registration() {
    let genesis = GlobalState {
        account_root: [0u8; 32],
        block_root: [0u8; 32],
        account_count: 0,
        block_count: 0,
    };
    let mut scripted = holder();
    scripted.script = Some(vec![0xde, 0xad]);
    let tree = build_tree(&slot_leaves(&scripted, 1000));
    let new_state = GlobalState {
        account_root: (*tree.root()).into(),
        block_root: [0u8; 32],
        account_count: 1,
        block_count: 0,
    };
    let keys = vec![token_id_key(0, &NATIVE), account_index_key(0)];
    let action = Action::Register(RegisterAction {
        account: scripted,
        proof: gen_proof(&tree, &keys),
    });
    let r = verify_action(genesis, new_state, action, &CapacityChange { input: 0, output: 1000 });
    assert!(matches!(r, Err(Error::InvalidAccountScript)));
}

#[test]
fn dispatch_rejects_deposit_overflow() {
    let tree = build_tree(&slot_leaves(&holder(), u64::MAX));
    let old_state = GlobalState {
        account_root: (*tree.root()).into(),
        block_root: [0u8; 32],
        account_count: 1,
        block_count: 0,
    };
    let keys = vec![token_id_key(0, &NATIVE), account_index_key(0)];
    let mut token_kv = KVMap::new();
    token_kv.insert(NATIVE, u64::MAX);
    let action = Action::Deposit(DepositAction {
        account: holder(),
        token_kv,
        proof: gen_proof(&tree, &keys),
    });
    let r = verify_action(old_state, old_state, action, &CapacityChange { input: 0, output: 1 });
    assert!(matches!(r, Err(Error::BalanceOverflow)));
}

#[test]
fn single_rollup_cell_rule() {
    let rollup_type = [1u8; 32];
    let rollup_lock = [2u8; 32];
    let other = ([9u8; 32], [9u8; 32]);
    // Exactly one matching output with the right lock passes.
    let outputs = vec![other, (rollup_type, rollup_lock)];
    assert!(check_output(&rollup_type, &rollup_lock, &outputs).is_ok());
    // No matching output fails.
    let r = check_output(&rollup_type, &rollup_lock, &vec![other]);
    assert!(matches!(r, Err(Error::InvalidOutputTypeHash)));
    // Two matching outputs fail: the commitment must not fork.
    let forked = vec![(rollup_type, rollup_lock), (rollup_type, rollup_lock)];
    let r2 = check_output(&rollup_type, &rollup_lock, &forked);
    assert!(matches!(r2, Err(Error::InvalidOutputTypeHash)));
    // A swapped lock fails.
    let relocked = vec![(rollup_type, [3u8; 32])];
    let r3 = check_output(&rollup_type, &rollup_lock, &relocked);
    assert!(matches!(r3, Err(Error::InvalidOutputLockHash)));
}
