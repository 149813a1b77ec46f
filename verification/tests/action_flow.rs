//! End-to-end action verification: the worked scenarios of the
//! protocol, from the genesis registration to a block revert.

use godwoken::actions::{
    verify_account_root, ChallengeCellInfo, DepositAction, DepositVerifier, Error, RegisterAction,
    RegisterVerifier, RevertBlockAction, RevertBlockVerifier, SMTProof, SubmitBlockAction,
    SubmitBlockVerifier,
};
use godwoken::codec::{serialize_block, serialize_tx};
use godwoken::executor::{build_tx_hashes, Executor, State, StateEntry};
use godwoken::hash::blake2b_256;
use godwoken::kv::KVMap;
use godwoken::smt::{account_index_key, account_to_node, balance_to_node, token_id_key, ProofNode};
use godwoken::types::{Account, AgBlock, CapacityChange, GlobalState, Tx};
use sparse_merkle_tree::blake2b::Blake2bHasher;
use sparse_merkle_tree::default_store::DefaultStore;
use sparse_merkle_tree::merge::MergeValue;
use sparse_merkle_tree::{SparseMerkleTree, H256};

type Smt = SparseMerkleTree<Blake2bHasher, H256, DefaultStore<H256>>;

const NATIVE: [u8; 32] = [0u8; 32];

fn seckey(fill: u8) -> libsecp256k1::SecretKey {
    libsecp256k1::SecretKey::parse(&[fill; 32]).expect("valid key")
}

fn pubkey_hash(key: &libsecp256k1::SecretKey) -> [u8; 20] {
    let pubkey = libsecp256k1::PublicKey::from_secret_key(key);
    let digest = blake2b_256(&pubkey.serialize_compressed());
    let mut out = [0u8; 20];
    out.copy_from_slice(&digest[..20]);
    out
}

fn account(index: u64, key: &libsecp256k1::SecretKey, nonce: u32) -> Account {
    Account { index, pubkey_hash: pubkey_hash(key), nonce, script: None }
}

fn sign_tx(tx: &mut Tx, key: &libsecp256k1::SecretKey) {
    tx.witness = Vec::new();
    let msg = blake2b_256(&serialize_tx(tx));
    let (sig, recid) = libsecp256k1::sign(&libsecp256k1::Message::parse(&msg), key);
    let mut witness = sig.serialize().to_vec();
    witness.push(recid.serialize());
    tx.witness = witness;
}

fn sign_block(block: &mut AgBlock, key: &libsecp256k1::SecretKey) {
    block.ag_sig = [0u8; 65];
    let msg = blake2b_256(&serialize_block(block));
    let (sig, recid) = libsecp256k1::sign(&libsecp256k1::Message::parse(&msg), key);
    block.ag_sig[..64].copy_from_slice(&sig.serialize());
    block.ag_sig[64] = recid.serialize();
}

/// The two leaves of one account slot: native balance and record.
fn slot_leaves(a: &Account, balance: u64) -> Vec<([u8; 32], [u8; 32])> {
    vec![
        (token_id_key(a.index, &NATIVE), balance_to_node(balance)),
        (account_index_key(a.index), account_to_node(a)),
    ]
}

fn build_tree(leaves: &[([u8; 32], [u8; 32])]) -> Smt {
    let mut tree = Smt::default();
    for (k, v) in leaves {
        tree.update((*k).into(), (*v).into()).expect("update");
    }
    tree
}

fn root_of(tree: &Smt) -> [u8; 32] {
    (*tree.root()).into()
}

fn gen_proof(tree: &Smt, keys: &[[u8; 32]]) -> SMTProof {
    let proof = tree
        .merkle_proof(keys.iter().map(|k| (*k).into()).collect())
        .expect("proof");
    let (bitmap, path) = proof.take();
    SMTProof {
        leaves_bitmap: bitmap.into_iter().map(|w| w.into()).collect(),
        merkle_path: path
            .into_iter()
            .map(|m| match m {
                MergeValue::Value(v) => ProofNode::Value(v.into()),
                MergeValue::MergeWithZero { base_node, zero_bits, zero_count } => {
                    ProofNode::MergeWithZero(base_node.into(), zero_bits.into(), zero_count)
                },
            })
            .collect(),
    }
}

fn kv_native(balance: u64) -> KVMap {
    let mut kv = KVMap::new();
    kv.insert(NATIVE, balance);
    kv
}

fn genesis() -> GlobalState {
    GlobalState { account_root: [0u8; 32], block_root: [0u8; 32], account_count: 0, block_count: 0 }
}

#[test]
fn register_first_account_from_genesis() {
    let new_account = account(0, &seckey(1), 0);
    let tree = build_tree(&slot_leaves(&new_account, 1000));
    let new_state = GlobalState {
        account_root: root_of(&tree),
        block_root: [0u8; 32],
        account_count: 1,
        block_count: 0,
    };
    let keys = vec![token_id_key(0, &NATIVE), account_index_key(0)];
    let proof = gen_proof(&tree, &keys);
    let action = RegisterAction { account: new_account, proof };
    let v = RegisterVerifier::new(genesis(), new_state, action);
    let r = v.verify(&CapacityChange { input: 0, output: 1000 });
    assert!(r.is_ok(), "{:?}", r.err().map(|e| e.code()));
    // Faithfulness of the committed root: the library's own tree
    // builder computes the same commitment.
    let ours = godwoken::smt::compute_root(&slot_leaves(&account(0, &seckey(1), 0), 1000));
    assert_eq!(ours, Some(v.new_state.account_root));
}

#[test]
fn register_below_minimum_deposit() {
    let new_account = account(0, &seckey(1), 0);
    let tree = build_tree(&slot_leaves(&new_account, 999));
    let new_state = GlobalState {
        account_root: root_of(&tree),
        block_root: [0u8; 32],
        account_count: 1,
        block_count: 0,
    };
    let keys = vec![token_id_key(0, &NATIVE), account_index_key(0)];
    let proof = gen_proof(&tree, &keys);
    let action = RegisterAction { account: new_account, proof };
    let v = RegisterVerifier::new(genesis(), new_state, action);
    let r = v.verify(&CapacityChange { input: 0, output: 999 });
    assert!(matches!(r, Err(Error::InvalidDepositAmount)));
}

#[test]
fn register_second_account() {
    let first = account(0, &seckey(1), 0);
    let second = account(1, &seckey(2), 0);
    let old_tree = build_tree(&slot_leaves(&first, 1000));
    let old_state = GlobalState {
        account_root: root_of(&old_tree),
        block_root: [0u8; 32],
        account_count: 1,
        block_count: 0,
    };
    let keys = vec![token_id_key(1, &NATIVE), account_index_key(1)];
    let proof = gen_proof(&old_tree, &keys);
    let mut new_tree = build_tree(&slot_leaves(&first, 1000));
    for (k, v) in slot_leaves(&second, 1500) {
        new_tree.update(k.into(), v.into()).expect("update");
    }
    let new_state = GlobalState {
        account_root: root_of(&new_tree),
        block_root: [0u8; 32],
        account_count: 2,
        block_count: 0,
    };
    let v = RegisterVerifier::new(old_state, new_state, RegisterAction { account: second, proof });
    let r = v.verify(&CapacityChange { input: 0, output: 1500 });
    assert!(r.is_ok(), "{:?}", r.err().map(|e| e.code()));

    // The same witness with a wrong index is turned away.
    let wrong = account(5, &seckey(2), 0);
    let proof2 = gen_proof(&old_tree, &keys);
    let v2 = RegisterVerifier::new(
        v.old_state,
        v.new_state,
        RegisterAction { account: wrong, proof: proof2 },
    );
    let r2 = v2.verify(&CapacityChange { input: 0, output: 1500 });
    assert!(matches!(r2, Err(Error::InvalidAccountIndex)));
}

#[test]
fn deposit_raises_native_balance() {
    let holder = account(0, &seckey(1), 0);
    let old_tree = build_tree(&slot_leaves(&holder, 12));
    let new_tree = build_tree(&slot_leaves(&holder, 42));
    let keys = vec![token_id_key(0, &NATIVE), account_index_key(0)];
    let proof = gen_proof(&old_tree, &keys);
    let old_state = GlobalState {
        account_root: root_of(&old_tree),
        block_root: [0u8; 32],
        account_count: 1,
        block_count: 0,
    };
    let new_state = GlobalState {
        account_root: root_of(&new_tree),
        block_root: [0u8; 32],
        account_count: 1,
        block_count: 0,
    };
    let action = DepositAction { account: holder, token_kv: kv_native(12), proof };
    let v = DepositVerifier::new(old_state, new_state, action);
    let r = v.verify(&CapacityChange { input: 100, output: 130 });
    assert!(r.is_ok(), "{:?}", r.err().map(|e| e.code()));

    // Claiming a different end balance fails the proof check.
    let proof2 = gen_proof(&old_tree, &keys);
    let action2 = DepositAction { account: account(0, &seckey(1), 0), token_kv: kv_native(12), proof: proof2 };
    let v2 = DepositVerifier::new(v.old_state, v.new_state, action2);
    let r2 = v2.verify(&CapacityChange { input: 100, output: 131 });
    assert!(matches!(r2, Err(Error::InvalidAccountMerkleProof)));
}

/// The worked transfer block: three accounts with balances 20, 100 and
/// 2000, the last being the aggregator, and one signed transfer moving
/// 15 with a fee of 3.
struct TransferBlock {
    old_state: GlobalState,
    new_state: GlobalState,
    action: SubmitBlockAction,
}

fn transfer_block() -> TransferBlock {
    let sender = account(0, &seckey(1), 0);
    let receiver = account(1, &seckey(2), 0);
    let aggregator = account(2, &seckey(3), 0);
    let mut old_leaves = slot_leaves(&sender, 20);
    old_leaves.extend(slot_leaves(&receiver, 100));
    old_leaves.extend(slot_leaves(&aggregator, 2000));
    let old_tree = build_tree(&old_leaves);
    let account_root_before = root_of(&old_tree);

    let mut tx = Tx {
        sender_index: 0,
        to_index: 1,
        fee_token: NATIVE,
        fee_amount: 3,
        token: NATIVE,
        amount: 15,
        nonce: 1,
        witness: Vec::new(),
    };
    sign_tx(&mut tx, &seckey(1));
    let tx_hash = blake2b_256(&serialize_tx(&tx));

    // The executed state: balances 2, 115, 2003 and the sender's nonce
    // bumped to 1.
    let sender_after = account(0, &seckey(1), 1);
    let mut new_leaves = slot_leaves(&sender_after, 2);
    new_leaves.extend(slot_leaves(&receiver, 115));
    new_leaves.extend(slot_leaves(&aggregator, 2003));
    let new_tree = build_tree(&new_leaves);
    let account_root_after = root_of(&new_tree);

    let mut block = AgBlock {
        number: 0,
        tx_root: tx_hash,
        txs_count: 1,
        ag_index: 2,
        prev_account_root: account_root_before,
        prev_account_count: 3,
        account_root: account_root_after,
        account_count: 3,
        ag_sig: [0u8; 65],
    };
    sign_block(&mut block, &seckey(3));

    let keys = vec![token_id_key(2, &NATIVE), account_index_key(2)];
    let account_proof = gen_proof(&old_tree, &keys);
    let block_hash = blake2b_256(&serialize_block(&block));

    let old_state = GlobalState {
        account_root: account_root_before,
        block_root: [0u8; 32],
        account_count: 3,
        block_count: 0,
    };
    let new_state = GlobalState {
        account_root: account_root_after,
        block_root: block_hash,
        account_count: 3,
        block_count: 1,
    };
    let action = SubmitBlockAction {
        block,
        txs: vec![tx],
        ag_account: aggregator,
        ag_kv: kv_native(2000),
        account_proof,
        last_block_hash: [0u8; 32],
        block_proof: Vec::new(),
    };
    TransferBlock { old_state, new_state, action }
}

#[test]
fn submit_first_block() {
    let setup = transfer_block();
    // The committed transaction root is the hash of the one transfer.
    let expected = blake2b_256(&serialize_tx(&setup.action.txs[0]));
    assert_eq!(setup.action.block.tx_root, expected);
    let v = SubmitBlockVerifier::new(setup.old_state, setup.new_state, setup.action);
    let r = v.verify(&CapacityChange { input: 500, output: 500 });
    assert!(r.is_ok(), "{:?}", r.err().map(|e| e.code()));
}

#[test]
fn submit_with_wrong_signature() {
    let mut setup = transfer_block();
    setup.action.block.ag_sig = [0u8; 65];
    let v = SubmitBlockVerifier::new(setup.old_state, setup.new_state, setup.action);
    let r = v.verify(&CapacityChange { input: 500, output: 500 });
    assert!(matches!(r, Err(Error::InvalidSignature)));
}

#[test]
fn submit_with_underfunded_aggregator() {
    let mut setup = transfer_block();
    setup.action.ag_kv = kv_native(1999);
    let v = SubmitBlockVerifier::new(setup.old_state, setup.new_state, setup.action);
    let r = v.verify(&CapacityChange { input: 500, output: 500 });
    assert!(matches!(r, Err(Error::InvalidAggregator)));
}

#[test]
fn submit_with_moving_capacity() {
    let setup = transfer_block();
    let v = SubmitBlockVerifier::new(setup.old_state, setup.new_state, setup.action);
    let r = v.verify(&CapacityChange { input: 500, output: 501 });
    assert!(matches!(r, Err(Error::IncorrectCapacity)));
}

struct RevertSetup {
    old_state: GlobalState,
    new_state: GlobalState,
    action: RevertBlockAction,
    cell: ChallengeCellInfo,
}

/// A challenged second block over the post-transfer state: the
/// aggregator holds 2003, the challenger 115, and the block commits to
/// a root nobody can reproduce.
fn revert_setup() -> RevertSetup {
    let sender = account(0, &seckey(1), 1);
    let challenger = account(1, &seckey(2), 0);
    let aggregator = account(2, &seckey(3), 0);
    let mut prev_leaves = slot_leaves(&sender, 2);
    prev_leaves.extend(slot_leaves(&challenger, 115));
    prev_leaves.extend(slot_leaves(&aggregator, 2003));
    let prev_tree = build_tree(&prev_leaves);
    let prev_root = root_of(&prev_tree);

    let challenged = AgBlock {
        number: 1,
        tx_root: [1u8; 32],
        txs_count: 1,
        ag_index: 2,
        prev_account_root: prev_root,
        prev_account_count: 3,
        account_root: [0xab; 32],
        account_count: 3,
        ag_sig: [2u8; 65],
    };
    let block0_hash = blake2b_256(b"an earlier block header");
    let challenged_hash = blake2b_256(&serialize_block(&challenged));
    let old_block_root = godwoken::mmr::merkle_root(&vec![block0_hash, challenged_hash])
        .expect("chain root");
    let block_proof = vec![block0_hash];

    let keys = vec![
        token_id_key(2, &NATIVE),
        account_index_key(2),
        token_id_key(1, &NATIVE),
        account_index_key(1),
    ];
    let accounts_proof = gen_proof(&prev_tree, &keys);

    // The penalty: 2003 * 8 / 10 = 1602 moves to the challenger.
    let mut after_leaves = slot_leaves(&sender, 2);
    after_leaves.extend(slot_leaves(&challenger, 115 + 1602));
    after_leaves.extend(slot_leaves(&aggregator, 0));
    let after_tree = build_tree(&after_leaves);
    let reverted_root = root_of(&after_tree);

    let reverted_block = AgBlock {
        number: 1,
        tx_root: [0u8; 32],
        txs_count: 0,
        ag_index: 1,
        prev_account_root: prev_root,
        prev_account_count: 3,
        account_root: reverted_root,
        account_count: 3,
        ag_sig: [0u8; 65],
    };
    let reverted_hash = blake2b_256(&serialize_block(&reverted_block));
    let new_block_root = godwoken::mmr::merkle_root(&vec![block0_hash, reverted_hash])
        .expect("chain root");

    let old_state = GlobalState {
        account_root: prev_root,
        block_root: old_block_root,
        account_count: 3,
        block_count: 2,
    };
    let new_state = GlobalState {
        account_root: reverted_root,
        block_root: new_block_root,
        account_count: 3,
        block_count: 2,
    };
    let action = RevertBlockAction {
        block: challenged,
        challenger_index: 1,
        ag_account: aggregator,
        challenger_account: challenger,
        ag_kv: kv_native(2003),
        challenger_kv: kv_native(115),
        accounts_proof,
        block_proof,
    };
    let cell = ChallengeCellInfo {
        code_hash: [0u8; 32],
        main_type_hash: [7u8; 32],
        own_script_hash: [7u8; 32],
        since: (1u64 << 63) | 100,
    };
    RevertSetup { old_state, new_state, action, cell }
}

#[test]
fn revert_block_after_timeout() {
    let setup = revert_setup();
    let v = RevertBlockVerifier::new(setup.old_state, setup.new_state, setup.action);
    let r = v.verify(&setup.cell);
    assert!(r.is_ok(), "{:?}", r.err().map(|e| e.code()));
}

#[test]
fn revert_before_timeout_is_rejected() {
    let setup = revert_setup();
    let v = RevertBlockVerifier::new(setup.old_state, setup.new_state, setup.action);
    let mut cell = setup.cell;
    cell.since = (1u64 << 63) | 99;
    assert!(matches!(v.verify(&cell), Err(Error::InvalidSince)));
    // An absolute lock of the right length does not count either.
    cell.since = 100;
    assert!(matches!(v.verify(&cell), Err(Error::InvalidSince)));
}

#[test]
fn revert_with_wrong_reward_is_rejected() {
    // A new state crediting one shannon too much fails the root check.
    let setup = revert_setup();
    let sender = account(0, &seckey(1), 1);
    let challenger = account(1, &seckey(2), 0);
    let aggregator = account(2, &seckey(3), 0);
    let mut greedy_leaves = slot_leaves(&sender, 2);
    greedy_leaves.extend(slot_leaves(&challenger, 115 + 1603));
    greedy_leaves.extend(slot_leaves(&aggregator, 0));
    let greedy_tree = build_tree(&greedy_leaves);
    let mut new_state = setup.new_state;
    new_state.account_root = root_of(&greedy_tree);
    let v = RevertBlockVerifier::new(setup.old_state, new_state, setup.action);
    assert!(matches!(v.verify(&setup.cell), Err(Error::InvalidNewAccountRoot)));
}

#[test]
fn reverted_block_cannot_be_reverted_again() {
    let mut setup = revert_setup();
    setup.action.block.tx_root = [0u8; 32];
    setup.action.block.ag_sig = [0u8; 65];
    let v = RevertBlockVerifier::new(setup.old_state, setup.new_state, setup.action);
    assert!(matches!(v.verify(&setup.cell), Err(Error::TryRevertRevertedBlock)));
}

#[test]
fn refute_frivolous_challenge() {
    // The honest aggregator re-executes a challenged but valid block:
    // the run reproduces the committed root and the challenge falls.
    let setup = transfer_block();
    let block = setup.action.block;
    let txs = setup.action.txs;
    let touched = || {
        vec![
            StateEntry { account: account(0, &seckey(1), 0), kv: kv_native(20) },
            StateEntry { account: account(1, &seckey(2), 0), kv: kv_native(100) },
            StateEntry { account: account(2, &seckey(3), 0), kv: kv_native(2000) },
        ]
    };
    // Rebuild the pre-block tree to prove all six leaves.
    let mut old_leaves = slot_leaves(&account(0, &seckey(1), 0), 20);
    old_leaves.extend(slot_leaves(&account(1, &seckey(2), 0), 100));
    old_leaves.extend(slot_leaves(&account(2, &seckey(3), 0), 2000));
    let old_tree = build_tree(&old_leaves);
    let keys: Vec<[u8; 32]> = old_leaves.iter().map(|(k, _)| *k).collect();
    let proof = gen_proof(&old_tree, &keys);
    let r = godwoken::challenge::verify_invalid_challenge(
        &block,
        &txs,
        touched(),
        &proof.leaves_bitmap,
        &proof.merkle_path,
    );
    assert!(r.is_ok(), "refutation should land");

    // Against a block that committed to a root the transfers do not
    // reach, the refutation fails and the challenge stands.
    let mut lying = block;
    lying.account_root = [0xab; 32];
    let proof2 = gen_proof(&old_tree, &keys);
    let r2 = godwoken::challenge::verify_invalid_challenge(
        &lying,
        &txs,
        touched(),
        &proof2.leaves_bitmap,
        &proof2.merkle_path,
    );
    assert!(matches!(
        r2,
        Err(godwoken::challenge::ChallengeError::InvalidMerkleProof)
    ));

    // Sanity: the library's executor reproduces the committed root.
    let mut state = State::new(touched()).expect("unique");
    let with_hashes = build_tx_hashes(&txs);
    for tx in &with_hashes {
        Executor::new().run(&mut state, tx, 2).expect("valid transfer");
    }
    assert_eq!(state.root().expect("root"), block.account_root);
}

#[test]
fn revert_with_foreign_challenge_cell_is_rejected() {
    let setup = revert_setup();
    let v = RevertBlockVerifier::new(setup.old_state, setup.new_state, setup.action);
    let mut cell = setup.cell;
    cell.code_hash = [5u8; 32];
    assert!(matches!(v.verify(&cell), Err(Error::InvalidChallengeCell)));
    cell.code_hash = [0u8; 32];
    cell.main_type_hash = [8u8; 32];
    assert!(matches!(v.verify(&cell), Err(Error::InvalidChallengeCell)));
}

#[test]
fn revert_with_wrong_challenger_is_rejected() {
    let mut setup = revert_setup();
    setup.action.challenger_index = 0;
    let v = RevertBlockVerifier::new(setup.old_state, setup.new_state, setup.action);
    assert!(matches!(v.verify(&setup.cell), Err(Error::InvalidChallengerIndex)));
}

#[test]
fn submit_with_wrong_counts_is_rejected() {
    let mut setup = transfer_block();
    setup.action.block.prev_account_count = 4;
    let mut block = setup.action.block;
    sign_block(&mut block, &seckey(3));
    setup.action.block = block;
    let v = SubmitBlockVerifier::new(setup.old_state, setup.new_state, setup.action);
    assert!(matches!(
        v.verify(&CapacityChange { input: 500, output: 500 }),
        Err(Error::InvalidAccountCount)
    ));

    let mut setup2 = transfer_block();
    setup2.new_state.block_count = 2;
    let v2 = SubmitBlockVerifier::new(setup2.old_state, setup2.new_state, setup2.action);
    assert!(matches!(
        v2.verify(&CapacityChange { input: 500, output: 500 }),
        Err(Error::InvalidGlobalState)
    ));
}

#[test]
fn submit_with_foreign_tx_root_is_rejected() {
    let mut setup = transfer_block();
    setup.action.block.tx_root = [9u8; 32];
    let mut block = setup.action.block;
    sign_block(&mut block, &seckey(3));
    setup.action.block = block;
    let v = SubmitBlockVerifier::new(setup.old_state, setup.new_state, setup.action);
    assert!(matches!(
        v.verify(&CapacityChange { input: 500, output: 500 }),
        Err(Error::InvalidTxRoot)
    ));
}

#[test]
fn reward_is_the_exact_floor_for_huge_balances() {
    // A balance whose eightfold passes the integer ceiling: the
    // penalty must still be the exact floor of eight tenths, not a
    // quotient of a clamped product.
    let huge: u64 = 2_305_843_009_213_693_954;
    let exact_reward: u64 = 1_844_674_407_370_955_163;
    let clamped_reward: u64 = 1_844_674_407_370_955_161;
    assert_eq!(huge / 10 * 8 + huge % 10 * 8 / 10, exact_reward);
    assert_ne!(exact_reward, clamped_reward);

    let challenger = account(1, &seckey(2), 0);
    let aggregator = account(2, &seckey(3), 0);
    let mut prev_leaves = slot_leaves(&challenger, 7);
    prev_leaves.extend(slot_leaves(&aggregator, huge));
    let prev_tree = build_tree(&prev_leaves);
    let prev_root = root_of(&prev_tree);

    let challenged = AgBlock {
        number: 0,
        tx_root: [1u8; 32],
        txs_count: 1,
        ag_index: 2,
        prev_account_root: prev_root,
        prev_account_count: 2,
        account_root: [0xab; 32],
        account_count: 2,
        ag_sig: [2u8; 65],
    };
    let challenged_hash = blake2b_256(&serialize_block(&challenged));
    let old_block_root = godwoken::mmr::merkle_root(&vec![challenged_hash]).expect("root");

    let keys = vec![
        token_id_key(2, &NATIVE),
        account_index_key(2),
        token_id_key(1, &NATIVE),
        account_index_key(1),
    ];
    let accounts_proof = gen_proof(&prev_tree, &keys);

    let mut after_leaves = slot_leaves(&challenger, 7 + exact_reward);
    after_leaves.extend(slot_leaves(&aggregator, 0));
    let after_tree = build_tree(&after_leaves);
    let reverted_root = root_of(&after_tree);
    let reverted_block = AgBlock {
        number: 0,
        tx_root: [0u8; 32],
        txs_count: 0,
        ag_index: 1,
        prev_account_root: prev_root,
        prev_account_count: 2,
        account_root: reverted_root,
        account_count: 2,
        ag_sig: [0u8; 65],
    };
    let reverted_hash = blake2b_256(&serialize_block(&reverted_block));
    let new_block_root = godwoken::mmr::merkle_root(&vec![reverted_hash]).expect("root");

    let old_state = GlobalState {
        account_root: prev_root,
        block_root: old_block_root,
        account_count: 2,
        block_count: 1,
    };
    let new_state = GlobalState {
        account_root: reverted_root,
        block_root: new_block_root,
        account_count: 2,
        block_count: 1,
    };
    let action = RevertBlockAction {
        block: challenged,
        challenger_index: 1,
        ag_account: aggregator,
        challenger_account: challenger,
        ag_kv: kv_native(huge),
        challenger_kv: kv_native(7),
        accounts_proof,
        block_proof: Vec::new(),
    };
    let cell = ChallengeCellInfo {
        code_hash: [0u8; 32],
        main_type_hash: [7u8; 32],
        own_script_hash: [7u8; 32],
        since: (1u64 << 63) | 100,
    };
    let v = RevertBlockVerifier::new(old_state, new_state, action);
    let r = v.verify(&cell);
    assert!(r.is_ok(), "{:?}", r.err().map(|e| e.code()));

    // Crediting the clamped-product figure instead is turned away.
    let mut clamped_leaves = slot_leaves(&account(1, &seckey(2), 0), 7 + clamped_reward);
    clamped_leaves.extend(slot_leaves(&account(2, &seckey(3), 0), 0));
    let clamped_tree = build_tree(&clamped_leaves);
    let mut clamped_state = new_state;
    clamped_state.account_root = root_of(&clamped_tree);
    let v2 = RevertBlockVerifier::new(v.old_state, clamped_state, v.action);
    assert!(matches!(v2.verify(&cell), Err(Error::InvalidNewAccountRoot)));
}

#[test]
fn oversized_balance_maps_cannot_reach_the_proof() {
    // A balance map holding more entries than one compressed proof can
    // carry is turned away before the proof computation runs; a run of
    // equal token ids must not get near the proof compiler's stack.
    let holder = account(0, &seckey(1), 0);
    let mut entries: Vec<([u8; 32], u64)> = Vec::new();
    for _ in 0..300 {
        entries.push(([7u8; 32], 1));
    }
    let kv = KVMap { entries };
    let proof = SMTProof { leaves_bitmap: Vec::new(), merkle_path: Vec::new() };
    let r = verify_account_root(0, Some(&holder), &kv, &proof, &[0u8; 32]);
    assert!(matches!(r, Err(Error::InvalidAccountMerkleProof)));
}
