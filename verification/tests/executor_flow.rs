//! The transfer executor: the worked transfer from the protocol
//! description, determinism, nonce movement, conservation, and the
//! rollback on failed transfers.

use godwoken::codec::serialize_tx;
use godwoken::executor::{build_tx_hashes, ExecError, Executor, State, StateEntry};
use godwoken::hash::blake2b_256;
use godwoken::kv::KVMap;
use godwoken::types::{Account, Tx};

const NATIVE: [u8; 32] = [0u8; 32];

fn seckey(fill: u8) -> libsecp256k1::SecretKey {
    libsecp256k1::SecretKey::parse(&[fill; 32]).expect("valid key")
}

fn pubkey_hash(key: &libsecp256k1::SecretKey) -> [u8; 20] {
    let pubkey = libsecp256k1::PublicKey::from_secret_key(key);
    let digest = blake2b_256(&pubkey.serialize_compressed());
    let mut out = [0u8; 20];
    out.copy_from_slice(&digest[..20]);
    out
}

fn sign_tx(tx: &mut Tx, key: &libsecp256k1::SecretKey) {
    tx.witness = Vec::new();
    let msg = blake2b_256(&serialize_tx(tx));
    let (sig, recid) = libsecp256k1::sign(&libsecp256k1::Message::parse(&msg), key);
    let mut witness = sig.serialize().to_vec();
    witness.push(recid.serialize());
    tx.witness = witness;
}

fn account(index: u64, key: &libsecp256k1::SecretKey) -> Account {
    Account { index, pubkey_hash: pubkey_hash(key), nonce: 0, script: None }
}

fn entry(index: u64, key: &libsecp256k1::SecretKey, balance: u64) -> StateEntry {
    let mut kv = KVMap::new();
    kv.insert(NATIVE, balance);
    StateEntry { account: account(index, key), kv }
}

/// Three accounts with native balances 20, 100 and 2000; the last is
/// the aggregator.
fn three_account_state() -> State {
    State::new(vec![
        entry(0, &seckey(1), 20),
        entry(1, &seckey(2), 100),
        entry(2, &seckey(3), 2000),
    ])
    .expect("unique indices")
}

fn worked_transfer() -> Tx {
    let mut tx = Tx {
        sender_index: 0,
        to_index: 1,
        fee_token: NATIVE,
        fee_amount: 3,
        token: NATIVE,
        amount: 15,
        nonce: 1,
        witness: Vec::new(),
    };
    sign_tx(&mut tx, &seckey(1));
    tx
}

fn balance_of(state: &State, index: u64) -> u64 {
    let at = state.find(index).expect("account present");
    state.entries[at].kv.get(&NATIVE)
}

fn nonce_of(state: &State, index: u64) -> u32 {
    let at = state.find(index).expect("account present");
    state.entries[at].account.nonce
}

#[test]
fn worked_transfer_moves_fee_and_amount() {
    let mut state = three_account_state();
    let with_hashes = build_tx_hashes(&vec![worked_transfer()]);
    let r = Executor::new().run(&mut state, &with_hashes[0], 2);
    assert!(r.is_ok(), "{:?}", r.err());
    assert_eq!(balance_of(&state, 0), 2);
    assert_eq!(balance_of(&state, 1), 115);
    assert_eq!(balance_of(&state, 2), 2003);
    assert_eq!(nonce_of(&state, 0), 1);
    assert_eq!(nonce_of(&state, 1), 0);
    assert_eq!(nonce_of(&state, 2), 0);
    // Conservation: the native total is unchanged.
    let total = balance_of(&state, 0) + balance_of(&state, 1) + balance_of(&state, 2);
    assert_eq!(total, 20 + 100 + 2000);
}

#[test]
fn execution_is_deterministic() {
    let mut a = three_account_state();
    let mut b = three_account_state();
    let with_hashes = build_tx_hashes(&vec![worked_transfer()]);
    Executor::new().run(&mut a, &with_hashes[0], 2).expect("runs");
    Executor::new().run(&mut b, &with_hashes[0], 2).expect("runs");
    assert_eq!(a.root().expect("root"), b.root().expect("root"));
}

#[test]
fn wrong_nonce_is_rejected() {
    let mut state = three_account_state();
    let mut tx = worked_transfer();
    tx.nonce = 2;
    sign_tx(&mut tx, &seckey(1));
    let with_hashes = build_tx_hashes(&vec![tx]);
    let r = Executor::new().run(&mut state, &with_hashes[0], 2);
    assert!(matches!(r, Err(ExecError::InvalidNonce(1, 2))));
    assert_eq!(balance_of(&state, 0), 20);
}

#[test]
fn wrong_signature_is_rejected() {
    let mut state = three_account_state();
    let mut tx = worked_transfer();
    // Signed by the wrong key.
    sign_tx(&mut tx, &seckey(2));
    let with_hashes = build_tx_hashes(&vec![tx]);
    let r = Executor::new().run(&mut state, &with_hashes[0], 2);
    assert!(matches!(r, Err(ExecError::InvalidSignature)));
}

#[test]
fn contract_sender_is_rejected() {
    let mut sender = entry(0, &seckey(1), 20);
    sender.account.script = Some(vec![1, 2, 3]);
    let mut state = State::new(vec![
        sender,
        entry(1, &seckey(2), 100),
        entry(2, &seckey(3), 2000),
    ])
    .expect("unique indices");
    let mut tx = worked_transfer();
    sign_tx(&mut tx, &seckey(1));
    let with_hashes = build_tx_hashes(&vec![tx]);
    let r = Executor::new().run(&mut state, &with_hashes[0], 2);
    assert!(matches!(r, Err(ExecError::ContractCall(1))));
}

#[test]
fn missing_sender_is_rejected() {
    let mut state = three_account_state();
    let mut tx = worked_transfer();
    tx.sender_index = 9;
    sign_tx(&mut tx, &seckey(1));
    let with_hashes = build_tx_hashes(&vec![tx]);
    let r = Executor::new().run(&mut state, &with_hashes[0], 2);
    assert!(matches!(r, Err(ExecError::MissingAccount(9))));
}

#[test]
fn failed_value_transfer_rolls_back_the_fee() {
    let mut state = three_account_state();
    let root_before = state.root().expect("root");
    let mut tx = worked_transfer();
    // The recipient does not exist: the fee payment must be undone.
    tx.to_index = 9;
    sign_tx(&mut tx, &seckey(1));
    let with_hashes = build_tx_hashes(&vec![tx]);
    let r = Executor::new().run(&mut state, &with_hashes[0], 2);
    assert!(matches!(r, Err(ExecError::MissingAccount(9))));
    assert_eq!(balance_of(&state, 0), 20);
    assert_eq!(balance_of(&state, 2), 2000);
    assert_eq!(state.root().expect("root"), root_before);
}

#[test]
fn insufficient_balance_is_rejected() {
    let mut state = three_account_state();
    let mut tx = worked_transfer();
    tx.amount = 18;  // 18 + 3 fee > 20
    sign_tx(&mut tx, &seckey(1));
    let with_hashes = build_tx_hashes(&vec![tx]);
    let r = Executor::new().run(&mut state, &with_hashes[0], 2);
    assert!(matches!(r, Err(ExecError::BalanceNotEnough(17, 18))));
    assert_eq!(balance_of(&state, 0), 20);
}

#[test]
fn credit_overflow_is_rejected() {
    let mut recipient = entry(1, &seckey(2), u64::MAX);
    recipient.kv.insert(NATIVE, u64::MAX);
    let mut state = State::new(vec![
        entry(0, &seckey(1), 20),
        recipient,
        entry(2, &seckey(3), 2000),
    ])
    .expect("unique indices");
    let root_before = state.root().expect("root");
    let with_hashes = build_tx_hashes(&vec![worked_transfer()]);
    let r = Executor::new().run(&mut state, &with_hashes[0], 2);
    assert!(matches!(r, Err(ExecError::BalanceOverflow)));
    assert_eq!(state.root().expect("root"), root_before);
}

#[test]
fn duplicate_indices_are_refused() {
    let r = State::new(vec![entry(0, &seckey(1), 1), entry(0, &seckey(2), 2)]);
    assert!(r.is_none());
}

#[test]
fn reading_accounts_moves_nothing() {
    let state = three_account_state();
    let root_before = state.root().expect("root");
    let slot = state.get_account(1).expect("present");
    assert_eq!(slot.account.index, 1);
    assert_eq!(state.get_balance(1, &NATIVE), Some(100));
    assert_eq!(state.get_balance(9, &NATIVE), None);
    assert_eq!(state.root().expect("root"), root_before);
}

#[test]
fn direct_state_updates() {
    let mut state = three_account_state();
    state.update_account_state(0, NATIVE, 77).expect("account exists");
    assert_eq!(state.get_balance(0, &NATIVE), Some(77));
    assert!(matches!(
        state.update_account_state(9, NATIVE, 1),
        Err(ExecError::MissingAccount(9))
    ));
    state.inc_nonce(0).expect("account exists");
    assert_eq!(nonce_of(&state, 0), 1);
    assert!(matches!(state.inc_nonce(9), Err(ExecError::MissingAccount(9))));
}
