//! The on-chain action verifiers.
//!
//! An action carries the old and new global states, a witness, and the
//! capacities of the rollup cell.  Each verifier re-derives the claimed
//! commitments from the witness and accepts exactly when every check of
//! the protocol holds; the first failing check names the error.

use crate::kv::{spec_kv_get, KVMap};
use crate::smt::{
    account_index_key, account_leaves, balance_digest, balance_to_node, bitmap_view,
    compute_root_with_proof, empty_digest, index_key, leaves_view, smt_proof_root,
    spec_account_leaves, token_id_key, token_key, ProofNode,
};
use crate::types::{array_eq, all_zero, Account, AccountView, AgBlock, CapacityChange, GlobalState};
use crate::{AGGREGATOR_REQUIRED_BALANCE, NEW_ACCOUNT_REQUIRED_BALANCE};
use vstd::prelude::*;

verus! {

/// Why an action was rejected; each maps to one exit code.
#[derive(Debug)]
pub enum Error {
    InvalidOutputTypeHash,
    InvalidOutputLockHash,
    InvalidWitness,
    InvalidGlobalState,
    IncorrectCapacity,
    InvalidAccountIndex,
    InvalidAccountCount,
    InvalidAccountScript,
    InvalidAccountNonce,
    InvalidDepositAmount,
    InvalidAggregator,
    InvalidAggregatorIndex,
    InvalidChallengerIndex,
    InvalidAccountMerkleProof,
    InvalidBlockMerkleProof,
    InvalidTxRoot,
    InvalidAccountRoot,
    InvalidNewAccountRoot,
    InvalidNewBlockRoot,
    InvalidSignature,
    BalanceOverflow,
    TryRevertRevertedBlock,
    TryRevertValidBlock,
    InvalidChallengeCell,
    InvalidChallengeContext,
    InvalidSince,
}

impl Error {
    /// The exit code the chain sees for this error.
    pub fn code(&self) -> (r: i8)
        ensures
            r < 0,
    {
        match self {
            Error::InvalidOutputTypeHash => -6,
            Error::InvalidOutputLockHash => -7,
            Error::InvalidWitness => -11,
            Error::IncorrectCapacity => -12,
            Error::InvalidAccountIndex => -13,
            Error::InvalidAccountScript => -14,
            Error::InvalidAccountNonce => -15,
            Error::InvalidAccountCount => -16,
            Error::InvalidGlobalState => -17,
            Error::InvalidAccountMerkleProof => -18,
            Error::InvalidBlockMerkleProof => -19,
            Error::InvalidAggregator => -20,
            Error::InvalidTxRoot => -21,
            Error::InvalidAccountRoot => -22,
            Error::InvalidSignature => -23,
            Error::InvalidDepositAmount => -24,
            Error::BalanceOverflow => -25,
            Error::InvalidAggregatorIndex => -26,
            Error::InvalidChallengerIndex => -27,
            Error::InvalidNewAccountRoot => -28,
            Error::InvalidNewBlockRoot => -29,
            Error::TryRevertRevertedBlock => -30,
            Error::TryRevertValidBlock => -31,
            Error::InvalidChallengeCell => -32,
            Error::InvalidChallengeContext => -33,
            Error::InvalidSince => -34,
        }
    }
}

/// A compressed multi-leaf SMT proof.
pub struct SMTProof {
    pub leaves_bitmap: Vec<[u8; 32]>,
    pub merkle_path: Vec<ProofNode>,
}

/// The native chain token's id: 32 zero bytes.
pub open spec fn native_array() -> [u8; 32] {
    vstd::array::spec_array_fill_for_copy_type::<u8, 32>(0u8)
}

/// The native token id as a byte string.
pub open spec fn native_token() -> Seq<u8> {
    native_array()@
}

/// The native token id as a key.
pub fn native_token_id() -> (r: [u8; 32])
    ensures
        r == native_array(),
        r@ == native_token(),
{
    let id = [0u8; 32];
    id
}

/// Does the proof bind the given leaves to exactly this root?  A leaf
/// list too long for one proof binds nothing.
pub open spec fn spec_proof_binds(
    leaves: Seq<(Seq<u8>, Seq<u8>)>,
    bitmap: Seq<Seq<u8>>,
    path: Seq<ProofNode>,
    root: Seq<u8>,
) -> bool {
    &&& leaves.len() <= crate::smt::MAX_PROOF_LEAVES as nat
    &&& smt_proof_root(leaves, bitmap, path) == Option::Some(root)
}

/// Check one account slot (and its token balances) against an account
/// root: `Ok` exactly when the proof binds the slot's leaves to the
/// root.
pub fn verify_account_root(
    index: u64,
    account: Option<&Account>,
    kv: &KVMap,
    proof: &SMTProof,
    account_root: &[u8; 32],
) -> (r: Result<(), Error>)
    requires
        match account {
            Option::Some(a) => a.wf(),
            Option::None => true,
        },
    ensures
        r is Ok <==> spec_proof_binds(
            spec_account_leaves(
                index,
                match account {
                    Option::Some(a) => Option::Some(a@),
                    Option::None => Option::None,
                },
                kv.entries@,
            ),
            bitmap_view(proof.leaves_bitmap@),
            proof.merkle_path@,
            account_root@,
        ),
        r is Err ==> r == Result::<(), Error>::Err(Error::InvalidAccountMerkleProof),
{
    let leaves = account_leaves(index, account, kv);
    if leaves.len() > crate::smt::MAX_PROOF_LEAVES {
        return Result::Err(Error::InvalidAccountMerkleProof);
    }
    match compute_root_with_proof(&leaves, &proof.leaves_bitmap, &proof.merkle_path) {
        Option::None => Result::Err(Error::InvalidAccountMerkleProof),
        Option::Some(root) => {
            if array_eq(&root, account_root) {
                Result::Ok(())
            } else {
                Result::Err(Error::InvalidAccountMerkleProof)
            }
        },
    }
}

/// The Register witness: the new account record and a proof of its
/// empty slot.
pub struct RegisterAction {
    pub account: Account,
    pub proof: SMTProof,
}

/// The leaves of a not-yet-registered slot: a zero native balance and
/// an empty record.
pub open spec fn empty_slot_leaves(index: u64) -> Seq<(Seq<u8>, Seq<u8>)> {
    seq![
        (token_key(index, native_token()), balance_digest(0)),
        (index_key(index), empty_digest()),
    ]
}

/// The leaves of a freshly registered slot: the deposit as native
/// balance and the new record.
pub open spec fn new_slot_leaves(index: u64, account: AccountView, deposit: u64) -> Seq<
    (Seq<u8>, Seq<u8>),
> {
    seq![
        (token_key(index, native_token()), balance_digest(deposit)),
        (index_key(index), crate::smt::account_digest(account)),
    ]
}

/// The verdict Register owes.  In order: the deposit must be a
/// non-negative capacity difference of at least the registration bond;
/// the record must carry a zero nonce, no script, and the next free
/// index; the proof must show the slot empty under the old root (the
/// very first account instead needs a zero old root) and filled under
/// the new root; the account count must grow by one and the block
/// commitment must stand still.
pub open spec fn spec_verify_register(
    old_state: GlobalState,
    new_state: GlobalState,
    account: AccountView,
    bitmap: Seq<Seq<u8>>,
    path: Seq<ProofNode>,
    capacities: CapacityChange,
) -> Result<(), Error> {
    if capacities.output < capacities.input {
        Result::Err(Error::IncorrectCapacity)
    } else {
        let deposit = (capacities.output - capacities.input) as u64;
        if account.nonce != 0 {
            Result::Err(Error::InvalidAccountNonce)
        } else if account.script is Some {
            Result::Err(Error::InvalidAccountScript)
        } else if deposit < NEW_ACCOUNT_REQUIRED_BALANCE {
            Result::Err(Error::InvalidDepositAmount)
        } else if account.index != old_state.account_count {
            Result::Err(Error::InvalidAccountIndex)
        } else if account.index == 0 && !all_zero(old_state.account_root@) {
            Result::Err(Error::InvalidAccountMerkleProof)
        } else if account.index != 0 && !spec_proof_binds(
            empty_slot_leaves(account.index),
            bitmap,
            path,
            old_state.account_root@,
        ) {
            Result::Err(Error::InvalidAccountMerkleProof)
        } else if !spec_proof_binds(
            new_slot_leaves(account.index, account, deposit),
            bitmap,
            path,
            new_state.account_root@,
        ) {
            Result::Err(Error::InvalidAccountMerkleProof)
        } else if new_state.account_count != old_state.account_count + 1 {
            Result::Err(Error::InvalidAccountCount)
        } else if new_state.block_root@ != old_state.block_root@ || new_state.block_count
            != old_state.block_count {
            Result::Err(Error::InvalidGlobalState)
        } else {
            Result::Ok(())
        }
    }
}

/// Verifies a Register action.
pub struct RegisterVerifier {
    pub old_state: GlobalState,
    pub new_state: GlobalState,
    pub action: RegisterAction,
}

impl RegisterVerifier {
    /// Bind the two global states and the witness.
    pub fn new(
        old_state: GlobalState,
        new_state: GlobalState,
        register_action: RegisterAction,
    ) -> (r: RegisterVerifier)
        ensures
            r.old_state == old_state,
            r.new_state == new_state,
            r.action == register_action,
    {
        RegisterVerifier { old_state, new_state, action: register_action }
    }

    /// Run every Register check, exactly as `spec_verify_register`
    /// lays them out.
    pub fn verify(&self, capacities: &CapacityChange) -> (r: Result<(), Error>)
        requires
            self.action.account.wf(),
        ensures
            r == spec_verify_register(
                self.old_state,
                self.new_state,
                self.action.account@,
                bitmap_view(self.action.proof.leaves_bitmap@),
                self.action.proof.merkle_path@,
                *capacities,
            ),
    {
        if capacities.output < capacities.input {
            return Result::Err(Error::IncorrectCapacity);
        }
        let deposit = capacities.output - capacities.input;
        let account = &self.action.account;
        if account.nonce != 0 {
            return Result::Err(Error::InvalidAccountNonce);
        }
        if account.script.is_some() {
            return Result::Err(Error::InvalidAccountScript);
        }
        if deposit < NEW_ACCOUNT_REQUIRED_BALANCE {
            return Result::Err(Error::InvalidDepositAmount);
        }
        if account.index != self.old_state.account_count {
            return Result::Err(Error::InvalidAccountIndex);
        }
        let native = native_token_id();
        if account.index == 0 {
            if !crate::types::array_is_zero(&self.old_state.account_root) {
                return Result::Err(Error::InvalidAccountMerkleProof);
            }
        } else {
            let mut old_leaves: Vec<([u8; 32], [u8; 32])> = Vec::new();
            old_leaves.push((token_id_key(account.index, &native), balance_to_node(0)));
            old_leaves.push((account_index_key(account.index), crate::smt::empty_node()));
            proof {
                assert(leaves_view(old_leaves@) =~= empty_slot_leaves(account.index));
            }
            match compute_root_with_proof(
                &old_leaves,
                &self.action.proof.leaves_bitmap,
                &self.action.proof.merkle_path,
            ) {
                Option::None => {
                    return Result::Err(Error::InvalidAccountMerkleProof);
                },
                Option::Some(root) => {
                    if !array_eq(&root, &self.old_state.account_root) {
                        return Result::Err(Error::InvalidAccountMerkleProof);
                    }
                },
            }
        }
        let mut new_leaves: Vec<([u8; 32], [u8; 32])> = Vec::new();
        new_leaves.push((token_id_key(account.index, &native), balance_to_node(deposit)));
        new_leaves.push((account_index_key(account.index), crate::smt::account_to_node(account)));
        proof {
            assert(leaves_view(new_leaves@) =~= new_slot_leaves(account.index, account@, deposit));
        }
        match compute_root_with_proof(
            &new_leaves,
            &self.action.proof.leaves_bitmap,
            &self.action.proof.merkle_path,
        ) {
            Option::None => {
                return Result::Err(Error::InvalidAccountMerkleProof);
            },
            Option::Some(root) => {
                if !array_eq(&root, &self.new_state.account_root) {
                    return Result::Err(Error::InvalidAccountMerkleProof);
                }
            },
        }
        if self.old_state.account_count == u64::MAX || self.new_state.account_count
            != self.old_state.account_count + 1 {
            return Result::Err(Error::InvalidAccountCount);
        }
        if !array_eq(&self.new_state.block_root, &self.old_state.block_root)
            || self.new_state.block_count != self.old_state.block_count {
            return Result::Err(Error::InvalidGlobalState);
        }
        Result::Ok(())
    }
}

/// The Deposit witness: the funded account, its balances, and the
/// proof of them.
pub struct DepositAction {
    pub account: Account,
    pub token_kv: KVMap,
    pub proof: SMTProof,
}

/// The verdict Deposit owes.  The deposit is the capacity difference;
/// the proof must show the account and its balances under the old root
/// and, with the native balance raised by the deposit, under the new
/// root; everything else in the global state must stand still.
pub open spec fn spec_verify_deposit(
    old_state: GlobalState,
    new_state: GlobalState,
    account: AccountView,
    kv: Seq<([u8; 32], u64)>,
    bitmap: Seq<Seq<u8>>,
    path: Seq<ProofNode>,
    capacities: CapacityChange,
) -> Result<(), Error> {
    if capacities.output < capacities.input {
        Result::Err(Error::IncorrectCapacity)
    } else {
        let deposit = (capacities.output - capacities.input) as u64;
        if !spec_proof_binds(
            spec_account_leaves(account.index, Option::Some(account), kv),
            bitmap,
            path,
            old_state.account_root@,
        ) {
            Result::Err(Error::InvalidAccountMerkleProof)
        } else {
            let balance = spec_kv_get(kv, native_token());
            if balance + deposit > u64::MAX {
                Result::Err(Error::BalanceOverflow)
            } else {
                let kv2 = crate::kv::spec_kv_insert(kv, native_array(), (balance + deposit) as u64);
                if !spec_proof_binds(
                    spec_account_leaves(account.index, Option::Some(account), kv2),
                    bitmap,
                    path,
                    new_state.account_root@,
                ) {
                    Result::Err(Error::InvalidAccountMerkleProof)
                } else if new_state.block_root@ != old_state.block_root@ || new_state.block_count
                    != old_state.block_count || new_state.account_count
                    != old_state.account_count {
                    Result::Err(Error::InvalidGlobalState)
                } else {
                    Result::Ok(())
                }
            }
        }
    }
}

/// Verifies a Deposit action.
pub struct DepositVerifier {
    pub old_state: GlobalState,
    pub new_state: GlobalState,
    pub action: DepositAction,
}

impl DepositVerifier {
    /// Bind the two global states and the witness.
    pub fn new(
        old_state: GlobalState,
        new_state: GlobalState,
        deposit_action: DepositAction,
    ) -> (r: DepositVerifier)
        ensures
            r.old_state == old_state,
            r.new_state == new_state,
            r.action == deposit_action,
    {
        DepositVerifier { old_state, new_state, action: deposit_action }
    }

    /// Run every Deposit check, exactly as `spec_verify_deposit` lays
    /// them out.
    pub fn verify(&self, capacities: &CapacityChange) -> (r: Result<(), Error>)
        requires
            self.action.account.wf(),
            self.action.token_kv.wf(),
        ensures
            r == spec_verify_deposit(
                self.old_state,
                self.new_state,
                self.action.account@,
                self.action.token_kv.entries@,
                bitmap_view(self.action.proof.leaves_bitmap@),
                self.action.proof.merkle_path@,
                *capacities,
            ),
    {
        if capacities.output < capacities.input {
            return Result::Err(Error::IncorrectCapacity);
        }
        let deposit = capacities.output - capacities.input;
        let account = &self.action.account;
        match verify_account_root(
            account.index,
            Option::Some(account),
            &self.action.token_kv,
            &self.action.proof,
            &self.old_state.account_root,
        ) {
            Result::Ok(()) => {},
            Result::Err(e) => {
                return Result::Err(e);
            },
        }
        let native = native_token_id();
        let balance = self.action.token_kv.get(&native);
        if balance > u64::MAX - deposit {
            return Result::Err(Error::BalanceOverflow);
        }
        let mut kv2 = crate::executor::copy_kv(&self.action.token_kv);
        kv2.insert(native, balance + deposit);
        proof {
            assert(native@ == native_token());
        }
        match verify_account_root(
            account.index,
            Option::Some(account),
            &kv2,
            &self.action.proof,
            &self.new_state.account_root,
        ) {
            Result::Ok(()) => {},
            Result::Err(e) => {
                return Result::Err(e);
            },
        }
        if !array_eq(&self.new_state.block_root, &self.old_state.block_root)
            || self.new_state.block_count != self.old_state.block_count
            || self.new_state.account_count != self.old_state.account_count {
            return Result::Err(Error::InvalidGlobalState);
        }
        Result::Ok(())
    }
}

/// A 65-byte signature field of all zeros.
pub open spec fn zero_sig() -> [u8; 65] {
    vstd::array::spec_array_fill_for_copy_type::<u8, 65>(0u8)
}

/// `n` zero bytes.
pub open spec fn zero_bytes(n: nat) -> Seq<u8> {
    Seq::new(n, |i: int| 0u8)
}

/// The block with its signature field zeroed: what the aggregator
/// actually signs.
pub open spec fn zeroed_sig_block(b: AgBlock) -> AgBlock {
    AgBlock {
        number: b.number,
        tx_root: b.tx_root,
        txs_count: b.txs_count,
        ag_index: b.ag_index,
        prev_account_root: b.prev_account_root,
        prev_account_count: b.prev_account_count,
        account_root: b.account_root,
        account_count: b.account_count,
        ag_sig: zero_sig(),
    }
}

/// The signing message of a block: the BLAKE2b digest of its encoding
/// with the signature field zeroed.
pub open spec fn block_sig_message(b: AgBlock) -> Seq<u8> {
    crate::hash::blake2b(crate::codec::block_bytes(zeroed_sig_block(b)))
}

/// The BLAKE2b hash of a block's encoding.
pub open spec fn block_hash(b: AgBlock) -> Seq<u8> {
    crate::hash::blake2b(crate::codec::block_bytes(b))
}

/// Hash a block's encoding.
pub fn hash_block(b: &AgBlock) -> (r: [u8; 32])
    ensures
        r@ == block_hash(*b),
{
    let bytes = crate::codec::serialize_block(b);
    crate::hash::blake2b_256(bytes.as_slice())
}

/// Compute a block's signing message.
pub fn compute_sig_message(b: &AgBlock) -> (r: [u8; 32])
    ensures
        r@ == block_sig_message(*b),
{
    let zeroed = AgBlock {
        number: b.number,
        tx_root: b.tx_root,
        txs_count: b.txs_count,
        ag_index: b.ag_index,
        prev_account_root: b.prev_account_root,
        prev_account_count: b.prev_account_count,
        account_root: b.account_root,
        account_count: b.account_count,
        ag_sig: [0u8; 65],
    };
    let bytes = crate::codec::serialize_block(&zeroed);
    crate::hash::blake2b_256(bytes.as_slice())
}

/// The SubmitBlock witness: the signed block, its transfers, the
/// aggregator's record and balances with their proof, the previous
/// last block's hash and its chain proof.
pub struct SubmitBlockAction {
    pub block: AgBlock,
    pub txs: Vec<crate::types::Tx>,
    pub ag_account: Account,
    pub ag_kv: KVMap,
    pub account_proof: SMTProof,
    pub last_block_hash: [u8; 32],
    pub block_proof: Vec<[u8; 32]>,
}

/// The verdict SubmitBlock owes.  The rollup cell's capacity must not
/// move.  The aggregator must hold the bond in native tokens, carry no
/// script, prove itself under the old account root and have signed the
/// block.  The block must name the aggregator, tie the two account
/// roots and counts to the global states, and commit to exactly the
/// carried transfers.  The chain commitment must extend by this block
/// at the next position.
pub open spec fn spec_verify_submit_block(
    old_state: GlobalState,
    new_state: GlobalState,
    block: AgBlock,
    txs: Seq<crate::types::TxView>,
    ag: AccountView,
    ag_kv: Seq<([u8; 32], u64)>,
    bitmap: Seq<Seq<u8>>,
    path: Seq<ProofNode>,
    last_block_hash: Seq<u8>,
    block_proof: Seq<Seq<u8>>,
    capacities: CapacityChange,
) -> Result<(), Error> {
    if capacities.input != capacities.output {
        Result::Err(Error::IncorrectCapacity)
    } else if spec_kv_get(ag_kv, native_token()) < AGGREGATOR_REQUIRED_BALANCE {
        Result::Err(Error::InvalidAggregator)
    } else if ag.script is Some {
        Result::Err(Error::InvalidAggregator)
    } else if !spec_proof_binds(
        spec_account_leaves(ag.index, Option::Some(ag), ag_kv),
        bitmap,
        path,
        old_state.account_root@,
    ) {
        Result::Err(Error::InvalidAccountMerkleProof)
    } else if crate::sig::spec_verify_signature(
        block.ag_sig@,
        block_sig_message(block),
        ag.pubkey_hash,
    ) is Err {
        Result::Err(Error::InvalidSignature)
    } else if block.ag_index != ag.index {
        Result::Err(Error::InvalidAggregatorIndex)
    } else if block.prev_account_root@ != old_state.account_root@ {
        Result::Err(Error::InvalidAccountRoot)
    } else if block.account_root@ != new_state.account_root@ {
        Result::Err(Error::InvalidAccountRoot)
    } else if block.prev_account_count != old_state.account_count {
        Result::Err(Error::InvalidAccountCount)
    } else if block.account_count != new_state.account_count {
        Result::Err(Error::InvalidAccountCount)
    } else if block.txs_count != txs.len() {
        Result::Err(Error::InvalidTxRoot)
    } else if crate::mmr::spec_merkle_root(crate::challenge::tx_hashes_of(txs)) != Option::Some(
        block.tx_root@,
    ) {
        Result::Err(Error::InvalidTxRoot)
    } else if block.number != old_state.block_count {
        Result::Err(Error::InvalidBlockMerkleProof)
    } else if block.number == 0 && !(all_zero(old_state.block_root@) && block_proof.len() == 0) {
        Result::Err(Error::InvalidBlockMerkleProof)
    } else if block.number != 0 && crate::mmr::spec_compute_root_at_indices(
        seq![((block.number - 1) as nat, last_block_hash)],
        block.number as nat,
        block_proof,
    ) != Option::Some(old_state.block_root@) {
        Result::Err(Error::InvalidBlockMerkleProof)
    } else {
        match crate::mmr::spec_compute_new_block_root(
            last_block_hash,
            (block.number - 1) as nat,
            block_hash(block),
            block.number as nat,
            block.number as nat + 1,
            block_proof,
        ) {
            Option::None => Result::Err(Error::InvalidBlockMerkleProof),
            Option::Some(new_root) => {
                if new_state.block_root@ != new_root {
                    Result::Err(Error::InvalidBlockMerkleProof)
                } else if new_state.block_count != old_state.block_count + 1 {
                    Result::Err(Error::InvalidGlobalState)
                } else {
                    Result::Ok(())
                }
            },
        }
    }
}

/// Verifies a SubmitBlock action.
pub struct SubmitBlockVerifier {
    pub old_state: GlobalState,
    pub new_state: GlobalState,
    pub action: SubmitBlockAction,
}

impl SubmitBlockVerifier {
    /// Bind the two global states and the witness.
    pub fn new(
        old_state: GlobalState,
        new_state: GlobalState,
        submit_block: SubmitBlockAction,
    ) -> (r: SubmitBlockVerifier)
        ensures
            r.old_state == old_state,
            r.new_state == new_state,
            r.action == submit_block,
    {
        SubmitBlockVerifier { old_state, new_state, action: submit_block }
    }

    /// Run every SubmitBlock check, exactly as
    /// `spec_verify_submit_block` lays them out.
    pub fn verify(&self, capacities: &CapacityChange) -> (r: Result<(), Error>)
        requires
            self.action.ag_account.wf(),
        ensures
            r == spec_verify_submit_block(
                self.old_state,
                self.new_state,
                self.action.block,
                crate::challenge::txs_views(self.action.txs@),
                self.action.ag_account@,
                self.action.ag_kv.entries@,
                bitmap_view(self.action.account_proof.leaves_bitmap@),
                self.action.account_proof.merkle_path@,
                self.action.last_block_hash@,
                crate::mmr::proof_view(self.action.block_proof@),
                *capacities,
            ),
    {
        if capacities.input != capacities.output {
            return Result::Err(Error::IncorrectCapacity);
        }
        let native = native_token_id();
        let ag = &self.action.ag_account;
        let balance = self.action.ag_kv.get(&native);
        if balance < AGGREGATOR_REQUIRED_BALANCE {
            return Result::Err(Error::InvalidAggregator);
        }
        if ag.script.is_some() {
            return Result::Err(Error::InvalidAggregator);
        }
        match verify_account_root(
            ag.index,
            Option::Some(ag),
            &self.action.ag_kv,
            &self.action.account_proof,
            &self.old_state.account_root,
        ) {
            Result::Ok(()) => {},
            Result::Err(_) => {
                return Result::Err(Error::InvalidAccountMerkleProof);
            },
        }
        let block = &self.action.block;
        let sig_message = compute_sig_message(block);
        match crate::sig::verify_ag_signature(&block.ag_sig, &sig_message, &ag.pubkey_hash) {
            Result::Ok(()) => {},
            Result::Err(_) => {
                return Result::Err(Error::InvalidSignature);
            },
        }
        if block.ag_index != ag.index {
            return Result::Err(Error::InvalidAggregatorIndex);
        }
        if !array_eq(&block.prev_account_root, &self.old_state.account_root) {
            return Result::Err(Error::InvalidAccountRoot);
        }
        if !array_eq(&block.account_root, &self.new_state.account_root) {
            return Result::Err(Error::InvalidAccountRoot);
        }
        if block.prev_account_count != self.old_state.account_count {
            return Result::Err(Error::InvalidAccountCount);
        }
        if block.account_count != self.new_state.account_count {
            return Result::Err(Error::InvalidAccountCount);
        }
        if (block.txs_count as u64) != (self.action.txs.len() as u64) {
            return Result::Err(Error::InvalidTxRoot);
        }
        let with_hashes = crate::executor::build_tx_hashes(&self.action.txs);
        let n = with_hashes.len();
        let mut hashes: Vec<[u8; 32]> = Vec::new();
        let mut i: usize = 0;
        while i < n
            invariant
                i <= n,
                n == with_hashes@.len(),
                n == self.action.txs@.len(),
                forall|k: int|
                    0 <= k < self.action.txs@.len() ==> (#[trigger] with_hashes@[k]).tx_hash@
                        == crate::hash::blake2b(
                        crate::codec::tx_bytes(self.action.txs@[k]@),
                    ),
                hashes@.len() == i,
                forall|k: int|
                    0 <= k < i ==> #[trigger] hashes@[k] == with_hashes@[k].tx_hash,
            decreases n - i,
        {
            hashes.push(with_hashes[i].tx_hash);
            i = i + 1;
        }
        proof {
            assert(crate::mmr::proof_view(hashes@) =~~= crate::challenge::tx_hashes_of(
                crate::challenge::txs_views(self.action.txs@),
            ));
        }
        match crate::mmr::merkle_root(&hashes) {
            Option::None => {
                return Result::Err(Error::InvalidTxRoot);
            },
            Option::Some(tx_root) => {
                if !array_eq(&tx_root, &block.tx_root) {
                    return Result::Err(Error::InvalidTxRoot);
                }
            },
        }
        if block.number != self.old_state.block_count {
            return Result::Err(Error::InvalidBlockMerkleProof);
        }
        if block.number == 0 {
            if !(crate::types::array_is_zero(&self.old_state.block_root)
                && self.action.block_proof.len() == 0) {
                return Result::Err(Error::InvalidBlockMerkleProof);
            }
        } else {
            let mut old_leaf: Vec<(u64, [u8; 32])> = Vec::new();
            old_leaf.push((block.number - 1, self.action.last_block_hash));
            proof {
                assert(crate::mmr::leaves_exec_view(old_leaf@) =~= seq![
                    ((block.number - 1) as nat, self.action.last_block_hash@),
                ]);
            }
            match crate::mmr::compute_block_root(
                &old_leaf,
                block.number,
                &self.action.block_proof,
            ) {
                Option::None => {
                    return Result::Err(Error::InvalidBlockMerkleProof);
                },
                Option::Some(root) => {
                    if !array_eq(&root, &self.old_state.block_root) {
                        return Result::Err(Error::InvalidBlockMerkleProof);
                    }
                },
            }
        }
        let new_block_hash = hash_block(block);
        let prev_index: u64 = if block.number == 0 {
            0
        } else {
            block.number - 1
        };
        // The count cannot overflow here without the earlier chain
        // check having failed; the clamp only keeps the arithmetic
        // total.
        let grown_count: u64 = if block.number == u64::MAX {
            u64::MAX
        } else {
            block.number + 1
        };
        match crate::mmr::compute_new_block_root(
            self.action.last_block_hash,
            prev_index,
            new_block_hash,
            block.number,
            grown_count,
            &self.action.block_proof,
        ) {
            Option::None => Result::Err(Error::InvalidBlockMerkleProof),
            Option::Some(new_root) => {
                if !array_eq(&new_root, &self.new_state.block_root) {
                    Result::Err(Error::InvalidBlockMerkleProof)
                } else if self.old_state.block_count == u64::MAX || self.new_state.block_count
                    != self.old_state.block_count + 1 {
                    Result::Err(Error::InvalidGlobalState)
                } else {
                    Result::Ok(())
                }
            },
        }
    }
}

/// What the chain says about the spent challenge cell: its type
/// script's code hash and args, this verifier's own script hash, and
/// the input's since field.
pub struct ChallengeCellInfo {
    pub code_hash: [u8; 32],
    pub main_type_hash: [u8; 32],
    pub own_script_hash: [u8; 32],
    pub since: u64,
}

/// The RevertBlock witness: the challenged block and challenger from
/// the challenge cell's data, the two touched accounts with their
/// balances and proof, and the block's chain proof.
pub struct RevertBlockAction {
    pub block: AgBlock,
    pub challenger_index: u64,
    pub ag_account: Account,
    pub challenger_account: Account,
    pub ag_kv: KVMap,
    pub challenger_kv: KVMap,
    pub accounts_proof: SMTProof,
    pub block_proof: Vec<[u8; 32]>,
}

/// The encoding of the reverted form of a block: position and previous
/// state kept, transactions and signature zeroed, the challenger in the
/// aggregator seat, and the penalty state root.
pub open spec fn reverted_block_bytes(b: AgBlock, account_root: Seq<u8>, challenger: u64) -> Seq<
    u8,
> {
    crate::bytes::le_u64(b.number) + zero_bytes(32) + crate::bytes::le_u32(0u32)
        + crate::bytes::le_u64(challenger) + b.prev_account_root@ + crate::bytes::le_u64(
        b.prev_account_count,
    ) + account_root + crate::bytes::le_u64(b.account_count) + zero_bytes(65)
}

/// The aggregator's penalty: exactly eight tenths of its native
/// balance, rounded down.  The quotient always fits the balance type.
pub open spec fn spec_reward(ag_balance: u64) -> u64 {
    (ag_balance * crate::CHALLENGE_REWARD_NUMERATOR / (
    crate::CHALLENGE_REWARD_DENOMINATOR as int)) as u64
}

/// The leaves of the two touched accounts after the penalty: the
/// aggregator's native balance zeroed, the challenger's raised by the
/// reward (saturating).
pub open spec fn spec_reverted_leaves(
    ag: AccountView,
    ag_kv: Seq<([u8; 32], u64)>,
    chal: AccountView,
    chal_kv: Seq<([u8; 32], u64)>,
) -> Seq<(Seq<u8>, Seq<u8>)> {
    let reward = spec_reward(spec_kv_get(ag_kv, native_token()));
    let chal_balance = spec_kv_get(chal_kv, native_token());
    let new_chal_balance = if chal_balance + reward > u64::MAX {
        u64::MAX as int
    } else {
        chal_balance + reward
    };
    spec_account_leaves(
        ag.index,
        Option::Some(ag),
        crate::kv::spec_kv_insert(ag_kv, native_array(), 0),
    ) + spec_account_leaves(
        chal.index,
        Option::Some(chal),
        crate::kv::spec_kv_insert(chal_kv, native_array(), new_chal_balance as u64),
    )
}

/// The verdict RevertBlock owes.  The spent cell must be a challenge
/// cell pointing back at this verifier, held past the waiting period
/// under a relative block lock.  The two accounts must be the block's
/// aggregator and the cell's challenger, proven under the block's
/// previous state root; the block itself must be a live (not yet
/// reverted) block proven under the old chain root.  The new state
/// must commit to the penalty balances and to the reverted block in
/// the old one's position, with both counts unchanged.
pub open spec fn spec_verify_revert_block(
    old_state: GlobalState,
    new_state: GlobalState,
    cell: ChallengeCellInfo,
    block: AgBlock,
    challenger_index: u64,
    ag: AccountView,
    chal: AccountView,
    ag_kv: Seq<([u8; 32], u64)>,
    chal_kv: Seq<([u8; 32], u64)>,
    bitmap: Seq<Seq<u8>>,
    path: Seq<ProofNode>,
    block_proof: Seq<Seq<u8>>,
) -> Result<(), Error> {
    if !all_zero(cell.code_hash@) {
        Result::Err(Error::InvalidChallengeCell)
    } else if cell.main_type_hash@ != cell.own_script_hash@ {
        Result::Err(Error::InvalidChallengeCell)
    } else if !crate::challenge::spec_since_waits_blocks(
        cell.since,
        crate::CHALLENGE_CELL_WAIT_BLOCKS,
    ) {
        Result::Err(Error::InvalidSince)
    } else if ag.index != block.ag_index {
        Result::Err(Error::InvalidAggregatorIndex)
    } else if chal.index != challenger_index {
        Result::Err(Error::InvalidChallengerIndex)
    } else if block.spec_is_reverted() {
        Result::Err(Error::TryRevertRevertedBlock)
    } else if crate::mmr::spec_compute_root_at_indices(
        seq![(block.number as nat, block_hash(block))],
        block.number as nat + 1,
        block_proof,
    ) != Option::Some(old_state.block_root@) {
        Result::Err(Error::InvalidBlockMerkleProof)
    } else if !spec_proof_binds(
        spec_account_leaves(ag.index, Option::Some(ag), ag_kv) + spec_account_leaves(
            chal.index,
            Option::Some(chal),
            chal_kv,
        ),
        bitmap,
        path,
        block.prev_account_root@,
    ) {
        Result::Err(Error::InvalidAccountMerkleProof)
    } else {
        match crate::smt::bounded_proof_root(
            spec_reverted_leaves(ag, ag_kv, chal, chal_kv),
            bitmap,
            path,
        ) {
            Option::None => Result::Err(Error::InvalidAccountMerkleProof),
            Option::Some(reverted_root) => {
                if new_state.account_root@ != reverted_root {
                    Result::Err(Error::InvalidNewAccountRoot)
                } else {
                    match crate::mmr::spec_compute_root_at_indices(
                        seq![
                            (
                                block.number as nat,
                                crate::hash::blake2b(
                                    reverted_block_bytes(block, reverted_root, challenger_index),
                                ),
                            ),
                        ],
                        block.number as nat + 1,
                        block_proof,
                    ) {
                        Option::None => Result::Err(Error::InvalidBlockMerkleProof),
                        Option::Some(new_block_root) => {
                            if new_state.block_root@ != new_block_root || new_state.account_count
                                != old_state.account_count || new_state.block_count
                                != old_state.block_count {
                                Result::Err(Error::InvalidGlobalState)
                            } else {
                                Result::Ok(())
                            }
                        },
                    }
                }
            },
        }
    }
}

/// Verifies a RevertBlock action.
pub struct RevertBlockVerifier {
    pub old_state: GlobalState,
    pub new_state: GlobalState,
    pub action: RevertBlockAction,
}

impl RevertBlockVerifier {
    /// Bind the two global states and the witness.
    pub fn new(
        old_state: GlobalState,
        new_state: GlobalState,
        revert_block: RevertBlockAction,
    ) -> (r: RevertBlockVerifier)
        ensures
            r.old_state == old_state,
            r.new_state == new_state,
            r.action == revert_block,
    {
        RevertBlockVerifier { old_state, new_state, action: revert_block }
    }

    /// Run every RevertBlock check, exactly as
    /// `spec_verify_revert_block` lays them out.
    pub fn verify(&self, cell: &ChallengeCellInfo) -> (r: Result<(), Error>)
        requires
            self.action.ag_account.wf(),
            self.action.challenger_account.wf(),
            self.action.ag_kv.wf(),
            self.action.challenger_kv.wf(),
        ensures
            r == spec_verify_revert_block(
                self.old_state,
                self.new_state,
                *cell,
                self.action.block,
                self.action.challenger_index,
                self.action.ag_account@,
                self.action.challenger_account@,
                self.action.ag_kv.entries@,
                self.action.challenger_kv.entries@,
                bitmap_view(self.action.accounts_proof.leaves_bitmap@),
                self.action.accounts_proof.merkle_path@,
                crate::mmr::proof_view(self.action.block_proof@),
            ),
    {
        if !crate::types::array_is_zero(&cell.code_hash) {
            return Result::Err(Error::InvalidChallengeCell);
        }
        if !array_eq(&cell.main_type_hash, &cell.own_script_hash) {
            return Result::Err(Error::InvalidChallengeCell);
        }
        if !crate::challenge::since_waits_blocks(
            cell.since,
            crate::CHALLENGE_CELL_WAIT_BLOCKS,
        ) {
            return Result::Err(Error::InvalidSince);
        }
        let block = &self.action.block;
        let ag = &self.action.ag_account;
        let chal = &self.action.challenger_account;
        if ag.index != block.ag_index {
            return Result::Err(Error::InvalidAggregatorIndex);
        }
        if chal.index != self.action.challenger_index {
            return Result::Err(Error::InvalidChallengerIndex);
        }
        if block.is_reverted_block() {
            return Result::Err(Error::TryRevertRevertedBlock);
        }
        let bh = hash_block(block);
        let mut block_leaf: Vec<(u64, [u8; 32])> = Vec::new();
        block_leaf.push((block.number, bh));
        proof {
            assert(crate::mmr::leaves_exec_view(block_leaf@) =~= seq![
                (block.number as nat, block_hash(self.action.block)),
            ]);
        }
        if block.number == u64::MAX {
            proof {
                crate::mmr::lemma_leaf_pos_bounds(block.number as nat);
            }
            return Result::Err(Error::InvalidBlockMerkleProof);
        }
        match crate::mmr::compute_block_root(&block_leaf, block.number + 1, &self.action.block_proof) {
            Option::None => {
                return Result::Err(Error::InvalidBlockMerkleProof);
            },
            Option::Some(root) => {
                if !array_eq(&root, &self.old_state.block_root) {
                    return Result::Err(Error::InvalidBlockMerkleProof);
                }
            },
        }
        let mut leaves = crate::smt::account_leaves(ag.index, Option::Some(ag), &self.action.ag_kv);
        let chal_leaves = crate::smt::account_leaves(
            chal.index,
            Option::Some(chal),
            &self.action.challenger_kv,
        );
        let ghost ag_leaves_view = crate::smt::leaves_view(leaves@);
        let m = chal_leaves.len();
        let mut j: usize = 0;
        while j < m
            invariant
                j <= m,
                m == chal_leaves@.len(),
                leaves@.len() >= j,
                crate::smt::leaves_view(leaves@) =~= ag_leaves_view + crate::smt::leaves_view(
                    chal_leaves@.take(j as int),
                ),
            decreases m - j,
        {
            let ghost prev = leaves@;
            leaves.push(chal_leaves[j]);
            proof {
                assert(chal_leaves@.take(j + 1) =~= chal_leaves@.take(j as int).push(
                    chal_leaves@[j as int],
                ));
                assert(crate::smt::leaves_view(chal_leaves@.take(j + 1))
                    =~= crate::smt::leaves_view(chal_leaves@.take(j as int)).push(
                    (chal_leaves@[j as int].0@, chal_leaves@[j as int].1@),
                ));
                assert(crate::smt::leaves_view(leaves@) =~= crate::smt::leaves_view(prev).push(
                    (chal_leaves@[j as int].0@, chal_leaves@[j as int].1@),
                ));
                assert(crate::smt::leaves_view(leaves@) =~= ag_leaves_view
                    + crate::smt::leaves_view(chal_leaves@.take(j + 1)));
            }
            j = j + 1;
        }
        proof {
            assert(chal_leaves@.take(m as int) =~= chal_leaves@);
            assert(crate::smt::leaves_view(leaves@) =~= ag_leaves_view + crate::smt::leaves_view(
                chal_leaves@,
            ));
        }
        if leaves.len() > crate::smt::MAX_PROOF_LEAVES {
            return Result::Err(Error::InvalidAccountMerkleProof);
        }
        match crate::smt::compute_root_with_proof(
            &leaves,
            &self.action.accounts_proof.leaves_bitmap,
            &self.action.accounts_proof.merkle_path,
        ) {
            Option::None => {
                return Result::Err(Error::InvalidAccountMerkleProof);
            },
            Option::Some(root) => {
                if !array_eq(&root, &block.prev_account_root) {
                    return Result::Err(Error::InvalidAccountMerkleProof);
                }
            },
        }
        // The penalty: the aggregator's native balance moves to zero
        // and exactly eight tenths of it reach the challenger.  The
        // split below computes the floor without widening or
        // overflowing: b*8/10 == (b/10)*8 + (b%10)*8/10.
        let native = native_token_id();
        let ag_balance = self.action.ag_kv.get(&native);
        let tenth = ag_balance / crate::CHALLENGE_REWARD_DENOMINATOR;
        let rest = ag_balance % crate::CHALLENGE_REWARD_DENOMINATOR;
        proof {
            vstd::arithmetic::div_mod::lemma_div_is_ordered(
                ag_balance as int,
                u64::MAX as int,
                crate::CHALLENGE_REWARD_DENOMINATOR as int,
            );
        }
        let reward = tenth * crate::CHALLENGE_REWARD_NUMERATOR + rest
            * crate::CHALLENGE_REWARD_NUMERATOR / crate::CHALLENGE_REWARD_DENOMINATOR;
        proof {
            vstd::arithmetic::div_mod::lemma_fundamental_div_mod(
                ag_balance as int,
                crate::CHALLENGE_REWARD_DENOMINATOR as int,
            );
            vstd::arithmetic::div_mod::lemma_hoist_over_denominator(
                rest as int * crate::CHALLENGE_REWARD_NUMERATOR,
                tenth as int * crate::CHALLENGE_REWARD_NUMERATOR,
                crate::CHALLENGE_REWARD_DENOMINATOR as nat,
            );
            assert(rest as int * crate::CHALLENGE_REWARD_NUMERATOR + (tenth as int
                * crate::CHALLENGE_REWARD_NUMERATOR) * crate::CHALLENGE_REWARD_DENOMINATOR
                == ag_balance as int * crate::CHALLENGE_REWARD_NUMERATOR) by (nonlinear_arith)
                requires
                    ag_balance as int == crate::CHALLENGE_REWARD_DENOMINATOR as int * (
                    tenth as int) + rest as int;
            assert(reward == spec_reward(ag_balance));
        }
        let chal_balance = self.action.challenger_kv.get(&native);
        let new_chal_balance: u64 = if chal_balance > u64::MAX - reward {
            u64::MAX
        } else {
            chal_balance + reward
        };
        proof {
            assert(reward == spec_reward(spec_kv_get(self.action.ag_kv.entries@, native_token())));
        }
        let mut ag_kv2 = crate::executor::copy_kv(&self.action.ag_kv);
        ag_kv2.insert(native, 0);
        let mut chal_kv2 = crate::executor::copy_kv(&self.action.challenger_kv);
        chal_kv2.insert(native, new_chal_balance);
        let mut leaves2 = crate::smt::account_leaves(ag.index, Option::Some(ag), &ag_kv2);
        let chal_leaves2 = crate::smt::account_leaves(chal.index, Option::Some(chal), &chal_kv2);
        let ghost ag_leaves2_view = crate::smt::leaves_view(leaves2@);
        let m2 = chal_leaves2.len();
        let mut k: usize = 0;
        while k < m2
            invariant
                k <= m2,
                m2 == chal_leaves2@.len(),
                crate::smt::leaves_view(leaves2@) =~= ag_leaves2_view + crate::smt::leaves_view(
                    chal_leaves2@.take(k as int),
                ),
            decreases m2 - k,
        {
            let ghost prev2 = leaves2@;
            leaves2.push(chal_leaves2[k]);
            proof {
                assert(chal_leaves2@.take(k + 1) =~= chal_leaves2@.take(k as int).push(
                    chal_leaves2@[k as int],
                ));
                assert(crate::smt::leaves_view(chal_leaves2@.take(k + 1))
                    =~= crate::smt::leaves_view(chal_leaves2@.take(k as int)).push(
                    (chal_leaves2@[k as int].0@, chal_leaves2@[k as int].1@),
                ));
                assert(crate::smt::leaves_view(leaves2@) =~= crate::smt::leaves_view(prev2).push(
                    (chal_leaves2@[k as int].0@, chal_leaves2@[k as int].1@),
                ));
                assert(crate::smt::leaves_view(leaves2@) =~= ag_leaves2_view
                    + crate::smt::leaves_view(chal_leaves2@.take(k + 1)));
            }
            k = k + 1;
        }
        proof {
            assert(chal_leaves2@.take(m2 as int) =~= chal_leaves2@);
            assert(crate::smt::leaves_view(leaves2@) =~= spec_reverted_leaves(
                self.action.ag_account@,
                self.action.ag_kv.entries@,
                self.action.challenger_account@,
                self.action.challenger_kv.entries@,
            ));
        }
        if leaves2.len() > crate::smt::MAX_PROOF_LEAVES {
            return Result::Err(Error::InvalidAccountMerkleProof);
        }
        let reverted_root = match crate::smt::compute_root_with_proof(
            &leaves2,
            &self.action.accounts_proof.leaves_bitmap,
            &self.action.accounts_proof.merkle_path,
        ) {
            Option::None => {
                return Result::Err(Error::InvalidAccountMerkleProof);
            },
            Option::Some(root) => root,
        };
        if !array_eq(&reverted_root, &self.new_state.account_root) {
            return Result::Err(Error::InvalidNewAccountRoot);
        }
        let new_block = AgBlock::new_reverted_block(
            block,
            reverted_root,
            self.action.challenger_index,
        );
        let rb_bytes = crate::codec::serialize_block(&new_block);
        proof {
            assert(new_block.tx_root@ =~= zero_bytes(32));
            assert(new_block.ag_sig@ =~= zero_bytes(65));
            assert(rb_bytes@ =~= reverted_block_bytes(
                self.action.block,
                reverted_root@,
                self.action.challenger_index,
            ));
        }
        let rb_hash = crate::hash::blake2b_256(rb_bytes.as_slice());
        let mut new_leaf: Vec<(u64, [u8; 32])> = Vec::new();
        new_leaf.push((block.number, rb_hash));
        proof {
            assert(crate::mmr::leaves_exec_view(new_leaf@) =~= seq![
                (
                    block.number as nat,
                    crate::hash::blake2b(
                        reverted_block_bytes(
                            self.action.block,
                            reverted_root@,
                            self.action.challenger_index,
                        ),
                    ),
                ),
            ]);
        }
        match crate::mmr::compute_block_root(&new_leaf, block.number + 1, &self.action.block_proof) {
            Option::None => Result::Err(Error::InvalidBlockMerkleProof),
            Option::Some(new_block_root) => {
                if !array_eq(&new_block_root, &self.new_state.block_root)
                    || self.new_state.account_count != self.old_state.account_count
                    || self.new_state.block_count != self.old_state.block_count {
                    Result::Err(Error::InvalidGlobalState)
                } else {
                    Result::Ok(())
                }
            },
        }
    }
}

/// A state-transition action together with its witness data.
pub enum Action {
    Register(RegisterAction),
    Deposit(DepositAction),
    SubmitBlock(SubmitBlockAction),
    RevertBlock(RevertBlockAction, ChallengeCellInfo),
}

/// The verdict of a whole update: dispatch on the action kind and run
/// that verifier.
pub open spec fn spec_verify_action(
    old_state: GlobalState,
    new_state: GlobalState,
    action: Action,
    capacities: CapacityChange,
) -> Result<(), Error> {
    match action {
        Action::Register(a) => spec_verify_register(
            old_state,
            new_state,
            a.account@,
            bitmap_view(a.proof.leaves_bitmap@),
            a.proof.merkle_path@,
            capacities,
        ),
        Action::Deposit(a) => spec_verify_deposit(
            old_state,
            new_state,
            a.account@,
            a.token_kv.entries@,
            bitmap_view(a.proof.leaves_bitmap@),
            a.proof.merkle_path@,
            capacities,
        ),
        Action::SubmitBlock(a) => spec_verify_submit_block(
            old_state,
            new_state,
            a.block,
            crate::challenge::txs_views(a.txs@),
            a.ag_account@,
            a.ag_kv.entries@,
            bitmap_view(a.account_proof.leaves_bitmap@),
            a.account_proof.merkle_path@,
            a.last_block_hash@,
            crate::mmr::proof_view(a.block_proof@),
            capacities,
        ),
        Action::RevertBlock(a, cell) => spec_verify_revert_block(
            old_state,
            new_state,
            cell,
            a.block,
            a.challenger_index,
            a.ag_account@,
            a.challenger_account@,
            a.ag_kv.entries@,
            a.challenger_kv.entries@,
            bitmap_view(a.accounts_proof.leaves_bitmap@),
            a.accounts_proof.merkle_path@,
            crate::mmr::proof_view(a.block_proof@),
        ),
    }
}

/// Whether an action's witness records are well formed.
pub open spec fn action_wf(action: Action) -> bool {
    match action {
        Action::Register(a) => a.account@.wf(),
        Action::Deposit(a) => a.account@.wf() && a.token_kv.wf(),
        Action::SubmitBlock(a) => a.ag_account@.wf(),
        Action::RevertBlock(a, _) => a.ag_account@.wf() && a.challenger_account@.wf()
            && a.ag_kv.wf() && a.challenger_kv.wf(),
    }
}

/// Verify one state-transition step of the rollup cell.
pub fn verify_action(
    old_state: GlobalState,
    new_state: GlobalState,
    action: Action,
    capacities: &CapacityChange,
) -> (r: Result<(), Error>)
    requires
        action_wf(action),
    ensures
        r == spec_verify_action(old_state, new_state, action, *capacities),
{
    match action {
        Action::Register(a) => RegisterVerifier::new(old_state, new_state, a).verify(capacities),
        Action::Deposit(a) => DepositVerifier::new(old_state, new_state, a).verify(capacities),
        Action::SubmitBlock(a) => SubmitBlockVerifier::new(old_state, new_state, a).verify(
            capacities,
        ),
        Action::RevertBlock(a, cell) => RevertBlockVerifier::new(old_state, new_state, a).verify(
            &cell,
        ),
    }
}

/// The single-rollup-cell rule: among the transaction's outputs,
/// exactly one cell may carry the rollup's type hash, and that cell
/// must keep the rollup's lock.  Each output is given as its
/// `(type_hash, lock_hash)` pair.
pub open spec fn spec_check_output(
    type_hash: Seq<u8>,
    lock_hash: Seq<u8>,
    outputs: Seq<(Seq<u8>, Seq<u8>)>,
) -> Result<(), Error> {
    if exists|i: int, j: int|
        0 <= i < j < outputs.len() && outputs[i].0 == type_hash && outputs[j].0 == type_hash {
        Result::Err(Error::InvalidOutputTypeHash)
    } else if !exists|i: int| 0 <= i < outputs.len() && (#[trigger] outputs[i]).0 == type_hash {
        Result::Err(Error::InvalidOutputTypeHash)
    } else if exists|i: int|
        0 <= i < outputs.len() && (#[trigger] outputs[i]).0 == type_hash && outputs[i].1
            != lock_hash {
        Result::Err(Error::InvalidOutputLockHash)
    } else {
        Result::Ok(())
    }
}

/// The view of a list of `(type_hash, lock_hash)` pairs.
pub open spec fn outputs_view(outputs: Seq<([u8; 32], [u8; 32])>) -> Seq<(Seq<u8>, Seq<u8>)> {
    outputs.map_values(|o: ([u8; 32], [u8; 32])| (o.0@, o.1@))
}

/// Check the single-rollup-cell rule over the outputs' hashes.
pub fn check_output(
    type_hash: &[u8; 32],
    lock_hash: &[u8; 32],
    outputs: &Vec<([u8; 32], [u8; 32])>,
) -> (r: Result<(), Error>)
    ensures
        r == spec_check_output(type_hash@, lock_hash@, outputs_view(outputs@)),
{
    let ghost ov = outputs_view(outputs@);
    let n = outputs.len();
    let mut found: Option<usize> = Option::None;
    let mut i: usize = 0;
    while i < n
        invariant
            i <= n,
            n == outputs@.len(),
            ov == outputs_view(outputs@),
            match found {
                Option::Some(k) => k < i && ov[k as int].0 == type_hash@ && forall|m: int|
                    0 <= m < i && m != k ==> (#[trigger] ov[m]).0 != type_hash@,
                Option::None => forall|m: int| 0 <= m < i ==> (#[trigger] ov[m]).0 != type_hash@,
            },
        decreases n - i,
    {
        proof {
            assert(ov[i as int] == (outputs@[i as int].0@, outputs@[i as int].1@));
        }
        if array_eq(&outputs[i].0, type_hash) {
            match found {
                Option::Some(k) => {
                    proof {
                        assert(ov[k as int].0 == type_hash@ && ov[i as int].0 == type_hash@);
                    }
                    return Result::Err(Error::InvalidOutputTypeHash);
                },
                Option::None => {
                    found = Option::Some(i);
                },
            }
        }
        i = i + 1;
    }
    match found {
        Option::None => Result::Err(Error::InvalidOutputTypeHash),
        Option::Some(k) => {
            proof {
                assert(ov[k as int] == (outputs@[k as int].0@, outputs@[k as int].1@));
                assert forall|a: int, b: int|
                    0 <= a < b < ov.len() implies !((#[trigger] ov[a]).0 == type_hash@ && (
                #[trigger] ov[b]).0 == type_hash@) by {}
            }
            if array_eq(&outputs[k].1, lock_hash) {
                proof {
                    assert forall|m: int|
                        0 <= m < ov.len() && (#[trigger] ov[m]).0 == type_hash@ implies ov[m].1
                        == lock_hash@ by {
                        assert(m == k as int);
                    }
                }
                Result::Ok(())
            } else {
                Result::Err(Error::InvalidOutputLockHash)
            }
        },
    }
}

} // verus!
