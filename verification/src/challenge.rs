//! The challenge-cell protocol: anchoring a challenge to a block, the
//! timed withdrawal of its bond, and the defender's refutation by
//! re-executing the challenged transfers.

use crate::executor::{
    build_tx_hashes, spec_run, spec_state_leaves, state_to_merkle_leaves, EntryView, Executor,
    State, StateEntry,
};
use crate::hash::blake2b;
use crate::smt::{bitmap_view, bounded_proof_root, ProofNode, MAX_PROOF_LEAVES};
use crate::types::{AgBlock, Tx, TxView};
use crate::WITHDRAW_WAIT_EPOCHS;
use vstd::prelude::*;

verus! {

/// Why a challenge-cell transition was rejected.
#[derive(Debug)]
pub enum ChallengeError {
    InvalidEncoding,
    NoUnlockCell,
    InvalidMerkleProof,
    InvalidSince,
}

/// Is the top bit set: a relative time lock.
pub open spec fn spec_since_is_relative(v: u64) -> bool {
    v >> 63 == 1
}

/// The lock's metric: 0 counts blocks, 1 epochs, 2 timestamps.
pub open spec fn spec_since_metric(v: u64) -> u64 {
    (v >> 61) & 3
}

/// The lock's 56-bit value field.
pub open spec fn spec_since_value(v: u64) -> u64 {
    v & 0x00ff_ffff_ffff_ffff
}

/// The integer epoch number inside an epoch-metric value.
pub open spec fn spec_since_epoch_number(v: u64) -> u64 {
    v & 0xff_ffff
}

/// Whether the since field expresses a relative block-count lock of at
/// least `blocks`.
pub open spec fn spec_since_waits_blocks(v: u64, blocks: u64) -> bool {
    &&& spec_since_is_relative(v)
    &&& spec_since_metric(v) == 0
    &&& spec_since_value(v) >= blocks
}

/// Whether the since field expresses a relative epoch lock of at least
/// `epochs`.
pub open spec fn spec_since_waits_epochs(v: u64, epochs: u64) -> bool {
    &&& spec_since_is_relative(v)
    &&& spec_since_metric(v) == 1
    &&& spec_since_epoch_number(spec_since_value(v)) >= epochs
}

/// Does the since field express a relative block-count lock of at
/// least `blocks`?
pub fn since_waits_blocks(v: u64, blocks: u64) -> (r: bool)
    ensures
        r == spec_since_waits_blocks(v, blocks),
{
    let relative = v >> 63 == 1;
    let metric = (v >> 61) & 3;
    let value = v & 0x00ff_ffff_ffff_ffff;
    relative && metric == 0 && value >= blocks
}

/// Does the since field express a relative epoch lock of at least
/// `epochs`?
pub fn since_waits_epochs(v: u64, epochs: u64) -> (r: bool)
    ensures
        r == spec_since_waits_epochs(v, epochs),
{
    let relative = v >> 63 == 1;
    let metric = (v >> 61) & 3;
    let value = v & 0x00ff_ffff_ffff_ffff;
    relative && metric == 1 && (value & 0xff_ffff) >= epochs
}

/// The verdict of a bond withdrawal: the input must sit behind a
/// relative epoch lock of the waiting period, and some input must
/// carry the withdrawal lock.
pub open spec fn spec_verify_withdraw_challenge(
    since: u64,
    withdraw_lock_hash: Seq<u8>,
    input_lock_hashes: Seq<Seq<u8>>,
) -> Result<(), ChallengeError> {
    if !spec_since_waits_epochs(since, WITHDRAW_WAIT_EPOCHS) {
        Result::Err(ChallengeError::InvalidSince)
    } else if exists|i: int|
        0 <= i < input_lock_hashes.len() && input_lock_hashes[i] == withdraw_lock_hash {
        Result::Ok(())
    } else {
        Result::Err(ChallengeError::NoUnlockCell)
    }
}

/// The view of a list of lock hashes.
pub open spec fn hashes_view(hs: Seq<[u8; 32]>) -> Seq<Seq<u8>> {
    hs.map_values(|h: [u8; 32]| h@)
}

/// Check a bond withdrawal.
pub fn verify_withdraw_challenge(
    since: u64,
    withdraw_lock_hash: &[u8; 32],
    input_lock_hashes: &Vec<[u8; 32]>,
) -> (r: Result<(), ChallengeError>)
    ensures
        r == spec_verify_withdraw_challenge(
            since,
            withdraw_lock_hash@,
            hashes_view(input_lock_hashes@),
        ),
{
    if !since_waits_epochs(since, WITHDRAW_WAIT_EPOCHS) {
        return Result::Err(ChallengeError::InvalidSince);
    }
    let n = input_lock_hashes.len();
    let mut i: usize = 0;
    while i < n
        invariant
            i <= n,
            n == input_lock_hashes@.len(),
            spec_since_waits_epochs(since, WITHDRAW_WAIT_EPOCHS),
            forall|k: int|
                0 <= k < i ==> hashes_view(input_lock_hashes@)[k] != withdraw_lock_hash@,
        decreases n - i,
    {
        if crate::types::array_eq(&input_lock_hashes[i], withdraw_lock_hash) {
            proof {
                assert(hashes_view(input_lock_hashes@)[i as int] == withdraw_lock_hash@);
            }
            return Result::Ok(());
        }
        i = i + 1;
    }
    Result::Err(ChallengeError::NoUnlockCell)
}

/// The views of a transfer list.
pub open spec fn txs_views(ts: Seq<Tx>) -> Seq<TxView> {
    ts.map_values(|t: Tx| t@)
}

/// The BLAKE2b hashes of a transfer list.
pub open spec fn tx_hashes_of(ts: Seq<TxView>) -> Seq<Seq<u8>> {
    ts.map_values(|t: TxView| blake2b(crate::codec::tx_bytes(t)))
}

/// The verdict of anchoring a fresh challenge: the carried transfers
/// must hash to the challenged block's transaction root under the
/// given proof.
pub open spec fn spec_verify_challenge_context(
    block: AgBlock,
    txs: Seq<TxView>,
    txs_proof: Seq<Seq<u8>>,
) -> Result<(), ChallengeError> {
    let leaves = Seq::new(txs.len(), |i: int| (i as nat, tx_hashes_of(txs)[i]));
    match crate::mmr::spec_compute_root_at_indices(leaves, block.txs_count as nat, txs_proof) {
        Option::Some(root) => {
            if root == block.tx_root@ {
                Result::Ok(())
            } else {
                Result::Err(ChallengeError::InvalidMerkleProof)
            }
        },
        Option::None => Result::Err(ChallengeError::InvalidMerkleProof),
    }
}

/// Check that a fresh challenge's transfers anchor to the block it
/// accuses.
pub fn verify_challenge_context(block: &AgBlock, txs: &Vec<Tx>, txs_proof: &Vec<[u8; 32]>) -> (r:
    Result<(), ChallengeError>)
    ensures
        r == spec_verify_challenge_context(
            *block,
            txs_views(txs@),
            crate::mmr::proof_view(txs_proof@),
        ),
{
    let with_hashes = build_tx_hashes(txs);
    let n = with_hashes.len();
    let mut leaves: Vec<(u64, [u8; 32])> = Vec::new();
    let mut i: usize = 0;
    while i < n
        invariant
            i <= n,
            n == with_hashes@.len(),
            n == txs@.len(),
            forall|k: int|
                0 <= k < txs@.len() ==> (#[trigger] with_hashes@[k]).raw@ == txs@[k]@
                    && with_hashes@[k].tx_hash@ == blake2b(crate::codec::tx_bytes(txs@[k]@)),
            leaves@.len() == i,
            forall|k: int|
                0 <= k < i ==> #[trigger] leaves@[k] == (k as u64, with_hashes@[k].tx_hash),
        decreases n - i,
    {
        leaves.push((i as u64, with_hashes[i].tx_hash));
        i = i + 1;
    }
    proof {
        assert(crate::mmr::leaves_exec_view(leaves@) =~~= Seq::new(
            txs_views(txs@).len(),
            |k: int| (k as nat, tx_hashes_of(txs_views(txs@))[k]),
        ));
    }
    match crate::mmr::compute_tx_root(&leaves, block.txs_count, txs_proof) {
        Option::None => Result::Err(ChallengeError::InvalidMerkleProof),
        Option::Some(root) => {
            if crate::types::array_eq(&root, &block.tx_root) {
                Result::Ok(())
            } else {
                Result::Err(ChallengeError::InvalidMerkleProof)
            }
        },
    }
}

/// Do two slots claim one account index?
pub open spec fn has_duplicate_index(s: Seq<EntryView>) -> bool {
    exists|i: int, j: int|
        0 <= i < j < s.len() && (#[trigger] s[i]).account.index == (#[trigger] s[j]).account.index
}

/// Execute the transfers in order; the first failure ends the run.
pub open spec fn spec_run_all(
    s: Seq<EntryView>,
    txs: Seq<TxView>,
    ag_index: u64,
) -> Result<Seq<EntryView>, ()>
    decreases txs.len(),
{
    if txs.len() == 0 {
        Result::Ok(s)
    } else {
        match spec_run(s, txs[0], ag_index) {
            Result::Ok(s2) => spec_run_all(s2, txs.drop_first(), ag_index),
            Result::Err(_) => Result::Err(()),
        }
    }
}

/// The verdict of a refutation.  The touched accounts must prove into
/// the challenged block's previous state root.  Re-executing every
/// carried transfer must either fail — the block was indeed built
/// without that transfer, so the challenge is frivolous and the
/// refutation is accepted — or end in exactly the state root the block
/// committed to.  A run that ends elsewhere leaves the challenge
/// standing.
pub open spec fn spec_verify_invalid_challenge(
    block: AgBlock,
    txs: Seq<TxView>,
    touched: Seq<EntryView>,
    bitmap: Seq<Seq<u8>>,
    path: Seq<ProofNode>,
) -> Result<(), ChallengeError> {
    if has_duplicate_index(touched) {
        Result::Err(ChallengeError::InvalidEncoding)
    } else if bounded_proof_root(spec_state_leaves(touched), bitmap, path) != Option::Some(
        block.prev_account_root@,
    ) {
        Result::Err(ChallengeError::InvalidMerkleProof)
    } else {
        match spec_run_all(touched, txs, block.ag_index) {
            Result::Err(()) => Result::Ok(()),
            Result::Ok(final_state) => {
                if bounded_proof_root(spec_state_leaves(final_state), bitmap, path)
                    == Option::Some(block.account_root@) {
                    Result::Ok(())
                } else {
                    Result::Err(ChallengeError::InvalidMerkleProof)
                }
            },
        }
    }
}

/// Refute a challenge by re-executing its transfers over the touched
/// accounts.
pub fn verify_invalid_challenge(
    block: &AgBlock,
    txs: &Vec<Tx>,
    touched: Vec<StateEntry>,
    leaves_bitmap: &Vec<[u8; 32]>,
    merkle_path: &Vec<ProofNode>,
) -> (r: Result<(), ChallengeError>)
    requires
        forall|i: int| 0 <= i < touched@.len() ==> (#[trigger] touched@[i])@.account.wf(),
        forall|i: int| 0 <= i < touched@.len() ==> (#[trigger] touched@[i]).kv.wf(),
    ensures
        r == spec_verify_invalid_challenge(
            *block,
            txs_views(txs@),
            touched@.map_values(|e: StateEntry| e@),
            bitmap_view(leaves_bitmap@),
            merkle_path@,
        ),
{
    let ghost touched_view = touched@.map_values(|e: StateEntry| e@);
    let ghost touched_seq = touched@;
    let mut state = match State::new(touched) {
        Option::Some(st) => st,
        Option::None => {
            proof {
                let (a, b) = choose|a: int, b: int|
                    0 <= a < b < touched_seq.len() && (#[trigger] touched_seq[a])@.account.index
                        == (#[trigger] touched_seq[b])@.account.index;
                assert(touched_view[a] == touched_seq[a]@);
                assert(touched_view[b] == touched_seq[b]@);
                assert(has_duplicate_index(touched_view));
            }
            return Result::Err(ChallengeError::InvalidEncoding);
        },
    };
    proof {
        assert(state@ =~= touched_view);
        assert(!has_duplicate_index(touched_view)) by {
            if has_duplicate_index(touched_view) {
                let (a, b) = choose|a: int, b: int|
                    0 <= a < b < touched_view.len() && (#[trigger] touched_view[a]).account.index
                        == (#[trigger] touched_view[b]).account.index;
                assert(state@[a].account.index == state@[b].account.index);
            }
        }
    }
    let leaves = state_to_merkle_leaves(&state);
    if leaves.len() > MAX_PROOF_LEAVES {
        return Result::Err(ChallengeError::InvalidMerkleProof);
    }
    match crate::smt::compute_root_with_proof(&leaves, leaves_bitmap, merkle_path) {
        Option::None => {
            return Result::Err(ChallengeError::InvalidMerkleProof);
        },
        Option::Some(root) => {
            if !crate::types::array_eq(&root, &block.prev_account_root) {
                return Result::Err(ChallengeError::InvalidMerkleProof);
            }
        },
    }
    let with_hashes = build_tx_hashes(txs);
    let executor = Executor::new();
    let n = with_hashes.len();
    let mut i: usize = 0;
    proof {
        assert(txs_views(txs@).skip(0) =~= txs_views(txs@));
    }
    while i < n
        invariant
            i <= n,
            n == with_hashes@.len(),
            n == txs@.len(),
            state.wf(),
            touched_view == touched@.map_values(|e: StateEntry| e@),
            !has_duplicate_index(touched_view),
            bounded_proof_root(
                spec_state_leaves(touched_view),
                bitmap_view(leaves_bitmap@),
                merkle_path@,
            ) == Option::Some(block.prev_account_root@),
            forall|k: int|
                0 <= k < txs@.len() ==> (#[trigger] with_hashes@[k]).raw@ == txs@[k]@
                    && with_hashes@[k].tx_hash@ == blake2b(crate::codec::tx_bytes(txs@[k]@)),
            spec_run_all(touched_view, txs_views(txs@), block.ag_index) == spec_run_all(
                state@,
                txs_views(txs@).skip(i as int),
                block.ag_index,
            ),
        decreases n - i,
    {
        let ghost pre = state@;
        let ghost rest = txs_views(txs@).skip(i as int);
        proof {
            assert(rest[0] == txs@[i as int]@);
            assert(rest.drop_first() =~= txs_views(txs@).skip(i + 1));
        }
        match executor.run(&mut state, &with_hashes[i], block.ag_index) {
            Result::Ok(()) => {},
            Result::Err(_) => {
                proof {
                    assert(with_hashes@[i as int].raw@ == txs@[i as int]@);
                    assert(with_hashes@[i as int].tx_hash@ == blake2b(
                        crate::codec::tx_bytes(txs@[i as int]@),
                    ));
                    assert(spec_run_all(pre, rest, block.ag_index) == Result::<
                        Seq<EntryView>,
                        (),
                    >::Err(()));
                    assert(spec_run_all(touched_view, txs_views(txs@), block.ag_index)
                        == Result::<Seq<EntryView>, ()>::Err(()));
                    assert(spec_verify_invalid_challenge(
                        *block,
                        txs_views(txs@),
                        touched_view,
                        bitmap_view(leaves_bitmap@),
                        merkle_path@,
                    ) == Result::<(), ChallengeError>::Ok(()));
                }
                return Result::Ok(());
            },
        }
        i = i + 1;
    }
    proof {
        assert(txs_views(txs@).skip(n as int) =~= Seq::<TxView>::empty());
        assert(spec_run_all(touched_view, txs_views(txs@), block.ag_index) == Result::<
            Seq<EntryView>,
            (),
        >::Ok(state@));
    }
    let final_leaves = state_to_merkle_leaves(&state);
    if final_leaves.len() > MAX_PROOF_LEAVES {
        return Result::Err(ChallengeError::InvalidMerkleProof);
    }
    match crate::smt::compute_root_with_proof(&final_leaves, leaves_bitmap, merkle_path) {
        Option::None => Result::Err(ChallengeError::InvalidMerkleProof),
        Option::Some(root) => {
            if crate::types::array_eq(&root, &block.account_root) {
                Result::Ok(())
            } else {
                Result::Err(ChallengeError::InvalidMerkleProof)
            }
        },
    }
}

} // verus!
