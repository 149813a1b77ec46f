//! Protocol-wide laws, proved once over the executor's and the
//! verifiers' specifications.

use crate::actions::{native_array, native_token, spec_reward};
use crate::challenge::{has_duplicate_index, spec_run_all, spec_verify_invalid_challenge};
use crate::executor::{
    lemma_find_ok, lemma_spec_find_nonneg, spec_find, spec_run, spec_set_balance,
    spec_state_leaves, spec_transfer, EntryView,
};
use crate::kv::{lemma_kv_insert_get, spec_kv_get, spec_kv_insert};
use crate::smt::{bounded_proof_root, ProofNode};
use crate::types::{AgBlock, TxView};
use vstd::prelude::*;

verus! {

/// The total native balance a state holds.
pub open spec fn native_sum(s: Seq<EntryView>) -> int
    decreases s.len(),
{
    if s.len() == 0 {
        0
    } else {
        spec_kv_get(s[0].kv, native_token()) + native_sum(s.drop_first())
    }
}

/// Replacing one slot moves the total by the difference of that slot's
/// native balance.
pub proof fn lemma_sum_update(s: Seq<EntryView>, i: int, e: EntryView)
    requires
        0 <= i < s.len(),
    ensures
        native_sum(s.update(i, e)) == native_sum(s) - spec_kv_get(s[i].kv, native_token())
            + spec_kv_get(e.kv, native_token()),
    decreases s.len(),
{
    let t = s.update(i, e);
    if i == 0 {
        assert(t[0] == e);
        assert(t.drop_first() =~= s.drop_first());
    } else {
        assert(t[0] == s[0]);
        assert(t.drop_first() =~= s.drop_first().update(i - 1, e));
        lemma_sum_update(s.drop_first(), i - 1, e);
    }
}

/// A transfer never changes any account record, only balances.
pub proof fn lemma_transfer_preserves_accounts(
    s: Seq<EntryView>,
    from: u64,
    to: u64,
    token: [u8; 32],
    amount: u64,
)
    ensures
        match spec_transfer(s, from, to, token, amount) {
            Result::Ok(s2) => s2.len() == s.len() && forall|i: int|
                0 <= i < s.len() ==> (#[trigger] s2[i]).account == s[i].account,
            Result::Err(_) => true,
        },
{
    match spec_transfer(s, from, to, token, amount) {
        Result::Ok(s2) => {
            lemma_spec_find_nonneg(s, from);
            lemma_spec_find_nonneg(s, to);
        },
        Result::Err(_) => {},
    }
}

/// Conservation across one transfer: when sender and recipient are
/// different accounts, the total native balance is unchanged — a
/// native payment moves value, any other token leaves it alone.
pub proof fn lemma_transfer_native_sum(
    s: Seq<EntryView>,
    from: u64,
    to: u64,
    token: [u8; 32],
    amount: u64,
)
    requires
        from != to,
    ensures
        match spec_transfer(s, from, to, token, amount) {
            Result::Ok(s2) => native_sum(s2) == native_sum(s),
            Result::Err(_) => true,
        },
{
    match spec_transfer(s, from, to, token, amount) {
        Result::Ok(s2) => {
            lemma_spec_find_nonneg(s, from);
            lemma_spec_find_nonneg(s, to);
            lemma_find_ok(s, from);
            lemma_find_ok(s, to);
            let fi = spec_find(s, from)->0;
            let ti = spec_find(s, to)->0;
            assert(s[fi].account.index == from);
            assert(s[ti].account.index == to);
            assert(fi != ti);
            let sb = spec_kv_get(s[fi].kv, token@);
            let rb = spec_kv_get(s[ti].kv, token@);
            let mid = spec_set_balance(s, fi, token, (sb - amount) as u64);
            lemma_kv_insert_get(s[fi].kv, token, (sb - amount) as u64);
            lemma_kv_insert_get(s[ti].kv, token, (rb + amount) as u64);
            lemma_sum_update(
                s,
                fi,
                EntryView {
                    account: s[fi].account,
                    kv: spec_kv_insert(s[fi].kv, token, (sb - amount) as u64),
                },
            );
            assert(mid[ti].kv == s[ti].kv);
            lemma_sum_update(
                mid,
                ti,
                EntryView {
                    account: mid[ti].account,
                    kv: spec_kv_insert(mid[ti].kv, token, (rb + amount) as u64),
                },
            );
            if token@ == native_token() {
                assert(native_sum(mid) == native_sum(s) - amount);
                assert(native_sum(s2) == native_sum(mid) + amount);
            } else {
                assert(spec_kv_get(spec_kv_insert(s[fi].kv, token, (sb - amount) as u64),
                    native_token()) == spec_kv_get(s[fi].kv, native_token()));
                assert(spec_kv_get(spec_kv_insert(s[ti].kv, token, (rb + amount) as u64),
                    native_token()) == spec_kv_get(s[ti].kv, native_token()));
            }
        },
        Result::Err(_) => {},
    }
}

/// Executor determinism: the outcome is a function of the state, the
/// transfer, its hash and the aggregator seat, and of nothing else.
pub proof fn lemma_executor_deterministic(
    s1: Seq<EntryView>,
    s2: Seq<EntryView>,
    t: TxView,
    ag_index: u64,
)
    requires
        s1 == s2,
    ensures
        spec_run(s1, t, ag_index) == spec_run(s2, t, ag_index),
{
}

/// Nonce monotonicity: a successful execution bumps the sender's nonce
/// by exactly one and touches no other nonce.
pub proof fn lemma_nonce_monotonic(s: Seq<EntryView>, t: TxView, ag_index: u64)
    ensures
        match spec_run(s, t, ag_index) {
            Result::Ok(s2) => {
                &&& spec_find(s, t.sender_index) is Some
                &&& s2.len() == s.len()
                &&& s2[spec_find(s, t.sender_index)->0].account.nonce == s[spec_find(
                    s,
                    t.sender_index,
                )->0].account.nonce + 1
                &&& forall|i: int|
                    0 <= i < s.len() && i != spec_find(s, t.sender_index)->0 ==> (
                    #[trigger] s2[i]).account.nonce == s[i].account.nonce
            },
            Result::Err(_) => true,
        },
{
    match spec_run(s, t, ag_index) {
        Result::Ok(s2) => {
            lemma_spec_find_nonneg(s, t.sender_index);
            let si = spec_find(s, t.sender_index)->0;
            match spec_transfer(s, t.sender_index, ag_index, t.fee_token, t.fee_amount) {
                Result::Ok(m1) => {
                    lemma_transfer_preserves_accounts(
                        s,
                        t.sender_index,
                        ag_index,
                        t.fee_token,
                        t.fee_amount,
                    );
                    match spec_transfer(m1, t.sender_index, t.to_index, t.token, t.amount) {
                        Result::Ok(m2) => {
                            lemma_transfer_preserves_accounts(
                                m1,
                                t.sender_index,
                                t.to_index,
                                t.token,
                                t.amount,
                            );
                            assert(s2 == m2.update(
                                si,
                                EntryView {
                                    account: crate::types::AccountView {
                                        nonce: (s[si].account.nonce + 1) as u32,
                                        ..m2[si].account
                                    },
                                    kv: m2[si].kv,
                                },
                            ));
                        },
                        Result::Err(_) => {
                            assert(false);
                        },
                    }
                },
                Result::Err(_) => {
                    assert(false);
                },
            }
        },
        Result::Err(_) => {},
    }
}

/// Conservation of the native token: when the sender, the recipient
/// and the aggregator's fee seat pay three pairwise different routes —
/// the sender is neither the recipient nor the aggregator — a
/// successful execution leaves the total native balance unchanged.
pub proof fn lemma_native_conservation(s: Seq<EntryView>, t: TxView, ag_index: u64)
    requires
        t.sender_index != ag_index,
        t.sender_index != t.to_index,
    ensures
        match spec_run(s, t, ag_index) {
            Result::Ok(s2) => native_sum(s2) == native_sum(s),
            Result::Err(_) => true,
        },
{
    match spec_run(s, t, ag_index) {
        Result::Ok(s2) => {
            lemma_spec_find_nonneg(s, t.sender_index);
            let si = spec_find(s, t.sender_index)->0;
            match spec_transfer(s, t.sender_index, ag_index, t.fee_token, t.fee_amount) {
                Result::Ok(m1) => {
                    lemma_transfer_native_sum(
                        s,
                        t.sender_index,
                        ag_index,
                        t.fee_token,
                        t.fee_amount,
                    );
                    match spec_transfer(m1, t.sender_index, t.to_index, t.token, t.amount) {
                        Result::Ok(m2) => {
                            lemma_transfer_native_sum(
                                m1,
                                t.sender_index,
                                t.to_index,
                                t.token,
                                t.amount,
                            );
                            assert(s2 == m2.update(
                                si,
                                EntryView {
                                    account: crate::types::AccountView {
                                        nonce: (s[si].account.nonce + 1) as u32,
                                        ..m2[si].account
                                    },
                                    kv: m2[si].kv,
                                },
                            ));
                            lemma_transfer_preserves_accounts(
                                s,
                                t.sender_index,
                                ag_index,
                                t.fee_token,
                                t.fee_amount,
                            );
                            lemma_transfer_preserves_accounts(
                                m1,
                                t.sender_index,
                                t.to_index,
                                t.token,
                                t.amount,
                            );
                            lemma_sum_update(
                                m2,
                                si,
                                EntryView {
                                    account: crate::types::AccountView {
                                        nonce: (s[si].account.nonce + 1) as u32,
                                        ..m2[si].account
                                    },
                                    kv: m2[si].kv,
                                },
                            );
                        },
                        Result::Err(_) => {
                            assert(false);
                        },
                    }
                },
                Result::Err(_) => {
                    assert(false);
                },
            }
        },
        Result::Err(_) => {},
    }
}

/// Submit/revert symmetry: under a proof that binds the touched
/// accounts to the challenged block's previous state root, a
/// refutation is accepted exactly when re-execution either rejects
/// some transfer or reproduces the block's committed state root.  In
/// particular a block whose root the re-execution reproduces cannot be
/// treated as invalid.
pub proof fn lemma_refutation_symmetry(
    block: AgBlock,
    txs: Seq<TxView>,
    touched: Seq<EntryView>,
    bitmap: Seq<Seq<u8>>,
    path: Seq<ProofNode>,
)
    requires
        !has_duplicate_index(touched),
        bounded_proof_root(spec_state_leaves(touched), bitmap, path) == Option::Some(
            block.prev_account_root@,
        ),
    ensures
        spec_verify_invalid_challenge(block, txs, touched, bitmap, path) is Ok <==> match spec_run_all(
            touched,
            txs,
            block.ag_index,
        ) {
            Result::Err(()) => true,
            Result::Ok(final_state) => bounded_proof_root(
                spec_state_leaves(final_state),
                bitmap,
                path,
            ) == Option::Some(block.account_root@),
        },
{
}

/// Reward exactness: a revert zeroes the aggregator's native balance
/// and the penalty is exactly eight tenths of it, rounded down; when
/// the credit fits, the challenger gains exactly that.
pub proof fn lemma_reward_exact(ag_kv: Seq<([u8; 32], u64)>, chal_kv: Seq<([u8; 32], u64)>)
    requires
        spec_kv_get(chal_kv, native_token()) + spec_reward(spec_kv_get(ag_kv, native_token()))
            <= u64::MAX,
    ensures
        spec_kv_get(spec_kv_insert(ag_kv, native_array(), 0), native_token()) == 0,
        spec_reward(spec_kv_get(ag_kv, native_token())) == spec_kv_get(ag_kv, native_token())
            * crate::CHALLENGE_REWARD_NUMERATOR / (crate::CHALLENGE_REWARD_DENOMINATOR as int),
        spec_kv_get(
            spec_kv_insert(
                chal_kv,
                native_array(),
                (spec_kv_get(chal_kv, native_token()) + spec_reward(
                    spec_kv_get(ag_kv, native_token()),
                )) as u64,
            ),
            native_token(),
        ) == spec_kv_get(chal_kv, native_token()) + spec_reward(
            spec_kv_get(ag_kv, native_token()),
        ),
{
    let a = spec_kv_get(ag_kv, native_token());
    assert(a * crate::CHALLENGE_REWARD_NUMERATOR / (crate::CHALLENGE_REWARD_DENOMINATOR as int)
        <= u64::MAX as int * crate::CHALLENGE_REWARD_NUMERATOR / (
    crate::CHALLENGE_REWARD_DENOMINATOR as int)) by {
        vstd::arithmetic::mul::lemma_mul_inequality(
            a as int,
            u64::MAX as int,
            crate::CHALLENGE_REWARD_NUMERATOR as int,
        );
        vstd::arithmetic::div_mod::lemma_div_is_ordered(
            a as int * crate::CHALLENGE_REWARD_NUMERATOR,
            u64::MAX as int * crate::CHALLENGE_REWARD_NUMERATOR,
            crate::CHALLENGE_REWARD_DENOMINATOR as int,
        );
    }
    lemma_kv_insert_get(ag_kv, native_array(), 0);
    lemma_kv_insert_get(
        chal_kv,
        native_array(),
        (spec_kv_get(chal_kv, native_token()) + spec_reward(
            spec_kv_get(ag_kv, native_token()),
        )) as u64,
    );
}

/// Chain growth: an accepted SubmitBlock sits at the next dense block
/// number, and the new chain root is exactly the append-root the old
/// proof predicts for this block's hash — the same proof a later
/// revert will verify the block against.
pub proof fn lemma_submit_extends_chain(
    old_state: crate::types::GlobalState,
    new_state: crate::types::GlobalState,
    block: AgBlock,
    txs: Seq<TxView>,
    ag: crate::types::AccountView,
    ag_kv: Seq<([u8; 32], u64)>,
    bitmap: Seq<Seq<u8>>,
    path: Seq<ProofNode>,
    last_block_hash: Seq<u8>,
    block_proof: Seq<Seq<u8>>,
    capacities: crate::types::CapacityChange,
)
    requires
        crate::actions::spec_verify_submit_block(
            old_state,
            new_state,
            block,
            txs,
            ag,
            ag_kv,
            bitmap,
            path,
            last_block_hash,
            block_proof,
            capacities,
        ) is Ok,
    ensures
        block.number == old_state.block_count,
        new_state.block_count == old_state.block_count + 1,
        crate::mmr::spec_compute_new_block_root(
            last_block_hash,
            (block.number - 1) as nat,
            crate::actions::block_hash(block),
            block.number as nat,
            block.number as nat + 1,
            block_proof,
        ) == Option::Some(new_state.block_root@),
{
}

} // verus!
