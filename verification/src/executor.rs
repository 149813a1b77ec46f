//! The deterministic transfer executor.
//!
//! The same code runs off-chain to build a block and on-chain to
//! re-execute it during a fraud proof; both sides must reach the same
//! state bit for bit.  A transfer checks the sender's nonce, signature
//! and account kind, pays the fee to the aggregator, pays the amount to
//! the recipient and bumps the sender's nonce; any failure leaves the
//! state exactly as it was.

use crate::kv::{spec_kv_get, spec_kv_insert, KVMap};
use crate::sig::spec_verify_signature;
use crate::types::{Account, AccountView, Tx, TxView, TxWithHash};
use vstd::prelude::*;

verus! {

/// Why the executor rejected a transfer.
#[derive(Debug)]
pub enum ExecError {
    /// A contract-account sender; the built-in transfer contract only
    /// serves externally-owned accounts.
    ContractCall(u8),
    /// No account holds this index.
    MissingAccount(u64),
    /// The held balance, then the amount asked for.
    BalanceNotEnough(u64, u64),
    /// The expected nonce, then the transfer's nonce.
    InvalidNonce(u64, u32),
    /// A credit would pass the balance type's ceiling.
    BalanceOverflow,
    /// The witness does not recover to the sender's key.
    InvalidSignature,
}

/// One account slot: the record and its token balances.
pub struct StateEntry {
    pub account: Account,
    pub kv: KVMap,
}

/// The mathematical shape of an account slot.
pub struct EntryView {
    pub account: AccountView,
    pub kv: Seq<([u8; 32], u64)>,
}

impl View for StateEntry {
    type V = EntryView;

    open spec fn view(&self) -> EntryView {
        EntryView { account: self.account@, kv: self.kv.entries@ }
    }
}

/// The touched accounts a fraud proof executes over.
pub struct State {
    pub entries: Vec<StateEntry>,
}

impl View for State {
    type V = Seq<EntryView>;

    open spec fn view(&self) -> Seq<EntryView> {
        Seq::new(self.entries@.len(), |i: int| self.entries@[i]@)
    }
}

/// The first slot holding account `index`.
pub open spec fn spec_find(s: Seq<EntryView>, index: u64) -> Option<int>
    decreases s.len(),
{
    if s.len() == 0 {
        Option::None
    } else if s[0].account.index == index {
        Option::Some(0int)
    } else {
        match spec_find(s.drop_first(), index) {
            Option::Some(i) => Option::Some(i + 1),
            Option::None => Option::None,
        }
    }
}

/// A found slot is a valid position holding the index.
pub proof fn lemma_find_ok(s: Seq<EntryView>, index: u64)
    ensures
        match spec_find(s, index) {
            Option::Some(i) => 0 <= i < s.len() && s[i].account.index == index,
            Option::None => forall|i: int| 0 <= i < s.len() ==> s[i].account.index != index,
        },
    decreases s.len(),
{
    if s.len() > 0 && s[0].account.index != index {
        lemma_find_ok(s.drop_first(), index);
        assert forall|i: int| 1 <= i < s.len() implies s.drop_first()[i - 1] == s[i] by {}
    }
}

impl State {
    /// Every account and balance map is well formed and no index is
    /// held twice.
    pub open spec fn wf(self) -> bool {
        &&& forall|i: int, j: int|
            0 <= i < j < self@.len() ==> (#[trigger] self@[i]).account.index
                != (#[trigger] self@[j]).account.index
        &&& forall|i: int| 0 <= i < self@.len() ==> (#[trigger] self@[i]).account.wf()
        &&& forall|i: int|
            0 <= i < self.entries@.len() ==> (#[trigger] self.entries@[i]).kv.wf()
    }

    /// Gather touched accounts into a state.  Returns nothing when two
    /// records claim the same index.
    pub fn new(accounts: Vec<StateEntry>) -> (r: Option<State>)
        requires
            forall|i: int| 0 <= i < accounts@.len() ==> (#[trigger] accounts@[i])@.account.wf(),
            forall|i: int| 0 <= i < accounts@.len() ==> (#[trigger] accounts@[i]).kv.wf(),
        ensures
            match r {
                Option::Some(st) => {
                    &&& st.wf()
                    &&& st.entries@ == accounts@
                },
                Option::None => exists|i: int, j: int|
                    0 <= i < j < accounts@.len() && (#[trigger] accounts@[i])@.account.index
                        == (#[trigger] accounts@[j])@.account.index,
            },
    {
        let n = accounts.len();
        let mut i: usize = 0;
        while i < n
            invariant
                i <= n,
                n == accounts@.len(),
                forall|a: int, b: int|
                    0 <= a < b < i ==> (#[trigger] accounts@[a])@.account.index
                        != (#[trigger] accounts@[b])@.account.index,
            decreases n - i,
        {
            let mut j: usize = 0;
            while j < i
                invariant
                    j <= i < n,
                    n == accounts@.len(),
                    forall|b: int|
                        0 <= b < j ==> (#[trigger] accounts@[b])@.account.index
                            != accounts@[i as int]@.account.index,
                decreases i - j,
            {
                if accounts[j].account.index == accounts[i].account.index {
                    return Option::None;
                }
                j = j + 1;
            }
            i = i + 1;
        }
        let st = State { entries: accounts };
        proof {
            assert(forall|k: int| 0 <= k < st@.len() ==> st@[k] == (#[trigger] st.entries@[k])@);
        }
        Option::Some(st)
    }

    /// The position of account `index`, when the state holds it.
    pub fn find(&self, index: u64) -> (r: Option<usize>)
        ensures
            match r {
                Option::Some(i) => spec_find(self@, index) == Option::Some(i as int),
                Option::None => spec_find(self@, index) is None,
            },
    {
        let n = self.entries.len();
        let mut i: usize = 0;
        proof {
            assert(self@.skip(0) =~= self@);
        }
        while i < n
            invariant
                i <= n,
                n == self.entries@.len(),
                self@.len() == n,
                match spec_find(self@.skip(i as int), index) {
                    Option::Some(k) => spec_find(self@, index) == Option::Some(k + i),
                    Option::None => spec_find(self@, index) is None,
                },
            decreases n - i,
        {
            let ghost tail = self@.skip(i as int);
            proof {
                assert(tail[0] == self@[i as int]);
                assert(tail.drop_first() =~= self@.skip(i + 1));
            }
            if self.entries[i].account.index == index {
                proof {
                    assert(spec_find(tail, index) == Option::Some(0int));
                }
                return Option::Some(i);
            }
            proof {
                match spec_find(self@.skip(i + 1), index) {
                    Option::Some(k) => {
                        lemma_spec_find_nonneg(self@.skip(i + 1), index);
                        assert(spec_find(tail, index) == Option::Some(k + 1));
                    },
                    Option::None => {
                        assert(spec_find(tail, index) is None);
                    },
                }
            }
            i = i + 1;
        }
        proof {
            assert(self@.skip(n as int) =~= Seq::<EntryView>::empty());
        }
        Option::None
    }

    /// How many accounts the state holds.
    pub fn len(&self) -> (r: usize)
        ensures
            r == self@.len(),
    {
        self.entries.len()
    }
}

/// A found position is never negative.
pub proof fn lemma_spec_find_nonneg(s: Seq<EntryView>, index: u64)
    ensures
        match spec_find(s, index) {
            Option::Some(i) => 0 <= i < s.len(),
            Option::None => true,
        },
    decreases s.len(),
{
    if s.len() > 0 && s[0].account.index != index {
        lemma_spec_find_nonneg(s.drop_first(), index);
    }
}

/// The state after setting account `at`'s balance of `token`.
pub open spec fn spec_set_balance(
    s: Seq<EntryView>,
    at: int,
    token: [u8; 32],
    value: u64,
) -> Seq<EntryView> {
    s.update(at, EntryView { account: s[at].account, kv: spec_kv_insert(s[at].kv, token, value) })
}

/// Set the balance of the account slot at position `at`.
pub fn set_balance(state: &mut State, at: usize, token: [u8; 32], value: u64)
    requires
        at < old(state).entries@.len(),
        old(state).entries@[at as int].kv.wf(),
    ensures
        final(state)@ == spec_set_balance(old(state)@, at as int, token, value),
        final(state).entries@.len() == old(state).entries@.len(),
        forall|i: int|
            0 <= i < old(state).entries@.len() && i != at ==> final(state).entries@[i] == old(
                state,
            ).entries@[i],
        final(state).entries@[at as int].account == old(state).entries@[at as int].account,
        final(state).entries@[at as int].kv.wf(),
        final(state).entries@[at as int].kv.entries@ == spec_kv_insert(
            old(state).entries@[at as int].kv.entries@,
            token,
            value,
        ),
{
    let mut entry = state.entries.remove(at);
    entry.kv.insert(token, value);
    state.entries.insert(at, entry);
    proof {
        assert(state.entries@ =~= old(state).entries@.update(
            at as int,
            state.entries@[at as int],
        ));
        assert(state@ =~= spec_set_balance(old(state)@, at as int, token, value));
    }
}

/// Bump the nonce of the account slot at position `at`.
pub fn bump_nonce(state: &mut State, at: usize)
    requires
        at < old(state).entries@.len(),
        old(state).entries@[at as int].account.nonce < u32::MAX,
    ensures
        final(state).entries@.len() == old(state).entries@.len(),
        forall|i: int|
            0 <= i < old(state).entries@.len() && i != at ==> final(state).entries@[i] == old(
                state,
            ).entries@[i],
        final(state)@ == old(state)@.update(
            at as int,
            EntryView {
                account: AccountView {
                    nonce: (old(state)@[at as int].account.nonce + 1) as u32,
                    ..old(state)@[at as int].account
                },
                kv: old(state)@[at as int].kv,
            },
        ),
        final(state).entries@[at as int].kv == old(state).entries@[at as int].kv,
{
    let mut entry = state.entries.remove(at);
    entry.account.nonce = entry.account.nonce + 1;
    state.entries.insert(at, entry);
    proof {
        assert(state.entries@ =~= old(state).entries@.update(
            at as int,
            state.entries@[at as int],
        ));
        assert(state@ =~= old(state)@.update(
            at as int,
            EntryView {
                account: AccountView {
                    nonce: (old(state)@[at as int].account.nonce + 1) as u32,
                    ..old(state)@[at as int].account
                },
                kv: old(state)@[at as int].kv,
            },
        ));
    }
}

/// The outcome a transfer of `amount` of `token` from `from` to `to`
/// owes: balances move exactly when both slots exist, the sender holds
/// enough, and the credit fits.  Both balances are read before either
/// is written, so a self-payment ends at the credited reading.
pub open spec fn spec_transfer(
    s: Seq<EntryView>,
    from: u64,
    to: u64,
    token: [u8; 32],
    amount: u64,
) -> Result<Seq<EntryView>, ExecError> {
    match spec_find(s, from) {
        Option::None => Result::Err(ExecError::MissingAccount(from)),
        Option::Some(fi) => match spec_find(s, to) {
            Option::None => Result::Err(ExecError::MissingAccount(to)),
            Option::Some(ti) => {
                let sender_balance = spec_kv_get(s[fi].kv, token@);
                let receiver_balance = spec_kv_get(s[ti].kv, token@);
                if sender_balance < amount {
                    Result::Err(ExecError::BalanceNotEnough(sender_balance, amount))
                } else if receiver_balance + amount > u64::MAX {
                    Result::Err(ExecError::BalanceOverflow)
                } else {
                    Result::Ok(
                        spec_set_balance(
                            spec_set_balance(s, fi, token, (sender_balance - amount) as u64),
                            ti,
                            token,
                            (receiver_balance + amount) as u64,
                        ),
                    )
                }
            },
        },
    }
}

/// Move `amount` of `token` from `from` to `to`, exactly as
/// `spec_transfer` lays it out; on an error the state is untouched.
pub fn transfer(state: &mut State, from: u64, to: u64, token: &[u8; 32], amount: u64) -> (r:
    Result<(), ExecError>)
    requires
        old(state).wf(),
    ensures
        final(state).wf(),
        match r {
            Result::Ok(()) => spec_transfer(old(state)@, from, to, *token, amount) == Result::<
                Seq<EntryView>,
                ExecError,
            >::Ok(final(state)@),
            Result::Err(e) => spec_transfer(old(state)@, from, to, *token, amount) == Result::<
                Seq<EntryView>,
                ExecError,
            >::Err(e) && final(state)@ == old(state)@,
        },
{
    let fi = match state.find(from) {
        Option::Some(fi) => fi,
        Option::None => {
            return Result::Err(ExecError::MissingAccount(from));
        },
    };
    let ti = match state.find(to) {
        Option::Some(ti) => ti,
        Option::None => {
            return Result::Err(ExecError::MissingAccount(to));
        },
    };
    proof {
        lemma_spec_find_nonneg(state@, from);
        lemma_spec_find_nonneg(state@, to);
        assert(state@[fi as int].kv == state.entries@[fi as int].kv.entries@);
        assert(state@[ti as int].kv == state.entries@[ti as int].kv.entries@);
    }
    let sender_balance = state.entries[fi].kv.get(token);
    let receiver_balance = state.entries[ti].kv.get(token);
    if sender_balance < amount {
        return Result::Err(ExecError::BalanceNotEnough(sender_balance, amount));
    }
    if receiver_balance > u64::MAX - amount {
        return Result::Err(ExecError::BalanceOverflow);
    }
    set_balance(state, fi, *token, sender_balance - amount);
    proof {
        assert(state.entries@[ti as int].kv.wf());
    }
    set_balance(state, ti, *token, receiver_balance + amount);
    proof {
        assert forall|i: int, j: int|
            0 <= i < j < state@.len() implies (#[trigger] state@[i]).account.index
            != (#[trigger] state@[j]).account.index by {
            assert(state@[i].account == old(state)@[i].account);
            assert(state@[j].account == old(state)@[j].account);
        }
        assert forall|i: int| 0 <= i < state@.len() implies (#[trigger] state@[i]).account.wf() by {
            assert(state@[i].account == old(state)@[i].account);
        }
    }
    Result::Ok(())
}

/// Copy a balance map entry for entry.
pub fn copy_kv(kv: &KVMap) -> (r: KVMap)
    ensures
        r.entries@ == kv.entries@,
{
    let mut entries: Vec<([u8; 32], u64)> = Vec::new();
    let n = kv.entries.len();
    let mut i: usize = 0;
    while i < n
        invariant
            i <= n,
            n == kv.entries@.len(),
            entries@ == kv.entries@.take(i as int),
        decreases n - i,
    {
        entries.push(kv.entries[i]);
        proof {
            assert(entries@ =~= kv.entries@.take(i + 1));
        }
        i = i + 1;
    }
    proof {
        assert(entries@ =~= kv.entries@);
    }
    KVMap { entries }
}

/// Put a saved balance map back into the slot at `at`.
pub fn set_kv(state: &mut State, at: usize, kv: KVMap)
    requires
        at < old(state).entries@.len(),
    ensures
        final(state).entries@.len() == old(state).entries@.len(),
        forall|i: int|
            0 <= i < old(state).entries@.len() && i != at ==> final(state).entries@[i] == old(
                state,
            ).entries@[i],
        final(state).entries@[at as int].account == old(state).entries@[at as int].account,
        final(state).entries@[at as int].kv == kv,
        final(state)@ == old(state)@.update(
            at as int,
            EntryView { account: old(state)@[at as int].account, kv: kv.entries@ },
        ),
{
    let mut entry = state.entries.remove(at);
    entry.kv = kv;
    state.entries.insert(at, entry);
    proof {
        assert(state.entries@ =~= old(state).entries@.update(
            at as int,
            state.entries@[at as int],
        ));
        assert(state@ =~= old(state)@.update(
            at as int,
            EntryView { account: old(state)@[at as int].account, kv: state.entries@[at as int].kv.entries@ },
        ));
    }
}

/// Finding by index only looks at the account indices, so balance
/// updates never move a slot.
pub proof fn lemma_find_same_indices(a: Seq<EntryView>, b: Seq<EntryView>, index: u64)
    requires
        a.len() == b.len(),
        forall|i: int| 0 <= i < a.len() ==> a[i].account.index == b[i].account.index,
    ensures
        spec_find(a, index) == spec_find(b, index),
    decreases a.len(),
{
    if a.len() > 0 {
        assert(a[0].account.index == b[0].account.index);
        assert forall|i: int|
            0 <= i < a.drop_first().len() implies a.drop_first()[i].account.index
            == b.drop_first()[i].account.index by {
            assert(a.drop_first()[i] == a[i + 1]);
            assert(b.drop_first()[i] == b[i + 1]);
        }
        lemma_find_same_indices(a.drop_first(), b.drop_first(), index);
    }
}

/// The message a transfer's signature covers: the BLAKE2b digest of
/// its encoding with the witness emptied, since the witness is where
/// the signature itself lives.
pub open spec fn tx_sig_message(t: TxView) -> Seq<u8> {
    crate::hash::blake2b(
        crate::codec::tx_bytes(TxView { witness: Seq::empty(), ..t }),
    )
}

/// The state the executor owes for one transfer: reject a missing
/// sender, a nonce that is not exactly one past the account's, a
/// witness that does not recover to the sender's key, or a contract
/// sender; then pay the fee to the aggregator, pay the amount to the
/// recipient, and bump the sender's nonce.  An error leaves the state
/// untouched.
pub open spec fn spec_run(
    s: Seq<EntryView>,
    t: TxView,
    ag_index: u64,
) -> Result<Seq<EntryView>, ExecError> {
    match spec_find(s, t.sender_index) {
        Option::None => Result::Err(ExecError::MissingAccount(t.sender_index)),
        Option::Some(si) => {
            let sender = s[si].account;
            if t.nonce != sender.nonce + 1 {
                Result::Err(ExecError::InvalidNonce((sender.nonce + 1) as u64, t.nonce))
            } else if spec_verify_signature(t.witness, tx_sig_message(t), sender.pubkey_hash)
                is Err {
                Result::Err(ExecError::InvalidSignature)
            } else if sender.script is Some {
                Result::Err(ExecError::ContractCall(1))
            } else {
                match spec_transfer(s, t.sender_index, ag_index, t.fee_token, t.fee_amount) {
                    Result::Err(e) => Result::Err(e),
                    Result::Ok(s1) => match spec_transfer(
                        s1,
                        t.sender_index,
                        t.to_index,
                        t.token,
                        t.amount,
                    ) {
                        Result::Err(e) => Result::Err(e),
                        Result::Ok(s2) => Result::Ok(
                            s2.update(
                                si,
                                EntryView {
                                    account: AccountView {
                                        nonce: (sender.nonce + 1) as u32,
                                        ..s2[si].account
                                    },
                                    kv: s2[si].kv,
                                },
                            ),
                        ),
                    },
                }
            }
        },
    }
}

/// The deterministic transfer executor.
pub struct Executor;

impl Executor {
    /// The executor carries no state of its own.
    pub fn new() -> (r: Executor) {
        Executor {  }
    }

    /// Execute one transfer against the state, exactly as `spec_run`
    /// lays it out; on an error the state is untouched.
    pub fn run(&self, state: &mut State, tx: &TxWithHash, ag_index: u64) -> (r: Result<
        (),
        ExecError,
    >)
        requires
            old(state).wf(),
        ensures
            final(state).wf(),
            match r {
                Result::Ok(()) => spec_run(old(state)@, tx.raw@, ag_index) == Result::<
                    Seq<EntryView>,
                    ExecError,
                >::Ok(final(state)@),
                Result::Err(e) => spec_run(old(state)@, tx.raw@, ag_index) == Result::<
                    Seq<EntryView>,
                    ExecError,
                >::Err(e) && final(state)@ == old(state)@,
            },
    {
        let sender_index = tx.raw.sender_index;
        let si = match state.find(sender_index) {
            Option::Some(si) => si,
            Option::None => {
                return Result::Err(ExecError::MissingAccount(sender_index));
            },
        };
        proof {
            lemma_spec_find_nonneg(state@, sender_index);
            assert(state@[si as int] == state.entries@[si as int]@);
        }
        let sender_nonce = state.entries[si].account.nonce;
        if sender_nonce == u32::MAX || tx.raw.nonce != sender_nonce + 1 {
            return Result::Err(
                ExecError::InvalidNonce(sender_nonce as u64 + 1, tx.raw.nonce),
            );
        }
        let unsigned = Tx {
            sender_index: tx.raw.sender_index,
            to_index: tx.raw.to_index,
            fee_token: tx.raw.fee_token,
            fee_amount: tx.raw.fee_amount,
            token: tx.raw.token,
            amount: tx.raw.amount,
            nonce: tx.raw.nonce,
            witness: Vec::new(),
        };
        let msg_bytes = crate::codec::serialize_tx(&unsigned);
        let msg = crate::hash::blake2b_256(msg_bytes.as_slice());
        proof {
            assert(unsigned@ == TxView { witness: Seq::<u8>::empty(), ..tx.raw@ });
            assert(msg@ == tx_sig_message(tx.raw@));
        }
        let sig_ok = crate::sig::verify_signature(
            tx.raw.witness.as_slice(),
            msg.as_slice(),
            crate::codec::self_slice_20(&state.entries[si].account.pubkey_hash),
        );
        if sig_ok.is_err() {
            return Result::Err(ExecError::InvalidSignature);
        }
        if state.entries[si].account.script.is_some() {
            return Result::Err(ExecError::ContractCall(1));
        }
        // Everything after the fee payment must be able to roll back.
        let saved_sender_kv = copy_kv(&state.entries[si].kv);
        let gi = state.find(ag_index);
        let saved_ag_kv = match gi {
            Option::Some(g) => {
                proof {
                    lemma_spec_find_nonneg(state@, ag_index);
                }
                Option::Some(copy_kv(&state.entries[g].kv))
            },
            Option::None => Option::None,
        };
        let ghost s0 = state@;
        match transfer(state, sender_index, ag_index, &tx.raw.fee_token, tx.raw.fee_amount) {
            Result::Ok(()) => {},
            Result::Err(e) => {
                return Result::Err(e);
            },
        }
        let ghost s1 = state@;
        match transfer(state, sender_index, tx.raw.to_index, &tx.raw.token, tx.raw.amount) {
            Result::Ok(()) => {},
            Result::Err(e) => {
                // Undo the fee payment: only the sender's and the
                // aggregator's balance maps were touched.
                let g = gi.unwrap();
                proof {
                    assert(spec_find(s0, ag_index) == Option::Some(g as int));
                    lemma_spec_find_nonneg(s0, ag_index);
                }
                set_kv(state, si, saved_sender_kv);
                let saved = saved_ag_kv.unwrap();
                set_kv(state, g, saved);
                proof {
                    assert(state@ =~= s0);
                }
                return Result::Err(e);
            },
        }
        let ghost s2 = state@;
        proof {
            lemma_spec_find_nonneg(s0, sender_index);
            match spec_find(s0, ag_index) {
                Option::Some(g0) => {
                    lemma_spec_find_nonneg(s0, ag_index);
                    assert(s1 =~= spec_set_balance(
                        spec_set_balance(
                            s0,
                            si as int,
                            tx.raw.fee_token,
                            (spec_kv_get(s0[si as int].kv, tx.raw.fee_token@)
                                - tx.raw.fee_amount) as u64,
                        ),
                        g0,
                        tx.raw.fee_token,
                        (spec_kv_get(s0[g0].kv, tx.raw.fee_token@) + tx.raw.fee_amount) as u64,
                    ));
                    assert forall|i: int| 0 <= i < s1.len() implies s1[i].account == s0[i].account by {}
                    lemma_find_same_indices(s1, s0, sender_index);
                    lemma_find_same_indices(s1, s0, tx.raw.to_index);
                },
                Option::None => {
                    assert(false);
                },
            }
            assert(spec_find(s1, sender_index) == Option::Some(si as int));
            match spec_find(s1, tx.raw.to_index) {
                Option::Some(t1) => {
                    lemma_spec_find_nonneg(s1, tx.raw.to_index);
                    assert(s2 =~= spec_set_balance(
                        spec_set_balance(
                            s1,
                            si as int,
                            tx.raw.token,
                            (spec_kv_get(s1[si as int].kv, tx.raw.token@) - tx.raw.amount) as u64,
                        ),
                        t1,
                        tx.raw.token,
                        (spec_kv_get(s1[t1].kv, tx.raw.token@) + tx.raw.amount) as u64,
                    ));
                    assert forall|i: int| 0 <= i < s2.len() implies s2[i].account == s1[i].account by {}
                },
                Option::None => {
                    assert(false);
                },
            }
            assert(state@[si as int].account == s0[si as int].account);
            assert(state.entries@[si as int]@ == state@[si as int]);
        }
        bump_nonce(state, si);
        proof {
            assert(state@ =~= s2.update(
                si as int,
                EntryView {
                    account: AccountView {
                        nonce: (s0[si as int].account.nonce + 1) as u32,
                        ..s2[si as int].account
                    },
                    kv: s2[si as int].kv,
                },
            ));
            assert(spec_run(s0, tx.raw@, ag_index) == Result::<
                Seq<EntryView>,
                ExecError,
            >::Ok(state@));
            assert forall|i: int, j: int|
                0 <= i < j < state@.len() implies (#[trigger] state@[i]).account.index
                != (#[trigger] state@[j]).account.index by {
                assert(state@[i].account.index == s0[i].account.index);
                assert(state@[j].account.index == s0[j].account.index);
            }
            assert forall|i: int| 0 <= i < state@.len() implies (
            #[trigger] state@[i]).account.wf() by {
                assert(state@[i].account.script == s0[i].account.script);
            }
            assert forall|i: int|
                0 <= i < state.entries@.len() implies (#[trigger] state.entries@[i]).kv.wf() by {
            }
        }
        Result::Ok(())
    }
}

/// The proof leaves a state stands for: each slot's balance leaves and
/// record leaf, in slot order.
pub open spec fn spec_state_leaves(s: Seq<EntryView>) -> Seq<(Seq<u8>, Seq<u8>)>
    decreases s.len(),
{
    if s.len() == 0 {
        Seq::empty()
    } else {
        crate::smt::spec_account_leaves(
            s[0].account.index,
            Option::Some(s[0].account),
            s[0].kv,
        ) + spec_state_leaves(s.drop_first())
    }
}

/// Build the proof leaves of a whole state.
pub fn state_to_merkle_leaves(state: &State) -> (r: Vec<([u8; 32], [u8; 32])>)
    requires
        state.wf(),
    ensures
        crate::smt::leaves_view(r@) == spec_state_leaves(state@),
{
    let mut out: Vec<([u8; 32], [u8; 32])> = Vec::new();
    let n = state.entries.len();
    let mut i: usize = 0;
    proof {
        assert(state@.skip(0) =~= state@);
        assert(crate::smt::leaves_view(out@) + spec_state_leaves(state@) =~= spec_state_leaves(
            state@,
        ));
    }
    while i < n
        invariant
            i <= n,
            state.wf(),
            n == state.entries@.len(),
            state@.len() == n,
            spec_state_leaves(state@) == crate::smt::leaves_view(out@) + spec_state_leaves(
                state@.skip(i as int),
            ),
        decreases n - i,
    {
        let ghost tail = state@.skip(i as int);
        proof {
            assert(tail[0] == state@[i as int]);
            assert(tail.drop_first() =~= state@.skip(i + 1));
            assert(state@[i as int] == state.entries@[i as int]@);
        }
        let entry_leaves = crate::smt::account_leaves(
            self_index_at(state, i),
            Option::Some(&state.entries[i].account),
            &state.entries[i].kv,
        );
        let ghost prev = out@;
        let m = entry_leaves.len();
        let mut j: usize = 0;
        while j < m
            invariant
                j <= m,
                m == entry_leaves@.len(),
                out@ == prev + entry_leaves@.take(j as int),
            decreases m - j,
        {
            out.push(entry_leaves[j]);
            proof {
                assert(out@ =~= prev + entry_leaves@.take(j + 1));
            }
            j = j + 1;
        }
        proof {
            assert(entry_leaves@.take(m as int) =~= entry_leaves@);
            assert(out@ =~= prev + entry_leaves@);
            assert(crate::smt::leaves_view(out@) =~= crate::smt::leaves_view(prev)
                + crate::smt::leaves_view(entry_leaves@));
            assert(spec_state_leaves(tail) == crate::smt::leaves_view(entry_leaves@)
                + spec_state_leaves(state@.skip(i + 1)));
            assert(crate::smt::leaves_view(prev) + (crate::smt::leaves_view(entry_leaves@)
                + spec_state_leaves(state@.skip(i + 1))) =~= crate::smt::leaves_view(out@)
                + spec_state_leaves(state@.skip(i + 1)));
        }
        i = i + 1;
    }
    proof {
        assert(spec_state_leaves(state@.skip(n as int)) =~= Seq::<(Seq<u8>, Seq<u8>)>::empty());
        assert(crate::smt::leaves_view(out@) + spec_state_leaves(state@.skip(n as int))
            =~= crate::smt::leaves_view(out@));
    }
    out
}

/// Read the account index held at a slot.
fn self_index_at(state: &State, i: usize) -> (r: u64)
    requires
        i < state.entries@.len(),
    ensures
        r == state.entries@[i as int]@.account.index,
{
    state.entries[i].account.index
}

/// Copy a transfer field for field.
pub fn copy_tx(t: &Tx) -> (r: Tx)
    ensures
        r@ == t@,
{
    let mut witness: Vec<u8> = Vec::new();
    crate::bytes::append_bytes(&mut witness, t.witness.as_slice());
    Tx {
        sender_index: t.sender_index,
        to_index: t.to_index,
        fee_token: t.fee_token,
        fee_amount: t.fee_amount,
        token: t.token,
        amount: t.amount,
        nonce: t.nonce,
        witness,
    }
}

/// Hash each transfer once, pairing it with its BLAKE2b digest.
pub fn build_tx_hashes(txs: &Vec<Tx>) -> (r: Vec<TxWithHash>)
    ensures
        r@.len() == txs@.len(),
        forall|i: int|
            0 <= i < txs@.len() ==> (#[trigger] r@[i]).raw@ == txs@[i]@ && r@[i].tx_hash@
                == crate::hash::blake2b(crate::codec::tx_bytes(txs@[i]@)),
{
    let mut out: Vec<TxWithHash> = Vec::new();
    let n = txs.len();
    let mut i: usize = 0;
    while i < n
        invariant
            i <= n,
            n == txs@.len(),
            out@.len() == i,
            forall|k: int|
                0 <= k < i ==> (#[trigger] out@[k]).raw@ == txs@[k]@ && out@[k].tx_hash@
                    == crate::hash::blake2b(crate::codec::tx_bytes(txs@[k]@)),
        decreases n - i,
    {
        let raw = copy_tx(&txs[i]);
        let bytes = crate::codec::serialize_tx(&raw);
        let tx_hash = crate::hash::blake2b_256(bytes.as_slice());
        out.push(TxWithHash { raw, tx_hash });
        i = i + 1;
    }
    out
}

impl State {
    /// The commitment to this state: the root of the sparse merkle
    /// tree holding exactly its account and balance leaves.  Reading it
    /// takes the state by shared reference, so no view can move the
    /// root.
    pub fn root(&self) -> (r: Option<[u8; 32]>)
        requires
            self.wf(),
        ensures
            match r {
                Option::Some(h) => crate::smt::smt_built_root(spec_state_leaves(self@))
                    == Option::Some(h@),
                Option::None => crate::smt::smt_built_root(spec_state_leaves(self@)) is None,
            },
    {
        let leaves = state_to_merkle_leaves(self);
        crate::smt::compute_root(&leaves)
    }
}

impl State {
    /// The slot holding account `index`, when there is one.  A shared
    /// borrow: reading an account can move nothing.
    pub fn get_account(&self, index: u64) -> (r: Option<&StateEntry>)
        ensures
            match r {
                Option::Some(e) => spec_find(self@, index) is Some && e@ == self@[spec_find(
                    self@,
                    index,
                )->0],
                Option::None => spec_find(self@, index) is None,
            },
    {
        match self.find(index) {
            Option::Some(i) => {
                proof {
                    lemma_spec_find_nonneg(self@, index);
                }
                Option::Some(&self.entries[i])
            },
            Option::None => Option::None,
        }
    }

    /// The balance account `index` holds of `token`, when the account
    /// exists.
    pub fn get_balance(&self, index: u64, token: &[u8; 32]) -> (r: Option<u64>)
        ensures
            match r {
                Option::Some(b) => spec_find(self@, index) matches Option::Some(i) && b
                    == spec_kv_get(self@[i].kv, token@),
                Option::None => spec_find(self@, index) is None,
            },
    {
        match self.find(index) {
            Option::Some(i) => {
                proof {
                    lemma_spec_find_nonneg(self@, index);
                }
                Option::Some(self.entries[i].kv.get(token))
            },
            Option::None => Option::None,
        }
    }

    /// Set account `index`'s balance of `key` to `value`.
    pub fn update_account_state(&mut self, index: u64, key: [u8; 32], value: u64) -> (r: Result<
        (),
        ExecError,
    >)
        requires
            old(self).wf(),
        ensures
            final(self).wf(),
            match r {
                Result::Ok(()) => spec_find(old(self)@, index) matches Option::Some(i)
                    && final(self)@ == spec_set_balance(old(self)@, i, key, value),
                Result::Err(e) => e == ExecError::MissingAccount(index) && spec_find(
                    old(self)@,
                    index,
                ) is None && final(self)@ == old(self)@,
            },
    {
        match self.find(index) {
            Option::Some(i) => {
                proof {
                    lemma_spec_find_nonneg(self@, index);
                }
                set_balance(self, i, key, value);
                proof {
                    assert forall|a: int, b: int|
                        0 <= a < b < self@.len() implies (#[trigger] self@[a]).account.index != (
                    #[trigger] self@[b]).account.index by {
                        assert(self@[a].account == old(self)@[a].account);
                        assert(self@[b].account == old(self)@[b].account);
                    }
                    assert forall|a: int|
                        0 <= a < self@.len() implies (#[trigger] self@[a]).account.wf() by {
                        assert(self@[a].account == old(self)@[a].account);
                    }
                }
                Result::Ok(())
            },
            Option::None => Result::Err(ExecError::MissingAccount(index)),
        }
    }

    /// Bump account `index`'s nonce by one; the caller owes that the
    /// nonce has room.
    pub fn inc_nonce(&mut self, index: u64) -> (r: Result<(), ExecError>)
        requires
            old(self).wf(),
            match spec_find(old(self)@, index) {
                Option::Some(i) => old(self)@[i].account.nonce < u32::MAX,
                Option::None => true,
            },
        ensures
            final(self).wf(),
            match r {
                Result::Ok(()) => spec_find(old(self)@, index) matches Option::Some(i)
                    && final(self)@ == old(self)@.update(
                    i,
                    EntryView {
                        account: AccountView {
                            nonce: (old(self)@[i].account.nonce + 1) as u32,
                            ..old(self)@[i].account
                        },
                        kv: old(self)@[i].kv,
                    },
                ),
                Result::Err(e) => e == ExecError::MissingAccount(index) && spec_find(
                    old(self)@,
                    index,
                ) is None && final(self)@ == old(self)@,
            },
    {
        match self.find(index) {
            Option::Some(i) => {
                proof {
                    lemma_spec_find_nonneg(self@, index);
                }
                bump_nonce(self, i);
                proof {
                    assert forall|a: int, b: int|
                        0 <= a < b < self@.len() implies (#[trigger] self@[a]).account.index != (
                    #[trigger] self@[b]).account.index by {
                        assert(self@[a].account.index == old(self)@[a].account.index);
                        assert(self@[b].account.index == old(self)@[b].account.index);
                    }
                    assert forall|a: int|
                        0 <= a < self@.len() implies (#[trigger] self@[a]).account.wf() by {
                        assert(self@[a].account.script == old(self)@[a].account.script);
                    }
                }
                Result::Ok(())
            },
            Option::None => Result::Err(ExecError::MissingAccount(index)),
        }
    }
}

} // verus!
