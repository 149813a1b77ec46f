//! The rollup's entities: accounts, blocks, transfers, the global state.

use vstd::prelude::*;

verus! {

/// A 32-byte field whose bytes are all zero.
pub open spec fn all_zero(s: Seq<u8>) -> bool {
    forall|i: int| 0 <= i < s.len() ==> s[i] == 0u8
}

/// Compare two byte arrays of the same width.
pub fn array_eq<const N: usize>(a: &[u8; N], b: &[u8; N]) -> (r: bool)
    ensures
        r <==> a@ == b@,
{
    let mut i: usize = 0;
    while i < N
        invariant
            i <= N,
            a@.len() == N,
            b@.len() == N,
            forall|k: int| 0 <= k < i ==> a@[k] == b@[k],
        decreases N - i,
    {
        if a[i] != b[i] {
            return false;
        }
        i = i + 1;
    }
    proof {
        assert(a@ =~= b@);
    }
    true
}

/// Does a byte array hold only zeros?
pub fn array_is_zero<const N: usize>(a: &[u8; N]) -> (r: bool)
    ensures
        r <==> all_zero(a@),
{
    let mut i: usize = 0;
    while i < N
        invariant
            i <= N,
            a@.len() == N,
            forall|k: int| 0 <= k < i ==> a@[k] == 0u8,
        decreases N - i,
    {
        if a[i] != 0 {
            return false;
        }
        i = i + 1;
    }
    true
}

/// A rollup account: a dense index, the BLAKE2b-160 hash of the owner's
/// public key, a transfer nonce, and an optional contract script.
/// Balances live only in the state tree, never in the account record.
pub struct Account {
    pub index: u64,
    pub pubkey_hash: [u8; 20],
    pub nonce: u32,
    pub script: Option<Vec<u8>>,
}

/// The mathematical shape of an account record.
pub struct AccountView {
    pub index: u64,
    pub pubkey_hash: Seq<u8>,
    pub nonce: u32,
    pub script: Option<Seq<u8>>,
}

impl AccountView {
    /// An account record the protocol accepts: its script, when present,
    /// fits a 4-byte length field.
    pub open spec fn wf(self) -> bool {
        match self.script {
            Option::None => true,
            Option::Some(s) => s.len() < 0x1_0000_0000,
        }
    }
}

impl View for Account {
    type V = AccountView;

    open spec fn view(&self) -> AccountView {
        AccountView {
            index: self.index,
            pubkey_hash: self.pubkey_hash@,
            nonce: self.nonce,
            script: match self.script {
                Option::None => Option::None,
                Option::Some(s) => Option::Some(s@),
            },
        }
    }
}

impl Account {
    /// An account record the protocol accepts.
    pub open spec fn wf(self) -> bool {
        self@.wf()
    }
}

/// An aggregator block: the header the chain commits to.
#[derive(Clone, Copy)]
pub struct AgBlock {
    pub number: u64,
    pub tx_root: [u8; 32],
    pub txs_count: u32,
    pub ag_index: u64,
    pub prev_account_root: [u8; 32],
    pub prev_account_count: u64,
    pub account_root: [u8; 32],
    pub account_count: u64,
    pub ag_sig: [u8; 65],
}

impl AgBlock {
    /// A block is in reverted form when both its tx root and its
    /// aggregator signature are zeroed: only the revert path writes that.
    pub open spec fn spec_is_reverted(self) -> bool {
        all_zero(self.tx_root@) && all_zero(self.ag_sig@)
    }

    /// Whether this block is the on-chain reverted form.
    pub fn is_reverted_block(&self) -> (r: bool)
        ensures
            r <==> self.spec_is_reverted(),
    {
        let tx_root_zero = array_is_zero(&self.tx_root);
        let ag_sig_zero = array_is_zero(&self.ag_sig);
        tx_root_zero && ag_sig_zero
    }

    /// The block that replaces `invalid_block` after a successful revert:
    /// same position and previous-state fields, empty transaction part,
    /// zero signature, the challenger in the aggregator seat, and the
    /// penalty state root.
    pub fn new_reverted_block(
        invalid_block: &AgBlock,
        account_root: [u8; 32],
        challenger_index: u64,
    ) -> (r: AgBlock)
        ensures
            r.number == invalid_block.number,
            all_zero(r.tx_root@),
            r.txs_count == 0u32,
            r.ag_index == challenger_index,
            r.prev_account_root == invalid_block.prev_account_root,
            r.prev_account_count == invalid_block.prev_account_count,
            r.account_root == account_root,
            r.account_count == invalid_block.account_count,
            all_zero(r.ag_sig@),
            r.spec_is_reverted(),
    {
        AgBlock {
            number: invalid_block.number,
            tx_root: [0u8; 32],
            txs_count: 0,
            ag_index: challenger_index,
            prev_account_root: invalid_block.prev_account_root,
            prev_account_count: invalid_block.prev_account_count,
            account_root,
            account_count: invalid_block.account_count,
            ag_sig: [0u8; 65],
        }
    }
}

/// The 80-byte on-chain commitment to the whole rollup.
#[derive(Clone, Copy)]
pub struct GlobalState {
    pub account_root: [u8; 32],
    pub block_root: [u8; 32],
    pub account_count: u64,
    pub block_count: u64,
}

/// A user transfer. `fee_token`/`fee_amount` pay the aggregator,
/// `token`/`amount` pay the recipient; the witness holds the sender's
/// recoverable secp256k1 signature over the transfer hash.
pub struct Tx {
    pub sender_index: u64,
    pub to_index: u64,
    pub fee_token: [u8; 32],
    pub fee_amount: u64,
    pub token: [u8; 32],
    pub amount: u64,
    pub nonce: u32,
    pub witness: Vec<u8>,
}

/// The mathematical shape of a transfer.
pub struct TxView {
    pub sender_index: u64,
    pub to_index: u64,
    pub fee_token: [u8; 32],
    pub fee_amount: u64,
    pub token: [u8; 32],
    pub amount: u64,
    pub nonce: u32,
    pub witness: Seq<u8>,
}

impl View for Tx {
    type V = TxView;

    open spec fn view(&self) -> TxView {
        TxView {
            sender_index: self.sender_index,
            to_index: self.to_index,
            fee_token: self.fee_token,
            fee_amount: self.fee_amount,
            token: self.token,
            amount: self.amount,
            nonce: self.nonce,
            witness: self.witness@,
        }
    }
}

/// A transfer together with its BLAKE2b hash, computed once and carried
/// along so signature checks and tx-root computations agree on it.
pub struct TxWithHash {
    pub raw: Tx,
    pub tx_hash: [u8; 32],
}

/// The capacities of the rollup cell before and after an action.
#[derive(Clone, Copy)]
pub struct CapacityChange {
    pub input: u64,
    pub output: u64,
}

} // verus!
