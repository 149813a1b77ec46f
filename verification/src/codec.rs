//! Fixed-layout serialization of the protocol's messages.
//!
//! Every integer is little-endian; fields stand in a fixed order with no
//! framing.  These byte strings are what the protocol hashes: a block's
//! hash and signature message, a transfer's hash and the account leaf
//! digest are all BLAKE2b digests of the encodings below.

use crate::bytes::{append_bytes, append_u32, append_u64, le_u32, le_u64, le_val, read_u64};
use crate::types::{Account, AccountView, AgBlock, GlobalState, Tx, TxView};
use vstd::prelude::*;

verus! {

/// Encoding of an optional contract script: a presence byte, then a
/// 4-byte length and the script bytes.
pub open spec fn script_bytes(script: Option<Seq<u8>>) -> Seq<u8> {
    match script {
        Option::None => seq![0u8],
        Option::Some(s) => seq![1u8] + le_u32(s.len() as u32) + s,
    }
}

/// Encoding of an account record:
/// `index(8) ‖ pubkey_hash(20) ‖ nonce(4) ‖ script(var)`.
pub open spec fn account_bytes(a: AccountView) -> Seq<u8> {
    le_u64(a.index) + a.pubkey_hash + le_u32(a.nonce) + script_bytes(a.script)
}

/// Encoding of a block header:
/// `number(8) ‖ tx_root(32) ‖ txs_count(4) ‖ ag_index(8) ‖
///  prev_account_root(32) ‖ prev_account_count(8) ‖ account_root(32) ‖
///  account_count(8) ‖ ag_sig(65)`.
pub open spec fn block_bytes(b: AgBlock) -> Seq<u8> {
    le_u64(b.number) + b.tx_root@ + le_u32(b.txs_count) + le_u64(b.ag_index)
        + b.prev_account_root@ + le_u64(b.prev_account_count) + b.account_root@ + le_u64(
        b.account_count,
    ) + b.ag_sig@
}

/// Encoding of the 80-byte global state:
/// `account_root(32) ‖ block_root(32) ‖ account_count(8) ‖ block_count(8)`.
pub open spec fn global_state_bytes(g: GlobalState) -> Seq<u8> {
    g.account_root@ + g.block_root@ + le_u64(g.account_count) + le_u64(g.block_count)
}

/// Encoding of a transfer:
/// `sender_index(8) ‖ to_index(8) ‖ fee_token(32) ‖ fee_amount(8) ‖
///  token(32) ‖ amount(8) ‖ nonce(4) ‖ witness(var)`.
pub open spec fn tx_bytes(t: TxView) -> Seq<u8> {
    le_u64(t.sender_index) + le_u64(t.to_index) + t.fee_token@ + le_u64(t.fee_amount) + t.token@
        + le_u64(t.amount) + le_u32(t.nonce) + t.witness
}

/// Serialize an account record.
pub fn serialize_account(a: &Account) -> (r: Vec<u8>)
    requires
        a.wf(),
    ensures
        r@ == account_bytes(a@),
{
    let mut out: Vec<u8> = Vec::new();
    append_u64(&mut out, a.index);
    append_bytes(&mut out, self_slice_20(&a.pubkey_hash));
    append_u32(&mut out, a.nonce);
    match &a.script {
        Option::None => {
            out.push(0u8);
            proof {
                assert(out@ =~= account_bytes(a@));
            }
        },
        Option::Some(s) => {
            out.push(1u8);
            append_u32(&mut out, s.len() as u32);
            append_bytes(&mut out, s.as_slice());
            proof {
                assert(out@ =~= account_bytes(a@));
            }
        },
    }
    out
}

/// View a 20-byte array as a slice.
pub fn self_slice_20(a: &[u8; 20]) -> (r: &[u8])
    ensures
        r@ == a@,
{
    a.as_slice()
}

/// View a 32-byte array as a slice.
pub fn self_slice_32(a: &[u8; 32]) -> (r: &[u8])
    ensures
        r@ == a@,
{
    a.as_slice()
}

/// View a 65-byte array as a slice.
pub fn self_slice_65(a: &[u8; 65]) -> (r: &[u8])
    ensures
        r@ == a@,
{
    a.as_slice()
}

/// Serialize a block header.
pub fn serialize_block(b: &AgBlock) -> (r: Vec<u8>)
    ensures
        r@ == block_bytes(*b),
{
    let mut out: Vec<u8> = Vec::new();
    append_u64(&mut out, b.number);
    append_bytes(&mut out, self_slice_32(&b.tx_root));
    append_u32(&mut out, b.txs_count);
    append_u64(&mut out, b.ag_index);
    append_bytes(&mut out, self_slice_32(&b.prev_account_root));
    append_u64(&mut out, b.prev_account_count);
    append_bytes(&mut out, self_slice_32(&b.account_root));
    append_u64(&mut out, b.account_count);
    append_bytes(&mut out, self_slice_65(&b.ag_sig));
    proof {
        assert(out@ =~= block_bytes(*b));
    }
    out
}

/// Serialize the global state into its 80-byte form.
pub fn serialize_global_state(g: &GlobalState) -> (r: Vec<u8>)
    ensures
        r@ == global_state_bytes(*g),
        r@.len() == 80,
{
    let mut out: Vec<u8> = Vec::new();
    append_bytes(&mut out, self_slice_32(&g.account_root));
    append_bytes(&mut out, self_slice_32(&g.block_root));
    append_u64(&mut out, g.account_count);
    append_u64(&mut out, g.block_count);
    proof {
        assert(out@ =~= global_state_bytes(*g));
        crate::bytes::lemma_le_bytes_len(g.account_count as nat, 8);
        crate::bytes::lemma_le_bytes_len(g.block_count as nat, 8);
    }
    out
}

/// Serialize a transfer.
pub fn serialize_tx(t: &Tx) -> (r: Vec<u8>)
    ensures
        r@ == tx_bytes(t@),
{
    let mut out: Vec<u8> = Vec::new();
    append_u64(&mut out, t.sender_index);
    append_u64(&mut out, t.to_index);
    append_bytes(&mut out, self_slice_32(&t.fee_token));
    append_u64(&mut out, t.fee_amount);
    append_bytes(&mut out, self_slice_32(&t.token));
    append_u64(&mut out, t.amount);
    append_u32(&mut out, t.nonce);
    append_bytes(&mut out, t.witness.as_slice());
    proof {
        assert(out@ =~= tx_bytes(t@));
    }
    out
}

/// Parse an 80-byte global state.  Returns `None` exactly when the input
/// is not 80 bytes long; otherwise each field is read back from its
/// fixed offset.
pub fn parse_global_state(bytes: &[u8]) -> (r: Option<GlobalState>)
    ensures
        r is Some <==> bytes@.len() == 80,
        r matches Some(g) ==> {
            &&& g.account_root@ == bytes@.subrange(0, 32)
            &&& g.block_root@ == bytes@.subrange(32, 64)
            &&& g.account_count as nat == le_val(bytes@.subrange(64, 72))
            &&& g.block_count as nat == le_val(bytes@.subrange(72, 80))
        },
{
    if bytes.len() != 80 {
        return Option::None;
    }
    let mut account_root = [0u8; 32];
    let mut block_root = [0u8; 32];
    let mut i: usize = 0;
    while i < 32
        invariant
            i <= 32,
            bytes@.len() == 80,
            account_root@.len() == 32,
            block_root@.len() == 32,
            forall|k: int| 0 <= k < i ==> account_root@[k] == bytes@[k],
            forall|k: int| 0 <= k < i ==> block_root@[k] == bytes@[32 + k],
        decreases 32 - i,
    {
        account_root[i] = bytes[i];
        block_root[i] = bytes[32 + i];
        i = i + 1;
    }
    let account_count = read_u64(bytes, 64);
    let block_count = read_u64(bytes, 72);
    let g = GlobalState { account_root, block_root, account_count, block_count };
    proof {
        assert(g.account_root@ =~= bytes@.subrange(0, 32));
        assert(g.block_root@ =~= bytes@.subrange(32, 64));
    }
    Option::Some(g)
}

/// Serializing and parsing the global state is the identity: every
/// commitment written to the chain reads back as the same four fields.
pub proof fn lemma_global_state_round_trip(g: GlobalState, bytes: Seq<u8>)
    requires
        bytes == global_state_bytes(g),
    ensures
        bytes.len() == 80,
        bytes.subrange(0, 32) == g.account_root@,
        bytes.subrange(32, 64) == g.block_root@,
        le_val(bytes.subrange(64, 72)) == g.account_count,
        le_val(bytes.subrange(72, 80)) == g.block_count,
{
    crate::bytes::lemma_le_bytes_len(g.account_count as nat, 8);
    crate::bytes::lemma_le_bytes_len(g.block_count as nat, 8);
    assert(bytes.subrange(0, 32) =~= g.account_root@);
    assert(bytes.subrange(32, 64) =~= g.block_root@);
    assert(bytes.subrange(64, 72) =~= le_u64(g.account_count));
    assert(bytes.subrange(72, 80) =~= le_u64(g.block_count));
    crate::bytes::lemma_pow256_concrete();
    crate::bytes::lemma_le_bytes_val(g.account_count as nat, 8);
    crate::bytes::lemma_le_bytes_val(g.block_count as nat, 8);
}

} // verus!
