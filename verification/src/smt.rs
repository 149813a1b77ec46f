//! The account-state commitment: a sparse merkle tree over account
//! records and token balances.
//!
//! Keys are BLAKE2b digests of a one-byte prefix and the account index
//! (and the token id for balance leaves).  Leaf values are digests: a
//! balance is its little-endian bytes zero-padded to 32, an account
//! record is the BLAKE2b digest of its encoding, and an absent value is
//! all zeros.  The tree arithmetic itself is the sparse-merkle-tree
//! crate's, reached through the trusted items below.

use crate::bytes::{append_u64, le_u64};
use crate::codec::{account_bytes, serialize_account};
use crate::hash::{blake2b, blake2b_256};
use crate::kv::KVMap;
use crate::types::{Account, AccountView};
use sparse_merkle_tree::blake2b::Blake2bHasher;
use sparse_merkle_tree::default_store::DefaultStore;
use sparse_merkle_tree::merge::MergeValue;
use sparse_merkle_tree::{MerkleProof, SparseMerkleTree, H256};
use vstd::prelude::*;

verus! {

/// Prefix byte of an account-record key.
pub const SMT_PREFIX_INDEX: u8 = 1;

/// Prefix byte of a token-balance key.
pub const SMT_PREFIX_TOKEN: u8 = 2;

/// The key of the leaf holding account `index`'s record.
pub open spec fn index_key(index: u64) -> Seq<u8> {
    blake2b(seq![SMT_PREFIX_INDEX] + le_u64(index))
}

/// The key of the leaf holding account `index`'s balance of `token_id`.
pub open spec fn token_key(index: u64, token_id: Seq<u8>) -> Seq<u8> {
    blake2b(seq![SMT_PREFIX_TOKEN] + le_u64(index) + token_id)
}

/// Compute the key of account `index`'s record leaf.
pub fn account_index_key(index: u64) -> (r: [u8; 32])
    ensures
        r@ == index_key(index),
{
    let mut data: Vec<u8> = Vec::new();
    data.push(SMT_PREFIX_INDEX);
    append_u64(&mut data, index);
    proof {
        assert(data@ =~= seq![SMT_PREFIX_INDEX] + le_u64(index));
    }
    blake2b_256(data.as_slice())
}

/// Compute the key of account `index`'s balance leaf for `token_id`.
pub fn token_id_key(index: u64, token_id: &[u8; 32]) -> (r: [u8; 32])
    ensures
        r@ == token_key(index, token_id@),
{
    let mut data: Vec<u8> = Vec::new();
    data.push(SMT_PREFIX_TOKEN);
    append_u64(&mut data, index);
    crate::bytes::append_bytes(&mut data, crate::codec::self_slice_32(token_id));
    proof {
        assert(data@ =~= seq![SMT_PREFIX_TOKEN] + le_u64(index) + token_id@);
    }
    blake2b_256(data.as_slice())
}

/// The 32-byte digest standing for a sequence of value bytes: the bytes
/// themselves zero-padded when they fit, their BLAKE2b digest when they
/// do not.  The empty value digests to all zeros, the empty leaf.
pub open spec fn value_digest(v: Seq<u8>) -> Seq<u8> {
    if v.len() <= 32 {
        v + Seq::new((32 - v.len()) as nat, |i: int| 0u8)
    } else {
        blake2b(v)
    }
}

/// The leaf digest of a token balance: its 8 little-endian bytes padded,
/// or the empty leaf for a zero balance.
pub open spec fn balance_digest(v: u64) -> Seq<u8> {
    if v == 0 {
        value_digest(Seq::empty())
    } else {
        value_digest(le_u64(v))
    }
}

/// The leaf digest of an account record.
pub open spec fn account_digest(a: AccountView) -> Seq<u8> {
    value_digest(account_bytes(a))
}

/// The digest of an absent value: all zeros.
pub open spec fn empty_digest() -> Seq<u8> {
    value_digest(Seq::empty())
}

/// Compute the leaf digest of a token balance.
pub fn balance_to_node(v: u64) -> (r: [u8; 32])
    ensures
        r@ == balance_digest(v),
{
    let mut node = [0u8; 32];
    if v == 0 {
        proof {
            assert(node@ =~= balance_digest(0));
        }
        return node;
    }
    let mut bytes: Vec<u8> = Vec::new();
    append_u64(&mut bytes, v);
    proof {
        crate::bytes::lemma_le_bytes_len(v as nat, 8);
    }
    let mut i: usize = 0;
    while i < 8
        invariant
            i <= 8,
            bytes@ == le_u64(v),
            bytes@.len() == 8,
            node@.len() == 32,
            forall|k: int| 0 <= k < i ==> node@[k] == le_u64(v)[k],
            forall|k: int| i <= k < 32 ==> node@[k] == 0u8,
        decreases 8 - i,
    {
        node[i] = bytes[i];
        i = i + 1;
    }
    proof {
        assert(node@ =~= balance_digest(v));
    }
    node
}

/// Compute the leaf digest of an account record.  An account encoding is
/// always longer than 32 bytes, so the digest is its BLAKE2b hash.
pub fn account_to_node(a: &Account) -> (r: [u8; 32])
    requires
        a.wf(),
    ensures
        r@ == account_digest(a@),
{
    let bytes = serialize_account(a);
    proof {
        crate::bytes::lemma_le_bytes_len(a.index as nat, 8);
        crate::bytes::lemma_le_bytes_len(a.nonce as nat, 4);
        assert(account_bytes(a@).len() > 32);
    }
    blake2b_256(bytes.as_slice())
}

/// The digest of an all-zero 32-byte node, for absent accounts.
pub fn empty_node() -> (r: [u8; 32])
    ensures
        r@ == empty_digest(),
{
    let node = [0u8; 32];
    proof {
        assert(node@ =~= empty_digest());
    }
    node
}

/// The most leaves one compressed proof can carry: the
/// sparse-merkle-tree crate compiles a proof over a fixed stack of this
/// depth and pushes one entry per leaf, so a longer leaf list could
/// overrun it.  Callers turn longer lists away before the call.
pub const MAX_PROOF_LEAVES: usize = 257;

/// One sibling entry of a compressed multi-leaf SMT proof, as the
/// sparse-merkle-tree crate shapes it: either a plain node digest, or a
/// node merged against a run of zero siblings.
pub enum ProofNode {
    /// A plain sibling node digest.
    Value([u8; 32]),
    /// A base node, the zero-side path bits, and the zero run's length.
    MergeWithZero([u8; 32], [u8; 32], u8),
}

/// What `sparse_merkle_tree::MerkleProof::compute_root` returns for the
/// given `(key, value-digest)` leaves, leaves bitmap and merkle path:
/// the root the proof binds those leaves to, or nothing when the proof
/// does not fit the leaves.  A pure function of its arguments.
pub uninterp spec fn smt_proof_root(
    leaves: Seq<(Seq<u8>, Seq<u8>)>,
    leaves_bitmap: Seq<Seq<u8>>,
    merkle_path: Seq<ProofNode>,
) -> Option<Seq<u8>>;

/// What a sparse merkle tree built from exactly the given
/// `(key, value-digest)` leaves commits to.  A pure function of the
/// leaf sequence; the empty tree's root is all zeros.
pub uninterp spec fn smt_built_root(leaves: Seq<(Seq<u8>, Seq<u8>)>) -> Option<Seq<u8>>;

/// The view of a leaf list: each 32-byte key and digest as a byte
/// sequence.
pub open spec fn leaves_view(leaves: Seq<([u8; 32], [u8; 32])>) -> Seq<(Seq<u8>, Seq<u8>)> {
    leaves.map_values(|p: ([u8; 32], [u8; 32])| (p.0@, p.1@))
}

/// The view of a proof bitmap: each 32-byte word as a byte sequence.
pub open spec fn bitmap_view(bitmap: Seq<[u8; 32]>) -> Seq<Seq<u8>> {
    bitmap.map_values(|w: [u8; 32]| w@)
}

/// Relies on `sparse_merkle_tree::MerkleProof::compute_root` with the
/// crate's own `Blake2bHasher`: computes the root the proof binds the
/// given leaves to, a function of the leaves and the proof alone;
/// returns `None` exactly when the crate reports the proof corrupted.
/// The leaf bound keeps the crate's fixed proof-compilation stack (one
/// push per leaf, depth `MAX_PROOF_LEAVES`) in range.
#[verifier::external_body]
pub fn compute_root_with_proof(
    leaves: &Vec<([u8; 32], [u8; 32])>,
    leaves_bitmap: &Vec<[u8; 32]>,
    merkle_path: &Vec<ProofNode>,
) -> (r: Option<[u8; 32]>)
    requires
        leaves@.len() <= MAX_PROOF_LEAVES as nat,
    ensures
        r is Some <==> smt_proof_root(leaves_view(leaves@), bitmap_view(leaves_bitmap@), merkle_path@) is Some,
        r matches Some(h) ==> Some(h@) == smt_proof_root(
            leaves_view(leaves@),
            bitmap_view(leaves_bitmap@),
            merkle_path@,
        ),
{
    let ls = leaves.iter().map(|(k, v)| ((*k).into(), (*v).into())).collect();
    let bm = leaves_bitmap.iter().map(|w| (*w).into()).collect();
    let path = merkle_path
        .iter()
        .map(|n| match n {
            ProofNode::Value(v) => MergeValue::Value((*v).into()),
            ProofNode::MergeWithZero(b, z, c) => MergeValue::MergeWithZero {
                base_node: (*b).into(),
                zero_bits: (*z).into(),
                zero_count: *c,
            },
        })
        .collect();
    MerkleProof::new(bm, path).compute_root::<Blake2bHasher>(ls).ok().map(|h| h.into())
}

/// Relies on `sparse_merkle_tree::SparseMerkleTree::update_all` over the
/// crate's default store and `Blake2bHasher`: the root of the tree that
/// holds exactly the given `(key, value-digest)` leaves, a function of
/// the leaves alone; `None` when the crate reports an error.
#[verifier::external_body]
pub fn compute_root(leaves: &Vec<([u8; 32], [u8; 32])>) -> (r: Option<[u8; 32]>)
    ensures
        r is Some <==> smt_built_root(leaves_view(leaves@)) is Some,
        r matches Some(h) ==> Some(h@) == smt_built_root(leaves_view(leaves@)),
{
    let mut tree: SparseMerkleTree<Blake2bHasher, H256, DefaultStore<H256>> = Default::default();
    let ls = leaves.iter().map(|(k, v)| ((*k).into(), (*v).into())).collect();
    match tree.update_all(ls) {
        Ok(root) => Some((*root).into()),
        Err(_) => None,
    }
}

/// The proof leaves standing for one account and its token balances:
/// each balance leaf in the map's order, then the record leaf.  An
/// absent record (a slot about to be registered) stands as the empty
/// digest.
pub open spec fn spec_account_leaves(
    index: u64,
    account: Option<AccountView>,
    kv: Seq<([u8; 32], u64)>,
) -> Seq<(Seq<u8>, Seq<u8>)> {
    kv.map_values(|e: ([u8; 32], u64)| (token_key(index, e.0@), balance_digest(e.1))) + seq![
        (
            index_key(index),
            match account {
                Option::Some(a) => account_digest(a),
                Option::None => empty_digest(),
            },
        ),
    ]
}

/// Build the proof leaves for one account slot.
pub fn account_leaves(index: u64, account: Option<&Account>, kv: &KVMap) -> (r: Vec<
    ([u8; 32], [u8; 32]),
>)
    requires
        match account {
            Option::Some(a) => a.wf(),
            Option::None => true,
        },
    ensures
        leaves_view(r@) == spec_account_leaves(
            index,
            match account {
                Option::Some(a) => Option::Some(a@),
                Option::None => Option::None,
            },
            kv.entries@,
        ),
{
    let mut out: Vec<([u8; 32], [u8; 32])> = Vec::new();
    push_kv_leaves(&mut out, index, kv);
    let node: [u8; 32] = match account {
        Option::Some(a) => account_to_node(a),
        Option::None => empty_node(),
    };
    out.push((account_index_key(index), node));
    proof {
        let spec = spec_account_leaves(
            index,
            match account {
                Option::Some(a) => Option::Some(a@),
                Option::None => Option::None,
            },
            kv.entries@,
        );
        assert(leaves_view(out@) =~= spec);
    }
    out
}

/// Append the balance leaves of one account to `out`.
pub fn push_kv_leaves(out: &mut Vec<([u8; 32], [u8; 32])>, index: u64, kv: &KVMap)
    ensures
        leaves_view(final(out)@) == leaves_view(old(out)@) + kv.entries@.map_values(
            |e: ([u8; 32], u64)| (token_key(index, e.0@), balance_digest(e.1)),
        ),
{
    let n = kv.entries.len();
    let mut i: usize = 0;
    while i < n
        invariant
            i <= n,
            n == kv.entries@.len(),
            leaves_view(out@) =~= leaves_view(old(out)@) + kv.entries@.take(i as int).map_values(
                |e: ([u8; 32], u64)| (token_key(index, e.0@), balance_digest(e.1)),
            ),
        decreases n - i,
    {
        let entry = kv.entries[i];
        let key = token_id_key(index, &entry.0);
        let node = balance_to_node(entry.1);
        let ghost prev_out = out@;
        out.push((key, node));
        proof {
            let f = |e: ([u8; 32], u64)| (token_key(index, e.0@), balance_digest(e.1));
            assert(kv.entries@.take(i + 1) =~= kv.entries@.take(i as int).push(
                kv.entries@[i as int],
            ));
            assert(kv.entries@.take(i + 1).map_values(f) =~~= kv.entries@.take(
                i as int,
            ).map_values(f).push(f(kv.entries@[i as int])));
            assert((key@, node@) == f(kv.entries@[i as int]));
            assert(leaves_view(out@) =~~= leaves_view(prev_out).push((key@, node@)));
            assert(leaves_view(out@) =~~= leaves_view(old(out)@) + kv.entries@.take(
                i + 1,
            ).map_values(f));
        }
        i = i + 1;
    }
    proof {
        assert(kv.entries@.take(n as int) =~= kv.entries@);
        assert(leaves_view(out@) =~= leaves_view(old(out)@) + kv.entries@.map_values(
            |e: ([u8; 32], u64)| (token_key(index, e.0@), balance_digest(e.1)),
        ));
    }
}

/// The proof root over a leaf list that may be too long to compile:
/// an oversized list yields nothing, a bounded one whatever the proof
/// computation yields.
pub open spec fn bounded_proof_root(
    leaves: Seq<(Seq<u8>, Seq<u8>)>,
    leaves_bitmap: Seq<Seq<u8>>,
    merkle_path: Seq<ProofNode>,
) -> Option<Seq<u8>> {
    if leaves.len() <= MAX_PROOF_LEAVES as nat {
        smt_proof_root(leaves, leaves_bitmap, merkle_path)
    } else {
        Option::None
    }
}

} // verus!
