//! BLAKE2b-256 digests with the chain's personalization.
//!
//! Every commitment in the protocol (SMT keys and leaf digests, MMR
//! merges, block and transaction hashes, signature messages) goes through
//! this one digest.  The digest itself is outside code; its result is
//! named by `blake2b` and everything else is proved against that name.

use vstd::prelude::*;

verus! {

/// The digest blake2b-ref computes: BLAKE2b, 32-byte output, personalized
/// with `ckb-default-hash`.  A pure function of the input bytes.
pub uninterp spec fn blake2b(data: Seq<u8>) -> Seq<u8>;

/// Relies on blake2b-ref's `Blake2bBuilder`/`Blake2b`: a 32-byte BLAKE2b
/// digest of `data`, personalized with `ckb-default-hash`, depending on
/// the input bytes alone.
#[verifier::external_body]
pub fn blake2b_256(data: &[u8]) -> (r: [u8; 32])
    ensures
        r@ == blake2b(data@),
{
    let mut hash = [0u8; 32];
    let mut hasher = blake2b_ref::Blake2bBuilder::new(32)
        .personal(b"ckb-default-hash")
        .build();
    hasher.update(data);
    hasher.finalize(&mut hash);
    hash
}

/// Digest of the concatenation of two nodes: the MMR merge function.
pub open spec fn merge_hash(left: Seq<u8>, right: Seq<u8>) -> Seq<u8> {
    blake2b(left + right)
}

/// Merge of two 32-byte nodes, `BLAKE2b(left ‖ right)`.
pub fn merge_nodes(left: &[u8; 32], right: &[u8; 32]) -> (r: [u8; 32])
    ensures
        r@ == merge_hash(left@, right@),
{
    let mut data: Vec<u8> = Vec::new();
    let mut i: usize = 0;
    while i < 32
        invariant
            i <= 32,
            data@ == left@.subrange(0, i as int),
        decreases 32 - i,
    {
        data.push(left[i]);
        i = i + 1;
    }
    assert(data@ == left@);
    let mut j: usize = 0;
    while j < 32
        invariant
            j <= 32,
            data@ == left@ + right@.subrange(0, j as int),
        decreases 32 - j,
    {
        data.push(right[j]);
        j = j + 1;
    }
    assert(data@ == left@ + right@);
    blake2b_256(data.as_slice())
}

/// The MMR merge function as a named item.
pub struct HashMerge;

impl HashMerge {
    /// Merge two sibling nodes into their parent, `BLAKE2b(left ‖ right)`.
    pub fn merge(left: &[u8; 32], right: &[u8; 32]) -> (r: [u8; 32])
        ensures
            r@ == merge_hash(left@, right@),
    {
        merge_nodes(left, right)
    }
}

} // verus!
