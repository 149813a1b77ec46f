//! The block commitment: a merkle mountain range over block hashes.
//!
//! An MMR of `n` leaves is a row of perfect binary trees ("peaks"), one
//! per set bit of `n`, bagged right to left into a single root.  Nodes
//! are stored in post-order positions; a leaf's index determines its
//! position and the whole structure's size.  The merge function is
//! `BLAKE2b(left ‖ right)`.
//!
//! This module computes roots from inclusion proofs: the positions and
//! the fold are verified arithmetic, every merge goes through the named
//! BLAKE2b digest.  The proof layout matches the
//! ckb-merkle-mountain-range crate's, so proofs generated by that crate
//! verify here.

use crate::hash::{merge_hash, merge_nodes};
use vstd::prelude::*;

verus! {

/// `2^n`.
pub open spec fn pow2(n: nat) -> nat
    decreases n,
{
    if n == 0 {
        1
    } else {
        2 * pow2((n - 1) as nat)
    }
}

/// Fold step behind `cover_ones`: doubling in ones while the position
/// shifts away.
pub open spec fn cover_fold(c: nat, p: nat) -> nat
    decreases p,
{
    if p == 0 {
        c
    } else {
        cover_fold(2 * c + 1, p / 2)
    }
}

/// The all-ones cover of `pos`: `2^bitlen(pos) - 1`, the size of the
/// largest peak a structure reaching position `pos` could hold.
pub open spec fn cover_ones(pos: nat) -> nat {
    cover_fold(0, pos)
}

/// Walk a position down the peaks of shrinking size; what is left at
/// the end is the node's height in its tree.
pub open spec fn height_walk(pos: nat, peak: nat) -> nat
    decreases peak,
{
    if peak == 0 {
        pos
    } else if pos >= peak {
        height_walk((pos - peak) as nat, peak / 2)
    } else {
        height_walk(pos, peak / 2)
    }
}

/// The height of the node at `pos`: 0 for leaves.
pub open spec fn pos_height(pos: nat) -> nat {
    height_walk(pos, cover_ones(pos))
}

/// The peak positions of an MMR of `mmr_size` nodes, walking the cover
/// sizes down and keeping those that fit.
pub open spec fn peaks_walk(pos: nat, peak: nat, sum: nat) -> Seq<nat>
    decreases peak,
{
    if peak == 0 {
        Seq::empty()
    } else if pos >= peak {
        seq![(sum + peak - 1) as nat] + peaks_walk((pos - peak) as nat, peak / 2, sum + peak)
    } else {
        peaks_walk(pos, peak / 2, sum)
    }
}

/// The peak positions of an MMR of `mmr_size` nodes.
pub open spec fn spec_get_peaks(mmr_size: nat) -> Seq<nat> {
    if mmr_size == 0 {
        Seq::empty()
    } else {
        peaks_walk(mmr_size, cover_ones(mmr_size), 0)
    }
}

/// Bag a row of peak hashes right to left: the two rightmost merge as
/// `BLAKE2b(right ‖ left)` until one root is left.
pub open spec fn spec_bag(hashes: Seq<Seq<u8>>) -> Option<Seq<u8>>
    decreases hashes.len(),
{
    if hashes.len() == 0 {
        Option::None
    } else if hashes.len() == 1 {
        Option::Some(hashes[0])
    } else {
        spec_bag(
            hashes.take(hashes.len() - 2).push(
                merge_hash(hashes[hashes.len() - 1], hashes[hashes.len() - 2]),
            ),
        )
    }
}

/// The longest prefix of `leaves` whose positions do not pass `peak`.
pub open spec fn leading_leaves(leaves: Seq<(nat, Seq<u8>)>, peak: nat) -> Seq<(nat, Seq<u8>)>
    decreases leaves.len(),
{
    if leaves.len() > 0 && leaves[0].0 <= peak {
        seq![leaves[0]] + leading_leaves(leaves.drop_first(), peak)
    } else {
        Seq::empty()
    }
}

/// Climb one peak's tree: repeatedly merge the front node with its
/// sibling, taken from the queue when the sibling is itself derived
/// from a leaf and from the proof otherwise, until the peak position is
/// reached.  Yields the peak's hash and the unconsumed proof items, or
/// nothing when the proof does not fit.
pub open spec fn spec_peak_root(
    queue: Seq<(nat, Seq<u8>, nat)>,
    peak_pos: nat,
    proof: Seq<Seq<u8>>,
) -> Option<(Seq<u8>, Seq<Seq<u8>>)>
    decreases queue.len() + proof.len(),
{
    if queue.len() == 0 {
        Option::None
    } else {
        let (pos, item, height) = queue[0];
        if pos == peak_pos {
            if queue.len() == 1 {
                Option::Some((item, proof))
            } else {
                Option::None
            }
        } else if height > 62 {
            Option::None
        } else {
            let next_height = pos_height(pos + 1);
            let sib_off = (2 * pow2(height) - 1) as nat;
            if next_height > height {
                // `pos` is a right child; its sibling sits `sib_off` back.
                if pos < sib_off {
                    Option::None
                } else {
                    let sib_pos = (pos - sib_off) as nat;
                    let parent_pos = pos + 1;
                    if parent_pos > peak_pos {
                        Option::None
                    } else if queue.len() >= 2 && queue[1].0 == sib_pos {
                        spec_peak_root(
                            queue.skip(2).push(
                                (parent_pos, merge_hash(queue[1].1, item), height + 1),
                            ),
                            peak_pos,
                            proof,
                        )
                    } else if proof.len() == 0 {
                        Option::None
                    } else {
                        spec_peak_root(
                            queue.skip(1).push(
                                (parent_pos, merge_hash(proof[0], item), height + 1),
                            ),
                            peak_pos,
                            proof.drop_first(),
                        )
                    }
                }
            } else {
                // `pos` is a left child; its sibling sits `sib_off` ahead.
                let sib_pos = pos + sib_off;
                let parent_pos = pos + 2 * pow2(height);
                if parent_pos > peak_pos {
                    Option::None
                } else if queue.len() >= 2 && queue[1].0 == sib_pos {
                    spec_peak_root(
                        queue.skip(2).push((parent_pos, merge_hash(item, queue[1].1), height + 1)),
                        peak_pos,
                        proof,
                    )
                } else if proof.len() == 0 {
                    Option::None
                } else {
                    spec_peak_root(
                        queue.skip(1).push((parent_pos, merge_hash(item, proof[0]), height + 1)),
                        peak_pos,
                        proof.drop_first(),
                    )
                }
            }
        }
    }
}

/// Attach height zero to each leaf, forming the initial climb queue.
pub open spec fn with_zero_heights(leaves: Seq<(nat, Seq<u8>)>) -> Seq<(nat, Seq<u8>, nat)> {
    leaves.map_values(|l: (nat, Seq<u8>)| (l.0, l.1, 0nat))
}

/// Resolve each peak in turn: a peak carrying exactly its own leaf uses
/// that hash; a peak with no leaves takes its hash from the proof, or
/// ends the walk when the proof is spent; a peak with leaves under it
/// is climbed.  Yields the peak hashes and the unconsumed proof.
pub open spec fn spec_peaks_hashes_walk(
    leaves: Seq<(nat, Seq<u8>)>,
    peaks: Seq<nat>,
    proof: Seq<Seq<u8>>,
) -> Option<(Seq<Seq<u8>>, Seq<Seq<u8>>)>
    decreases peaks.len(),
{
    if peaks.len() == 0 {
        if leaves.len() == 0 {
            Option::Some((Seq::empty(), proof))
        } else {
            Option::None
        }
    } else {
        let here = leading_leaves(leaves, peaks[0]);
        let rest_leaves = leaves.skip(here.len() as int);
        if here.len() == 1 && here[0].0 == peaks[0] {
            match spec_peaks_hashes_walk(rest_leaves, peaks.drop_first(), proof) {
                Option::Some((hashes, rest)) => Option::Some((seq![here[0].1] + hashes, rest)),
                Option::None => Option::None,
            }
        } else if here.len() == 0 {
            if proof.len() > 0 {
                match spec_peaks_hashes_walk(rest_leaves, peaks.drop_first(), proof.drop_first()) {
                    Option::Some((hashes, rest)) => Option::Some((seq![proof[0]] + hashes, rest)),
                    Option::None => Option::None,
                }
            } else if leaves.len() == 0 {
                // The proof is spent and every later peak is bagged
                // into what was already consumed.
                Option::Some((Seq::empty(), proof))
            } else {
                Option::None
            }
        } else {
            match spec_peak_root(with_zero_heights(here), peaks[0], proof) {
                Option::Some((root, rest0)) => match spec_peaks_hashes_walk(
                    rest_leaves,
                    peaks.drop_first(),
                    rest0,
                ) {
                    Option::Some((hashes, rest)) => Option::Some((seq![root] + hashes, rest)),
                    Option::None => Option::None,
                },
                Option::None => Option::None,
            }
        }
    }
}

/// Are the leaf positions strictly increasing?
pub open spec fn sorted_leaves(leaves: Seq<(nat, Seq<u8>)>) -> bool {
    forall|i: int, j: int| 0 <= i < j < leaves.len() ==> leaves[i].0 < leaves[j].0
}

/// Do all entries sit at leaf height?
pub open spec fn all_leaf_positions(leaves: Seq<(nat, Seq<u8>)>) -> bool {
    forall|i: int| 0 <= i < leaves.len() ==> pos_height(#[trigger] leaves[i].0) == 0
}

/// The row of peak hashes an inclusion proof yields for the given
/// leaves, with a trailing proof item taken as the bagged right-hand
/// peaks.  Mirrors the ckb-merkle-mountain-range computation.
pub open spec fn spec_peaks_hashes(
    leaves: Seq<(nat, Seq<u8>)>,
    mmr_size: nat,
    proof: Seq<Seq<u8>>,
) -> Option<Seq<Seq<u8>>> {
    if !all_leaf_positions(leaves) {
        Option::None
    } else if mmr_size == 1 && leaves.len() == 1 && leaves[0].0 == 0 {
        Option::Some(seq![leaves[0].1])
    } else {
        match spec_peaks_hashes_walk(leaves, spec_get_peaks(mmr_size), proof) {
            Option::Some((hashes, rest)) => {
                if rest.len() == 0 {
                    Option::Some(hashes)
                } else if rest.len() == 1 {
                    Option::Some(hashes.push(rest[0]))
                } else {
                    Option::None
                }
            },
            Option::None => Option::None,
        }
    }
}

/// The root an inclusion proof binds the given leaves to, or nothing
/// when the proof does not fit them.
pub open spec fn spec_calculate_root(
    leaves: Seq<(nat, Seq<u8>)>,
    mmr_size: nat,
    proof: Seq<Seq<u8>>,
) -> Option<Seq<u8>> {
    match spec_peaks_hashes(leaves, mmr_size, proof) {
        Option::Some(hashes) => spec_bag(hashes),
        Option::None => Option::None,
    }
}

/// How many ones the binary form of `n` carries.
pub open spec fn popcount(n: nat) -> nat
    decreases n,
{
    if n == 0 {
        0
    } else {
        n % 2 + popcount(n / 2)
    }
}

/// How many trailing zeros the binary form of `n` carries.
pub open spec fn trailing_zeros(n: nat) -> nat
    decreases n,
{
    if n == 0 {
        0
    } else if n % 2 == 1 {
        0
    } else {
        1 + trailing_zeros(n / 2)
    }
}

/// The node count of an MMR whose last leaf has index `index`:
/// two nodes per leaf less one per peak.
pub open spec fn spec_leaf_index_to_mmr_size(index: nat) -> nat {
    (2 * (index + 1) - popcount(index + 1)) as nat
}

/// The post-order position of leaf `index`.
pub open spec fn spec_leaf_index_to_pos(index: nat) -> nat {
    (spec_leaf_index_to_mmr_size(index) - trailing_zeros(index + 1) - 1) as nat
}

/// Positions, sizes and leaf indices stay below this bound; it keeps
/// every intermediate position computation inside `u64`.
pub const MAX_LEAVES: u64 = 0x1000_0000_0000_0000;

/// Compute the all-ones cover of `pos`.
pub fn cover_ones_exec(pos: u64) -> (r: u64)
    requires
        pos < 0x8000_0000_0000_0000u64,
    ensures
        r as nat == cover_ones(pos as nat),
        r as nat <= 2 * pos as nat + 1,
{
    let mut p: u64 = pos;
    let mut c: u64 = 0;
    proof {
        assert((0nat + 1) * (pos as nat) == pos as nat) by (nonlinear_arith);
    }
    while p > 0
        invariant
            pos < 0x8000_0000_0000_0000u64,
            cover_fold(c as nat, p as nat) == cover_ones(pos as nat),
            (c as nat + 1) * (p as nat) <= pos as nat,
            c as nat <= 2 * pos as nat + 1,
        decreases p,
    {
        proof {
            vstd::arithmetic::mul::lemma_mul_inequality(1, p as int, c as int + 1);
            assert((c as nat + 1) * 1 == c as nat + 1) by (nonlinear_arith);
            assert(c as int + 1 <= (c as int + 1) * (p as int)) by {
                assert((c as int + 1) * 1 <= (c as int + 1) * (p as int)) by (nonlinear_arith)
                    requires
                        p as int >= 1,
                        c as int + 1 >= 0;
            }
            assert(2 * (p as int / 2) <= p as int);
            assert((2 * (c as int + 1)) * (p as int / 2) <= (c as int + 1) * (p as int))
                by (nonlinear_arith)
                requires
                    2 * (p as int / 2) <= p as int,
                    c as int + 1 >= 0;
            assert(c as int + 1 <= pos as int);
        }
        c = c * 2 + 1;
        p = p / 2;
    }
    c
}

/// `pow2` never shrinks as the exponent grows.
pub proof fn lemma_pow2_le(a: nat, b: nat)
    requires
        a <= b,
    ensures
        pow2(a) <= pow2(b),
        pow2(a) >= 1,
    decreases b,
{
    if b > 0 {
        if a == b {
            lemma_pow2_le(0, (b - 1) as nat);
        } else {
            lemma_pow2_le(a, (b - 1) as nat);
        }
    }
}

/// Compute `2^n` for exponents that fit a position.
pub fn pow2_exec(n: u64) -> (r: u64)
    requires
        n <= 62,
    ensures
        r as nat == pow2(n as nat),
{
    let mut r: u64 = 1;
    let mut i: u64 = 0;
    while i < n
        invariant
            i <= n,
            n <= 62,
            r as nat == pow2(i as nat),
        decreases n - i,
    {
        proof {
            lemma_pow2_le((i + 1) as nat, 62);
            reveal_with_fuel(pow2, 1);
            assert(pow2((i + 1) as nat) == 2 * pow2(i as nat));
            assert(pow2(62) < 0x1_0000_0000_0000_0000) by {
                lemma_pow2_63();
            }
        }
        r = r * 2;
        i = i + 1;
    }
    r
}

/// `2^63` as a concrete bound.
pub proof fn lemma_pow2_63()
    ensures
        pow2(62) == 0x4000_0000_0000_0000,
        pow2(63) == 0x8000_0000_0000_0000,
{
    reveal_with_fuel(pow2, 64);
}

/// Compute the height of the node at `pos`.
pub fn pos_height_exec(pos: u64) -> (r: u64)
    requires
        pos < 0x8000_0000_0000_0000u64,
    ensures
        r as nat == pos_height(pos as nat),
{
    let cover = cover_ones_exec(pos);
    let mut p: u64 = pos;
    let mut peak: u64 = cover;
    while peak > 0
        invariant
            height_walk(p as nat, peak as nat) == pos_height(pos as nat),
        decreases peak,
    {
        if p >= peak {
            p = p - peak;
        }
        peak = peak / 2;
    }
    p
}

/// Compute the peak positions of an MMR of `mmr_size` nodes, in order.
pub fn get_peaks(mmr_size: u64) -> (r: Vec<u64>)
    requires
        mmr_size < 0x4000_0000_0000_0000u64,
    ensures
        r@.map_values(|x: u64| x as nat) == spec_get_peaks(mmr_size as nat),
        forall|i: int| 0 <= i < r@.len() ==> r@[i] < mmr_size,
    decreases 0nat,
{
    let mut out: Vec<u64> = Vec::new();
    if mmr_size == 0 {
        proof {
            assert(out@.map_values(|x: u64| x as nat) =~= spec_get_peaks(0));
        }
        return out;
    }
    let cover = cover_ones_exec(mmr_size);
    let mut pos: u64 = mmr_size;
    let mut peak: u64 = cover;
    let mut sum: u64 = 0;
    proof {
        assert(out@.map_values(|x: u64| x as nat) + peaks_walk(
            pos as nat,
            peak as nat,
            sum as nat,
        ) =~= peaks_walk(pos as nat, peak as nat, sum as nat));
    }
    while peak > 0
        invariant
            mmr_size < 0x4000_0000_0000_0000u64,
            sum + pos == mmr_size,
            peak as nat <= 2 * mmr_size as nat + 1,
            spec_get_peaks(mmr_size as nat) == out@.map_values(|x: u64| x as nat) + peaks_walk(
                pos as nat,
                peak as nat,
                sum as nat,
            ),
            forall|i: int| 0 <= i < out@.len() ==> out@[i] < mmr_size,
        decreases peak,
    {
        if pos >= peak {
            let ghost prev = out@;
            let ghost opos = pos as nat;
            let ghost osum = sum as nat;
            out.push(sum + peak - 1);
            pos = pos - peak;
            sum = sum + peak;
            proof {
                assert(peaks_walk(opos, peak as nat, osum) == seq![(osum + peak - 1) as nat]
                    + peaks_walk(pos as nat, (peak / 2) as nat, sum as nat));
                assert(out@.map_values(|x: u64| x as nat) =~= prev.map_values(
                    |x: u64| x as nat,
                ).push((osum + peak - 1) as nat));
                assert(out@.map_values(|x: u64| x as nat) + peaks_walk(
                    pos as nat,
                    (peak / 2) as nat,
                    sum as nat,
                ) =~= prev.map_values(|x: u64| x as nat) + peaks_walk(opos, peak as nat, osum));
            }
        } else {
            proof {
                assert(peaks_walk(pos as nat, peak as nat, sum as nat) == peaks_walk(
                    pos as nat,
                    (peak / 2) as nat,
                    sum as nat,
                ));
            }
        }
        peak = peak / 2;
    }
    proof {
        assert(peaks_walk(pos as nat, 0, sum as nat) =~= Seq::<nat>::empty());
        assert(out@.map_values(|x: u64| x as nat) + peaks_walk(pos as nat, 0, sum as nat)
            =~= out@.map_values(|x: u64| x as nat));
    }
    out
}

/// Count the set bits of `n`.
pub fn popcount_exec(n: u64) -> (r: u64)
    ensures
        r as nat == popcount(n as nat),
{
    let mut v: u64 = n;
    let mut acc: u64 = 0;
    proof {
        lemma_popcount_le(n as nat);
    }
    while v > 0
        invariant
            acc as nat + popcount(v as nat) == popcount(n as nat),
            acc <= n,
            popcount(n as nat) <= n,
        decreases v,
    {
        proof {
            lemma_popcount_le(v as nat);
            lemma_popcount_le(n as nat);
        }
        if v % 2 == 1 {
            acc = acc + 1;
        }
        v = v / 2;
    }
    acc
}

/// A number has no more set bits than its own size.
pub proof fn lemma_popcount_le(n: nat)
    ensures
        popcount(n) <= n,
    decreases n,
{
    if n > 0 {
        lemma_popcount_le(n / 2);
    }
}

/// Count the trailing zero bits of `n`.
pub fn trailing_zeros_exec(n: u64) -> (r: u64)
    requires
        n > 0,
    ensures
        r as nat == trailing_zeros(n as nat),
{
    let mut v: u64 = n;
    let mut acc: u64 = 0;
    proof {
        lemma_trailing_zeros_lt(n as nat);
    }
    while v % 2 == 0
        invariant
            v > 0,
            acc as nat + trailing_zeros(v as nat) == trailing_zeros(n as nat),
            acc <= n,
            trailing_zeros(n as nat) < n,
        decreases v,
    {
        proof {
            lemma_trailing_zeros_lt(v as nat);
            lemma_trailing_zeros_lt(n as nat);
        }
        acc = acc + 1;
        v = v / 2;
    }
    acc
}

/// A positive number has fewer trailing zeros than its own size.
pub proof fn lemma_trailing_zeros_lt(n: nat)
    requires
        n > 0,
    ensures
        trailing_zeros(n) < n,
    decreases n,
{
    if n % 2 == 0 {
        lemma_trailing_zeros_lt(n / 2);
    }
}

/// The node count of an MMR whose last leaf has index `index`.
pub fn leaf_index_to_mmr_size(index: u64) -> (r: u64)
    requires
        index < MAX_LEAVES,
    ensures
        r as nat == spec_leaf_index_to_mmr_size(index as nat),
{
    let pc = popcount_exec(index + 1);
    proof {
        lemma_popcount_positive((index + 1) as nat);
        lemma_popcount_le((index + 1) as nat);
    }
    2 * (index + 1) - pc
}

/// A positive number has at least one set bit.
pub proof fn lemma_popcount_positive(n: nat)
    requires
        n > 0,
    ensures
        popcount(n) >= 1,
    decreases n,
{
    if n % 2 == 0 {
        lemma_popcount_positive(n / 2);
    }
}

/// The post-order position of leaf `index`.
pub fn leaf_index_to_pos(index: u64) -> (r: u64)
    requires
        index < MAX_LEAVES,
    ensures
        r as nat == spec_leaf_index_to_pos(index as nat),
{
    let size = leaf_index_to_mmr_size(index);
    let tz = trailing_zeros_exec(index + 1);
    proof {
        lemma_trailing_zeros_lt((index + 1) as nat);
        lemma_popcount_le((index + 1) as nat);
        assert(spec_leaf_index_to_mmr_size(index as nat) >= index as nat + 1);
    }
    size - tz - 1
}

/// The view of an exec climb queue.
pub open spec fn queue_view(q: Seq<(u64, [u8; 32], u64)>) -> Seq<(nat, Seq<u8>, nat)> {
    q.map_values(|e: (u64, [u8; 32], u64)| (e.0 as nat, e.1@, e.2 as nat))
}

/// The view of an exec proof-item list.
pub open spec fn proof_view(p: Seq<[u8; 32]>) -> Seq<Seq<u8>> {
    p.map_values(|h: [u8; 32]| h@)
}

/// Climb one peak's tree from the seed queue, taking missing siblings
/// from `proof` starting at `*pidx`.
fn peak_root_exec(
    init: &Vec<(u64, [u8; 32], u64)>,
    peak_pos: u64,
    proof: &Vec<[u8; 32]>,
    pidx: &mut usize,
) -> (r: Option<[u8; 32]>)
    requires
        peak_pos < 0x4000_0000_0000_0000u64,
        forall|i: int|
            0 <= i < init@.len() ==> (#[trigger] init@[i]).0 <= peak_pos && init@[i].2 == 0,
        *old(pidx) <= proof@.len(),
    ensures
        *final(pidx) <= proof@.len(),
        match r {
            Option::None => spec_peak_root(
                queue_view(init@),
                peak_pos as nat,
                proof_view(proof@).skip(*old(pidx) as int),
            ) is None,
            Option::Some(h) => spec_peak_root(
                queue_view(init@),
                peak_pos as nat,
                proof_view(proof@).skip(*old(pidx) as int),
            ) == Option::Some((h@, proof_view(proof@).skip(*final(pidx) as int))),
        },
{
    let mut queue: Vec<(u64, [u8; 32], u64)> = Vec::new();
    let n = init.len();
    let mut c: usize = 0;
    while c < n
        invariant
            c <= n,
            n == init@.len(),
            queue@ == init@.take(c as int),
        decreases n - c,
    {
        queue.push(init[c]);
        proof {
            assert(queue@ =~= init@.take(c + 1));
        }
        c = c + 1;
    }
    proof {
        assert(queue@ =~= init@);
        assert(queue@.skip(0) =~= queue@);
    }
    let mut head: usize = 0;
    while head < queue.len()
        invariant
            peak_pos < 0x4000_0000_0000_0000u64,
            head <= queue@.len(),
            *old(pidx) <= *pidx <= proof@.len(),
            forall|i: int|
                0 <= i < init@.len() ==> (#[trigger] init@[i]).0 <= peak_pos && init@[i].2 == 0,
            forall|i: int|
                head <= i < queue@.len() ==> (#[trigger] queue@[i]).0 <= peak_pos,
            spec_peak_root(
                queue_view(queue@.skip(head as int)),
                peak_pos as nat,
                proof_view(proof@).skip(*pidx as int),
            ) == spec_peak_root(
                queue_view(init@),
                peak_pos as nat,
                proof_view(proof@).skip(*old(pidx) as int),
            ),
        decreases (queue@.len() - head) + (proof@.len() - *pidx),
    {
        let ghost cur_q = queue_view(queue@.skip(head as int));
        let ghost cur_p = proof_view(proof@).skip(*pidx as int);
        let (pos, item, height) = queue[head];
        proof {
            assert(cur_q[0] == (pos as nat, item@, height as nat));
        }
        if pos == peak_pos {
            if head + 1 == queue.len() {
                proof {
                    assert(cur_q.len() == 1);
                    assert(spec_peak_root(cur_q, peak_pos as nat, cur_p) == Option::Some(
                        (item@, cur_p),
                    ));
                }
                return Option::Some(item);
            }
            proof {
                assert(cur_q.len() != 1);
                assert(spec_peak_root(cur_q, peak_pos as nat, cur_p) is None);
            }
            return Option::None;
        }
        if height > 62 {
            return Option::None;
        }
        let next_height = pos_height_exec(pos + 1);
        let p2 = pow2_exec(height);
        proof {
            lemma_pow2_le(height as nat, 62);
            lemma_pow2_63();
        }
        let sib_off = 2 * p2 - 1;
        let has_queue_sib = head + 1 < queue.len();
        if next_height > height {
            // `pos` is a right child.
            if pos < sib_off {
                return Option::None;
            }
            let sib_pos = pos - sib_off;
            let parent_pos = pos + 1;
            if parent_pos > peak_pos {
                return Option::None;
            }
            if has_queue_sib && queue[head + 1].0 == sib_pos {
                let sib = queue[head + 1];
                let parent = crate::hash::merge_nodes(&sib.1, &item);
                let ghost prev = queue@;
                queue.push((parent_pos, parent, height + 1));
                proof {
                    assert(cur_q[1] == (sib.0 as nat, sib.1@, sib.2 as nat));
                    assert(queue_view(queue@.skip(head + 2)) =~= queue_view(
                        prev.skip(head as int),
                    ).skip(2).push((parent_pos as nat, parent@, (height + 1) as nat)));
                }
                head = head + 2;
            } else {
                if *pidx >= proof.len() {
                    proof {
                        assert(cur_p.len() == 0);
                    }
                    return Option::None;
                }
                let sib = proof[*pidx];
                let parent = crate::hash::merge_nodes(&sib, &item);
                let ghost prev = queue@;
                queue.push((parent_pos, parent, height + 1));
                proof {
                    assert(cur_p[0] == sib@);
                    assert(queue_view(queue@.skip(head + 1)) =~= queue_view(
                        prev.skip(head as int),
                    ).skip(1).push((parent_pos as nat, parent@, (height + 1) as nat)));
                    assert(proof_view(proof@).skip(*pidx + 1) =~= cur_p.drop_first());
                }
                *pidx = *pidx + 1;
                head = head + 1;
            }
        } else {
            // `pos` is a left child.
            let sib_pos = pos + sib_off;
            let parent_pos = pos + 2 * p2;
            if parent_pos > peak_pos {
                return Option::None;
            }
            if has_queue_sib && queue[head + 1].0 == sib_pos {
                let sib = queue[head + 1];
                let parent = crate::hash::merge_nodes(&item, &sib.1);
                let ghost prev = queue@;
                queue.push((parent_pos, parent, height + 1));
                proof {
                    assert(cur_q[1] == (sib.0 as nat, sib.1@, sib.2 as nat));
                    assert(queue_view(queue@.skip(head + 2)) =~= queue_view(
                        prev.skip(head as int),
                    ).skip(2).push((parent_pos as nat, parent@, (height + 1) as nat)));
                }
                head = head + 2;
            } else {
                if *pidx >= proof.len() {
                    proof {
                        assert(cur_p.len() == 0);
                    }
                    return Option::None;
                }
                let sib = proof[*pidx];
                let parent = crate::hash::merge_nodes(&item, &sib);
                let ghost prev = queue@;
                queue.push((parent_pos, parent, height + 1));
                proof {
                    assert(cur_p[0] == sib@);
                    assert(queue_view(queue@.skip(head + 1)) =~= queue_view(
                        prev.skip(head as int),
                    ).skip(1).push((parent_pos as nat, parent@, (height + 1) as nat)));
                    assert(proof_view(proof@).skip(*pidx + 1) =~= cur_p.drop_first());
                }
                *pidx = *pidx + 1;
                head = head + 1;
            }
        }
    }
    proof {
        assert(queue_view(queue@.skip(head as int)).len() == 0);
    }
    Option::None
}

/// The view of an exec leaf list.
pub open spec fn leaves_exec_view(l: Seq<(u64, [u8; 32])>) -> Seq<(nat, Seq<u8>)> {
    l.map_values(|e: (u64, [u8; 32])| (e.0 as nat, e.1@))
}

/// Prepend already-resolved peak hashes to a walk's outcome.
pub open spec fn opt_prepend(
    acc: Seq<Seq<u8>>,
    o: Option<(Seq<Seq<u8>>, Seq<Seq<u8>>)>,
) -> Option<(Seq<Seq<u8>>, Seq<Seq<u8>>)> {
    match o {
        Option::Some((hashes, rest)) => Option::Some((acc + hashes, rest)),
        Option::None => Option::None,
    }
}

/// Resolve every peak of the structure, mirroring
/// `spec_peaks_hashes`.
#[verifier::rlimit(80)]
fn calculate_peaks_hashes(
    leaves: &Vec<(u64, [u8; 32])>,
    mmr_size: u64,
    proof: &Vec<[u8; 32]>,
) -> (r: Option<Vec<[u8; 32]>>)
    requires
        mmr_size < 0x4000_0000_0000_0000u64,
        forall|i: int|
            0 <= i < leaves@.len() ==> (#[trigger] leaves@[i]).0 < 0x4000_0000_0000_0000u64,
    ensures
        match r {
            Option::None => spec_peaks_hashes(
                leaves_exec_view(leaves@),
                mmr_size as nat,
                proof_view(proof@),
            ) is None,
            Option::Some(v) => spec_peaks_hashes(
                leaves_exec_view(leaves@),
                mmr_size as nat,
                proof_view(proof@),
            ) == Option::Some(proof_view(v@)),
        },
{
    let ghost lv = leaves_exec_view(leaves@);
    let ghost pv = proof_view(proof@);
    let n_leaves = leaves.len();
    let mut i: usize = 0;
    while i < n_leaves
        invariant
            i <= n_leaves,
            n_leaves == leaves@.len(),
            lv == leaves_exec_view(leaves@),
            forall|k: int|
                0 <= k < leaves@.len() ==> (#[trigger] leaves@[k]).0 < 0x4000_0000_0000_0000u64,
            forall|k: int| 0 <= k < i ==> pos_height(#[trigger] lv[k].0) == 0,
        decreases n_leaves - i,
    {
        let h = pos_height_exec(leaves[i].0);
        if h != 0 {
            proof {
                assert(lv[i as int].0 == leaves@[i as int].0 as nat);
                assert(!all_leaf_positions(lv));
            }
            return Option::None;
        }
        i = i + 1;
    }
    proof {
        assert(all_leaf_positions(lv));
    }
    if mmr_size == 1 && leaves.len() == 1 {
        if leaves[0].0 == 0 {
            let mut out: Vec<[u8; 32]> = Vec::new();
            out.push(leaves[0].1);
            proof {
                assert(proof_view(out@) =~= seq![lv[0].1]);
            }
            return Option::Some(out);
        }
        proof {
            assert(lv[0].0 == leaves@[0].0 as nat);
        }
    }
    let peaks = get_peaks(mmr_size);
    let ghost pk = peaks@.map_values(|x: u64| x as nat);
    let n_peaks = peaks.len();
    let mut out: Vec<[u8; 32]> = Vec::new();
    let mut li: usize = 0;
    let mut pi: usize = 0;
    let mut pidx: usize = 0;
    proof {
        assert(pk =~= spec_get_peaks(mmr_size as nat));
        assert(lv.skip(0) =~= lv);
        assert(pk.skip(0) =~= pk);
        assert(pv.skip(0) =~= pv);
        assert(proof_view(out@) + Seq::<Seq<u8>>::empty() =~= proof_view(out@));
        assert(opt_prepend(
            proof_view(out@),
            spec_peaks_hashes_walk(lv, pk, pv),
        ) == spec_peaks_hashes_walk(lv, pk, pv)) by {
            match spec_peaks_hashes_walk(lv, pk, pv) {
                Option::Some((hashes, rest)) => {
                    assert(proof_view(out@) + hashes =~= hashes);
                },
                Option::None => {},
            }
        }
    }
    while pi < n_peaks
        invariant
            mmr_size < 0x4000_0000_0000_0000u64,
            n_peaks == peaks@.len(),
            n_leaves == leaves@.len(),
            lv == leaves_exec_view(leaves@),
            pv == proof_view(proof@),
            pk == peaks@.map_values(|x: u64| x as nat),
            pk == spec_get_peaks(mmr_size as nat),
            pi <= n_peaks,
            li <= n_leaves,
            pidx <= proof@.len(),
            forall|k: int| 0 <= k < peaks@.len() ==> (#[trigger] peaks@[k]) < mmr_size,
            forall|k: int|
                0 <= k < leaves@.len() ==> (#[trigger] leaves@[k]).0 < 0x4000_0000_0000_0000u64,
            all_leaf_positions(lv),
            !(mmr_size == 1 && lv.len() == 1 && lv[0].0 == 0),
            opt_prepend(
                proof_view(out@),
                spec_peaks_hashes_walk(lv.skip(li as int), pk.skip(pi as int), pv.skip(pidx as int)),
            ) == spec_peaks_hashes_walk(lv, pk, pv),
        decreases n_peaks - pi,
    {
        let ghost cur_walk = spec_peaks_hashes_walk(
            lv.skip(li as int),
            pk.skip(pi as int),
            pv.skip(pidx as int),
        );
        let peak = peaks[pi];
        proof {
            assert(pk.skip(pi as int)[0] == peak as nat);
            assert(pk.skip(pi as int).drop_first() =~= pk.skip(pi + 1));
        }
        // Gather the leaves under this peak.
        let mut j: usize = li;
        proof {
            assert(leading_leaves(lv.skip(li as int), peak as nat) =~= lv.subrange(
                li as int,
                j as int,
            ) + leading_leaves(lv.skip(j as int), peak as nat));
        }
        while j < n_leaves && leaves[j].0 <= peak
            invariant
                li <= j <= n_leaves,
                n_leaves == leaves@.len(),
                lv == leaves_exec_view(leaves@),
                forall|k: int| li <= k < j ==> (#[trigger] lv[k]).0 <= peak as nat,
                leading_leaves(lv.skip(li as int), peak as nat) == lv.subrange(li as int, j as int)
                    + leading_leaves(lv.skip(j as int), peak as nat),
            decreases n_leaves - j,
        {
            proof {
                assert(lv.skip(j as int)[0] == lv[j as int]);
                assert(lv.skip(j as int).drop_first() =~= lv.skip(j + 1));
                assert(leading_leaves(lv.skip(j as int), peak as nat) == seq![lv[j as int]]
                    + leading_leaves(lv.skip(j + 1), peak as nat));
                assert(lv.subrange(li as int, j as int) + (seq![lv[j as int]] + leading_leaves(
                    lv.skip(j + 1),
                    peak as nat,
                )) =~= lv.subrange(li as int, j + 1) + leading_leaves(lv.skip(j + 1), peak as nat));
            }
            j = j + 1;
        }
        proof {
            if j < n_leaves {
                assert(leading_leaves(lv.skip(j as int), peak as nat) =~= Seq::<
                    (nat, Seq<u8>),
                >::empty());
            } else {
                assert(lv.skip(j as int) =~= Seq::<(nat, Seq<u8>)>::empty());
                assert(leading_leaves(lv.skip(j as int), peak as nat) =~= Seq::<
                    (nat, Seq<u8>),
                >::empty());
            }
            assert(lv.subrange(li as int, j as int) + Seq::<(nat, Seq<u8>)>::empty() =~= lv.subrange(
                li as int,
                j as int,
            ));
            assert(leading_leaves(lv.skip(li as int), peak as nat) == lv.subrange(
                li as int,
                j as int,
            ));
            assert(lv.skip(li as int).skip((j - li) as int) =~= lv.skip(j as int));
        }
        let count = j - li;
        if count == 1 && leaves[li].0 == peak {
            let ghost prev = out@;
            out.push(leaves[li].1);
            proof {
                let here = leading_leaves(lv.skip(li as int), peak as nat);
                assert(here[0] == lv[li as int]);
                match spec_peaks_hashes_walk(lv.skip(j as int), pk.skip(pi + 1), pv.skip(pidx as int)) {
                    Option::Some((hashes, rest)) => {
                        assert(cur_walk == Option::Some((seq![here[0].1] + hashes, rest)));
                        assert(proof_view(out@) + hashes =~= proof_view(prev) + (seq![here[0].1]
                            + hashes));
                    },
                    Option::None => {
                        assert(cur_walk is None);
                    },
                }
            }
            li = j;
            pi = pi + 1;
        } else if count == 0 {
            if pidx < proof.len() {
                let ghost prev = out@;
                out.push(proof[pidx]);
                proof {
                    let here = leading_leaves(lv.skip(li as int), peak as nat);
                    assert(here.len() == 0);
                    assert(pv.skip(pidx as int)[0] == pv[pidx as int]);
                    assert(pv.skip(pidx as int).drop_first() =~= pv.skip(pidx + 1));
                    match spec_peaks_hashes_walk(lv.skip(j as int), pk.skip(pi + 1), pv.skip(pidx + 1)) {
                        Option::Some((hashes, rest)) => {
                            assert(cur_walk == Option::Some((seq![pv[pidx as int]] + hashes, rest)));
                            assert(proof_view(out@) + hashes =~= proof_view(prev) + (seq![
                                pv[pidx as int],
                            ] + hashes));
                        },
                        Option::None => {
                            assert(cur_walk is None);
                        },
                    }
                }
                pidx = pidx + 1;
                pi = pi + 1;
            } else if li == n_leaves {
                proof {
                    let here = leading_leaves(lv.skip(li as int), peak as nat);
                    assert(here.len() == 0);
                    assert(lv.skip(li as int).len() == 0);
                    assert(pv.skip(pidx as int).len() == 0);
                    assert(cur_walk == Option::Some((
                        Seq::<Seq<u8>>::empty(),
                        pv.skip(pidx as int),
                    )));
                    assert(proof_view(out@) + Seq::<Seq<u8>>::empty() =~= proof_view(out@));
                    assert(spec_peaks_hashes_walk(lv, pk, pv) == Option::Some((
                        proof_view(out@),
                        pv.skip(pidx as int),
                    )));
                }
                return Option::Some(out);
            } else {
                proof {
                    let here = leading_leaves(lv.skip(li as int), peak as nat);
                    assert(here.len() == 0);
                    assert(lv.skip(li as int).len() > 0);
                    assert(pv.skip(pidx as int).len() == 0);
                    assert(cur_walk is None);
                }
                return Option::None;
            }
        } else {
            // Climb this peak from its leaves.
            let mut seed: Vec<(u64, [u8; 32], u64)> = Vec::new();
            let mut c: usize = li;
            while c < j
                invariant
                    li <= c <= j,
                    j <= n_leaves,
                    n_leaves == leaves@.len(),
                    lv == leaves_exec_view(leaves@),
                    forall|k: int| li <= k < j ==> (#[trigger] lv[k]).0 <= peak as nat,
                    seed@.len() == c - li,
                    forall|k: int|
                        0 <= k < seed@.len() ==> #[trigger] seed@[k] == (
                            leaves@[li + k].0,
                            leaves@[li + k].1,
                            0u64,
                        ),
                decreases j - c,
            {
                seed.push((leaves[c].0, leaves[c].1, 0u64));
                c = c + 1;
            }
            proof {
                assert(queue_view(seed@) =~= with_zero_heights(
                    leading_leaves(lv.skip(li as int), peak as nat),
                ));
                assert forall|k: int|
                    0 <= k < seed@.len() implies (#[trigger] seed@[k]).0 <= peak && seed@[k].2
                    == 0 by {
                    assert(lv[li + k] == (leaves@[li + k].0 as nat, leaves@[li + k].1@));
                    assert(lv[li + k].0 <= peak as nat);
                }
            }
            let ghost pidx_before = pidx as int;
            let root = peak_root_exec(&seed, peak, proof, &mut pidx);
            match root {
                Option::None => {
                    proof {
                        assert(cur_walk is None);
                    }
                    return Option::None;
                },
                Option::Some(h) => {
                    let ghost prev = out@;
                    out.push(h);
                    proof {
                        let here = leading_leaves(lv.skip(li as int), peak as nat);
                        assert(spec_peak_root(with_zero_heights(here), peak as nat, pv.skip(pidx_before))
                            == Option::Some((h@, pv.skip(pidx as int))));
                        match spec_peaks_hashes_walk(lv.skip(j as int), pk.skip(pi + 1), pv.skip(pidx as int)) {
                            Option::Some((hashes, rest)) => {
                                assert(cur_walk == Option::Some((seq![h@] + hashes, rest)));
                                assert(proof_view(out@) + hashes =~= proof_view(prev) + (seq![h@]
                                    + hashes));
                            },
                            Option::None => {
                                assert(cur_walk is None);
                            },
                        }
                    }
                    li = j;
                    pi = pi + 1;
                },
            }
        }
    }
    proof {
        assert(pk.skip(pi as int).len() == 0);
    }
    if li < n_leaves {
        proof {
            assert(lv.skip(li as int).len() > 0);
        }
        return Option::None;
    }
    proof {
        assert(lv.skip(li as int).len() == 0);
        assert(spec_peaks_hashes_walk(
            lv.skip(li as int),
            pk.skip(pi as int),
            pv.skip(pidx as int),
        ) == Option::Some((Seq::<Seq<u8>>::empty(), pv.skip(pidx as int))));
        assert(proof_view(out@) + Seq::<Seq<u8>>::empty() =~= proof_view(out@));
        assert(spec_peaks_hashes_walk(lv, pk, pv) == Option::Some((
            proof_view(out@),
            pv.skip(pidx as int),
        )));
    }
    if pidx < proof.len() {
        let ghost prev = out@;
        out.push(proof[pidx]);
        proof {
            assert(pv.skip(pidx as int)[0] == pv[pidx as int]);
            assert(proof_view(out@) =~= proof_view(prev).push(pv[pidx as int]));
        }
        pidx = pidx + 1;
        if pidx < proof.len() {
            return Option::None;
        }
        return Option::Some(out);
    }
    Option::Some(out)
}

/// Bag peak hashes into the single MMR root.
fn bag_peaks(hashes: &Vec<[u8; 32]>) -> (r: Option<[u8; 32]>)
    ensures
        match r {
            Option::None => spec_bag(proof_view(hashes@)) is None,
            Option::Some(h) => spec_bag(proof_view(hashes@)) == Option::Some(h@),
        },
{
    let mut v: Vec<[u8; 32]> = Vec::new();
    let n = hashes.len();
    let mut c: usize = 0;
    while c < n
        invariant
            c <= n,
            n == hashes@.len(),
            v@ == hashes@.take(c as int),
        decreases n - c,
    {
        v.push(hashes[c]);
        proof {
            assert(v@ =~= hashes@.take(c + 1));
        }
        c = c + 1;
    }
    proof {
        assert(v@ =~= hashes@);
    }
    while v.len() > 1
        invariant
            spec_bag(proof_view(v@)) == spec_bag(proof_view(hashes@)),
        decreases v@.len(),
    {
        let ghost s = proof_view(v@);
        let right = v.pop().unwrap();
        let left = v.pop().unwrap();
        let parent = crate::hash::merge_nodes(&right, &left);
        v.push(parent);
        proof {
            assert(proof_view(v@) =~= s.take(s.len() - 2).push(
                crate::hash::merge_hash(s[s.len() - 1], s[s.len() - 2]),
            ));
        }
    }
    if v.len() == 0 {
        return Option::None;
    }
    let root = v[0];
    proof {
        assert(proof_view(v@).len() == 1);
        assert(proof_view(v@)[0] == root@);
    }
    Option::Some(root)
}

/// Compute the root an inclusion proof binds the given
/// position-addressed leaves to.
pub fn calculate_root(
    leaves: &Vec<(u64, [u8; 32])>,
    mmr_size: u64,
    proof: &Vec<[u8; 32]>,
) -> (r: Option<[u8; 32]>)
    requires
        mmr_size < 0x4000_0000_0000_0000u64,
        forall|i: int|
            0 <= i < leaves@.len() ==> (#[trigger] leaves@[i]).0 < 0x4000_0000_0000_0000u64,
    ensures
        match r {
            Option::None => spec_calculate_root(
                leaves_exec_view(leaves@),
                mmr_size as nat,
                proof_view(proof@),
            ) is None,
            Option::Some(h) => spec_calculate_root(
                leaves_exec_view(leaves@),
                mmr_size as nat,
                proof_view(proof@),
            ) == Option::Some(h@),
        },
{
    match calculate_peaks_hashes(leaves, mmr_size, proof) {
        Option::None => Option::None,
        Option::Some(hashes) => bag_peaks(&hashes),
    }
}

/// A found index is a valid index of the searched row.
pub proof fn lemma_find_ge_bounds(s: Seq<nat>, v: nat)
    ensures
        match find_ge(s, v) {
            Option::Some(i) => 0 <= i < s.len(),
            Option::None => true,
        },
    decreases s.len(),
{
    if s.len() > 0 && !(s[0] >= v) {
        lemma_find_ge_bounds(s.drop_first(), v);
    }
}

/// The first index of a peak position not before `v`.
pub open spec fn find_ge(s: Seq<nat>, v: nat) -> Option<int>
    decreases s.len(),
{
    if s.len() == 0 {
        Option::None
    } else if s[0] >= v {
        Option::Some(0int)
    } else {
        match find_ge(s.drop_first(), v) {
            Option::Some(i) => Option::Some(i + 1),
            Option::None => Option::None,
        }
    }
}

/// The root of the structure that holds the proved leaves and one more
/// appended at `new_pos`, computed from a proof against the old
/// structure.  When the new leaf merges upward, the old peak row is
/// re-bagged around it; otherwise the new leaf joins the proved ones.
pub open spec fn spec_calculate_root_with_new_leaf(
    leaves: Seq<(nat, Seq<u8>)>,
    mmr_size: nat,
    new_pos: nat,
    new_hash: Seq<u8>,
    new_mmr_size: nat,
    proof: Seq<Seq<u8>>,
) -> Option<Seq<u8>> {
    if pos_height(new_pos + 1) > pos_height(new_pos) {
        match spec_peaks_hashes(leaves, mmr_size, proof) {
            Option::None => Option::None,
            Option::Some(ph) => match find_ge(spec_get_peaks(new_mmr_size), new_pos) {
                Option::None => Option::None,
                Option::Some(i) => {
                    if i > ph.len() {
                        Option::None
                    } else {
                        spec_calculate_root(
                            seq![(new_pos, new_hash)],
                            new_mmr_size,
                            ph.take(i) + ph.skip(i).reverse(),
                        )
                    }
                },
            },
        }
    } else {
        spec_calculate_root(leaves.push((new_pos, new_hash)), new_mmr_size, proof)
    }
}

/// Compute the appended-root of `spec_calculate_root_with_new_leaf`.
pub fn calculate_root_with_new_leaf(
    leaves: &Vec<(u64, [u8; 32])>,
    mmr_size: u64,
    new_pos: u64,
    new_hash: [u8; 32],
    new_mmr_size: u64,
    proof: &Vec<[u8; 32]>,
) -> (r: Option<[u8; 32]>)
    requires
        mmr_size < 0x4000_0000_0000_0000u64,
        new_mmr_size < 0x4000_0000_0000_0000u64,
        new_pos < 0x4000_0000_0000_0000u64,
        forall|i: int|
            0 <= i < leaves@.len() ==> (#[trigger] leaves@[i]).0 < 0x4000_0000_0000_0000u64,
    ensures
        match r {
            Option::None => spec_calculate_root_with_new_leaf(
                leaves_exec_view(leaves@),
                mmr_size as nat,
                new_pos as nat,
                new_hash@,
                new_mmr_size as nat,
                proof_view(proof@),
            ) is None,
            Option::Some(h) => spec_calculate_root_with_new_leaf(
                leaves_exec_view(leaves@),
                mmr_size as nat,
                new_pos as nat,
                new_hash@,
                new_mmr_size as nat,
                proof_view(proof@),
            ) == Option::Some(h@),
        },
{
    let h_pos = pos_height_exec(new_pos);
    let h_next = pos_height_exec(new_pos + 1);
    if h_next > h_pos {
        let ph = match calculate_peaks_hashes(leaves, mmr_size, proof) {
            Option::None => {
                return Option::None;
            },
            Option::Some(ph) => ph,
        };
        let peaks = get_peaks(new_mmr_size);
        let ghost pk = peaks@.map_values(|x: u64| x as nat);
        let np = peaks.len();
        let mut i: usize = 0;
        proof {
            assert(pk =~= spec_get_peaks(new_mmr_size as nat));
            assert(pk.skip(0) =~= pk);
            lemma_find_ge_bounds(pk, new_pos as nat);
        }
        while i < np && peaks[i] < new_pos
            invariant
                i <= np,
                np == peaks@.len(),
                pk == peaks@.map_values(|x: u64| x as nat),
                forall|k: int| 0 <= k < i ==> (#[trigger] peaks@[k]) < new_pos,
                match find_ge(pk, new_pos as nat) {
                    Option::Some(fi) => i <= fi && find_ge(pk.skip(i as int), new_pos as nat)
                        == Option::Some(fi - i),
                    Option::None => find_ge(pk.skip(i as int), new_pos as nat) is None,
                },
            decreases np - i,
        {
            proof {
                assert(pk.skip(i as int)[0] == peaks@[i as int] as nat);
                assert(pk.skip(i as int).drop_first() =~= pk.skip(i + 1));
                assert(pk.skip(i as int)[0] < new_pos as nat);
                match find_ge(pk.skip(i + 1), new_pos as nat) {
                    Option::Some(j) => {
                        lemma_find_ge_bounds(pk.skip(i + 1), new_pos as nat);
                        assert(find_ge(pk.skip(i as int), new_pos as nat) == Option::Some(j + 1));
                    },
                    Option::None => {
                        assert(find_ge(pk.skip(i as int), new_pos as nat) is None);
                    },
                }
            }
            i = i + 1;
        }
        proof {
            if i < np {
                assert(pk.skip(i as int)[0] == peaks@[i as int] as nat);
                assert(find_ge(pk.skip(i as int), new_pos as nat) == Option::Some(0int));
            } else {
                assert(pk.skip(i as int).len() == 0);
            }
        }
        if i == np {
            proof {
                assert(find_ge(pk, new_pos as nat) is None);
            }
            return Option::None;
        }
        proof {
            assert(find_ge(pk, new_pos as nat) == Option::Some(i as int));
        }
        if i > ph.len() {
            return Option::None;
        }
        // Re-bag the peak row: keep the left part, reverse the rest.
        let mut np2: Vec<[u8; 32]> = Vec::new();
        let mut c: usize = 0;
        while c < i
            invariant
                c <= i,
                i <= ph@.len(),
                np2@ == ph@.take(c as int),
            decreases i - c,
        {
            np2.push(ph[c]);
            proof {
                assert(np2@ =~= ph@.take(c + 1));
            }
            c = c + 1;
        }
        let mut d: usize = ph.len();
        while d > i
            invariant
                i <= d <= ph@.len(),
                i <= ph@.len(),
                np2@ == ph@.take(i as int) + ph@.skip(d as int).reverse(),
            decreases d - i,
        {
            np2.push(ph[d - 1]);
            proof {
                assert(ph@.skip(d - 1).reverse() =~= ph@.skip(d as int).reverse().push(
                    ph@[d - 1],
                ));
                assert(np2@ =~= ph@.take(i as int) + ph@.skip(d - 1).reverse());
            }
            d = d - 1;
        }
        proof {
            assert(proof_view(np2@) =~= proof_view(ph@).take(i as int) + proof_view(
                ph@,
            ).skip(i as int).reverse());
        }
        let mut single: Vec<(u64, [u8; 32])> = Vec::new();
        single.push((new_pos, new_hash));
        proof {
            assert(leaves_exec_view(single@) =~= seq![(new_pos as nat, new_hash@)]);
        }
        calculate_root(&single, new_mmr_size, &np2)
    } else {
        let mut all: Vec<(u64, [u8; 32])> = Vec::new();
        let n = leaves.len();
        let mut c: usize = 0;
        while c < n
            invariant
                c <= n,
                n == leaves@.len(),
                all@ == leaves@.take(c as int),
                forall|k: int|
                    0 <= k < leaves@.len() ==> (#[trigger] leaves@[k]).0
                        < 0x4000_0000_0000_0000u64,
            decreases n - c,
        {
            all.push(leaves[c]);
            proof {
                assert(all@ =~= leaves@.take(c + 1));
            }
            c = c + 1;
        }
        all.push((new_pos, new_hash));
        proof {
            assert(leaves_exec_view(all@) =~= leaves_exec_view(leaves@).push(
                (new_pos as nat, new_hash@),
            ));
        }
        calculate_root(&all, new_mmr_size, proof)
    }
}

/// Leaf positions and sizes stay within bounds for bounded indices.
pub proof fn lemma_leaf_pos_bounds(index: nat)
    ensures
        spec_leaf_index_to_mmr_size(index) <= 2 * (index + 1),
        spec_leaf_index_to_mmr_size(index) >= index + 1,
        spec_leaf_index_to_pos(index) < spec_leaf_index_to_mmr_size(index),
{
    lemma_popcount_le(index + 1);
    lemma_popcount_positive(index + 1);
    lemma_trailing_zeros_lt(index + 1);
}

/// Leaves addressed by leaf index rather than by position.
pub open spec fn indices_to_positions(leaves: Seq<(nat, Seq<u8>)>) -> Seq<(nat, Seq<u8>)> {
    leaves.map_values(|l: (nat, Seq<u8>)| (spec_leaf_index_to_pos(l.0), l.1))
}

/// The root a proof binds index-addressed leaves to, inside a structure
/// of `count` leaves; out-of-range counts and indices yield nothing.
pub open spec fn spec_compute_root_at_indices(
    leaves: Seq<(nat, Seq<u8>)>,
    count: nat,
    proof: Seq<Seq<u8>>,
) -> Option<Seq<u8>> {
    if count == 0 || count > MAX_LEAVES || exists|i: int|
        0 <= i < leaves.len() && (#[trigger] leaves[i]).0 >= MAX_LEAVES {
        Option::None
    } else {
        spec_calculate_root(
            indices_to_positions(leaves),
            spec_leaf_index_to_mmr_size((count - 1) as nat),
            proof,
        )
    }
}

/// Compute the root a proof binds index-addressed leaves to.
pub fn compute_root_at_indices(
    leaves: &Vec<(u64, [u8; 32])>,
    count: u64,
    proof: &Vec<[u8; 32]>,
) -> (r: Option<[u8; 32]>)
    ensures
        match r {
            Option::None => spec_compute_root_at_indices(
                leaves_exec_view(leaves@),
                count as nat,
                proof_view(proof@),
            ) is None,
            Option::Some(h) => spec_compute_root_at_indices(
                leaves_exec_view(leaves@),
                count as nat,
                proof_view(proof@),
            ) == Option::Some(h@),
        },
{
    let ghost lv = leaves_exec_view(leaves@);
    if count == 0 || count > MAX_LEAVES {
        return Option::None;
    }
    let n = leaves.len();
    let mut positioned: Vec<(u64, [u8; 32])> = Vec::new();
    let mut i: usize = 0;
    while i < n
        invariant
            i <= n,
            n == leaves@.len(),
            lv == leaves_exec_view(leaves@),
            leaves_exec_view(positioned@) == indices_to_positions(lv.take(i as int)),
            forall|k: int| 0 <= k < i ==> (#[trigger] lv[k]).0 < MAX_LEAVES as nat,
            forall|k: int|
                0 <= k < positioned@.len() ==> (#[trigger] positioned@[k]).0
                    < 0x4000_0000_0000_0000u64,
        decreases n - i,
    {
        let idx = leaves[i].0;
        if idx >= MAX_LEAVES {
            proof {
                assert(lv[i as int].0 == idx as nat);
                assert(exists|k: int|
                    0 <= k < lv.len() && (#[trigger] lv[k]).0 >= MAX_LEAVES as nat);
            }
            return Option::None;
        }
        let pos = leaf_index_to_pos(idx);
        proof {
            lemma_leaf_pos_bounds(idx as nat);
            assert(leaves_exec_view(positioned@).len() == positioned@.len());
            assert(indices_to_positions(lv.take(i as int)).len() == i);
        }
        let ghost prevp = positioned@;
        positioned.push((pos, leaves[i].1));
        proof {
            assert(lv.take(i + 1) =~= lv.take(i as int).push(lv[i as int]));
            assert(lv[i as int] == (idx as nat, leaves@[i as int].1@));
            assert(positioned@[i as int] == (pos, leaves@[i as int].1));
            assert(leaves_exec_view(positioned@)[i as int] == (
                spec_leaf_index_to_pos(idx as nat),
                leaves@[i as int].1@,
            ));
            assert forall|k: int| 0 <= k < i implies leaves_exec_view(positioned@)[k]
                == indices_to_positions(lv.take(i + 1))[k] by {
                assert(positioned@[k] == prevp[k]);
                assert(leaves_exec_view(positioned@)[k] == leaves_exec_view(prevp)[k]);
                assert(lv.take(i + 1)[k] == lv.take(i as int)[k]);
                assert(indices_to_positions(lv.take(i + 1))[k] == indices_to_positions(
                    lv.take(i as int),
                )[k]);
            }
            assert(leaves_exec_view(positioned@) =~= indices_to_positions(lv.take(i + 1)));
        }
        i = i + 1;
    }
    proof {
        assert(lv.take(n as int) =~= lv);
        assert(!(exists|k: int| 0 <= k < lv.len() && (#[trigger] lv[k]).0 >= MAX_LEAVES as nat));
    }
    let mmr_size = leaf_index_to_mmr_size(count - 1);
    proof {
        lemma_leaf_pos_bounds((count - 1) as nat);
    }
    calculate_root(&positioned, mmr_size, proof)
}

/// Compute the block root a proof binds the given `(number, hash)`
/// block entries to, inside a chain of `blocks_count` blocks.
pub fn compute_block_root(
    blocks: &Vec<(u64, [u8; 32])>,
    blocks_count: u64,
    proof: &Vec<[u8; 32]>,
) -> (r: Option<[u8; 32]>)
    ensures
        match r {
            Option::None => spec_compute_root_at_indices(
                leaves_exec_view(blocks@),
                blocks_count as nat,
                proof_view(proof@),
            ) is None,
            Option::Some(h) => spec_compute_root_at_indices(
                leaves_exec_view(blocks@),
                blocks_count as nat,
                proof_view(proof@),
            ) == Option::Some(h@),
        },
{
    compute_root_at_indices(blocks, blocks_count, proof)
}

/// Compute the transaction root a proof binds the given
/// `(index, tx_hash)` entries to, inside a block of `txs_count`
/// transactions.
pub fn compute_tx_root(
    txs: &Vec<(u64, [u8; 32])>,
    txs_count: u32,
    proof: &Vec<[u8; 32]>,
) -> (r: Option<[u8; 32]>)
    ensures
        match r {
            Option::None => spec_compute_root_at_indices(
                leaves_exec_view(txs@),
                txs_count as nat,
                proof_view(proof@),
            ) is None,
            Option::Some(h) => spec_compute_root_at_indices(
                leaves_exec_view(txs@),
                txs_count as nat,
                proof_view(proof@),
            ) == Option::Some(h@),
        },
{
    compute_root_at_indices(txs, txs_count as u64, proof)
}

/// The new chain root after appending block `new_block_index`, computed
/// from the proof of the previous last block.
pub open spec fn spec_compute_new_block_root(
    block_hash: Seq<u8>,
    block_index: nat,
    new_block_hash: Seq<u8>,
    new_block_index: nat,
    blocks_count: nat,
    proof: Seq<Seq<u8>>,
) -> Option<Seq<u8>> {
    if new_block_index == 0 {
        Option::Some(new_block_hash)
    } else if blocks_count < 2 || blocks_count > MAX_LEAVES || block_index >= MAX_LEAVES
        || new_block_index >= MAX_LEAVES {
        Option::None
    } else {
        spec_calculate_root_with_new_leaf(
            seq![(spec_leaf_index_to_pos(block_index), block_hash)],
            spec_leaf_index_to_mmr_size((blocks_count - 2) as nat),
            spec_leaf_index_to_pos(new_block_index),
            new_block_hash,
            spec_leaf_index_to_mmr_size(new_block_index),
            proof,
        )
    }
}

/// Compute the new chain root after appending a block, from the proof
/// of the previous last block.
pub fn compute_new_block_root(
    block_hash: [u8; 32],
    block_index: u64,
    new_block_hash: [u8; 32],
    new_block_index: u64,
    blocks_count: u64,
    proof: &Vec<[u8; 32]>,
) -> (r: Option<[u8; 32]>)
    ensures
        match r {
            Option::None => spec_compute_new_block_root(
                block_hash@,
                block_index as nat,
                new_block_hash@,
                new_block_index as nat,
                blocks_count as nat,
                proof_view(proof@),
            ) is None,
            Option::Some(h) => spec_compute_new_block_root(
                block_hash@,
                block_index as nat,
                new_block_hash@,
                new_block_index as nat,
                blocks_count as nat,
                proof_view(proof@),
            ) == Option::Some(h@),
        },
{
    if new_block_index == 0 {
        return Option::Some(new_block_hash);
    }
    if blocks_count < 2 || blocks_count > MAX_LEAVES || block_index >= MAX_LEAVES
        || new_block_index >= MAX_LEAVES {
        return Option::None;
    }
    let mmr_size = leaf_index_to_mmr_size(blocks_count - 2);
    let new_mmr_size = leaf_index_to_mmr_size(new_block_index);
    let entry_pos = leaf_index_to_pos(block_index);
    let new_entry_pos = leaf_index_to_pos(new_block_index);
    proof {
        lemma_leaf_pos_bounds(block_index as nat);
        lemma_leaf_pos_bounds(new_block_index as nat);
        lemma_leaf_pos_bounds((blocks_count - 2) as nat);
    }
    let mut single: Vec<(u64, [u8; 32])> = Vec::new();
    single.push((entry_pos, block_hash));
    proof {
        assert(leaves_exec_view(single@) =~= seq![
            (spec_leaf_index_to_pos(block_index as nat), block_hash@),
        ]);
    }
    calculate_root_with_new_leaf(
        &single,
        mmr_size,
        new_entry_pos,
        new_block_hash,
        new_mmr_size,
        proof,
    )
}

/// The root of the structure holding exactly the given leaf hashes in
/// order: all zeros when there are none.
pub open spec fn spec_merkle_root(leaves: Seq<Seq<u8>>) -> Option<Seq<u8>> {
    if leaves.len() == 0 {
        Option::Some(Seq::new(32, |i: int| 0u8))
    } else if leaves.len() > MAX_LEAVES {
        Option::None
    } else {
        spec_calculate_root(
            Seq::new(leaves.len(), |i: int| (spec_leaf_index_to_pos(i as nat), leaves[i])),
            spec_leaf_index_to_mmr_size((leaves.len() - 1) as nat),
            Seq::empty(),
        )
    }
}

/// Compute the root of the structure holding exactly the given leaf
/// hashes in order.
pub fn merkle_root(leaves: &Vec<[u8; 32]>) -> (r: Option<[u8; 32]>)
    ensures
        match r {
            Option::None => spec_merkle_root(proof_view(leaves@)) is None,
            Option::Some(h) => spec_merkle_root(proof_view(leaves@)) == Option::Some(h@),
        },
{
    if leaves.len() == 0 {
        let zero = [0u8; 32];
        proof {
            assert(zero@ =~= Seq::new(32, |i: int| 0u8));
        }
        return Option::Some(zero);
    }
    if leaves.len() as u64 > MAX_LEAVES {
        return Option::None;
    }
    let n = leaves.len();
    let mut positioned: Vec<(u64, [u8; 32])> = Vec::new();
    let mut i: usize = 0;
    while i < n
        invariant
            i <= n,
            0 < n <= MAX_LEAVES,
            n == leaves@.len(),
            leaves_exec_view(positioned@) =~= Seq::new(
                i as nat,
                |k: int| (spec_leaf_index_to_pos(k as nat), proof_view(leaves@)[k]),
            ),
            forall|k: int|
                0 <= k < positioned@.len() ==> (#[trigger] positioned@[k]).0
                    < 0x4000_0000_0000_0000u64,
        decreases n - i,
    {
        let pos = leaf_index_to_pos(i as u64);
        proof {
            lemma_leaf_pos_bounds(i as nat);
            assert(leaves_exec_view(positioned@).len() == positioned@.len());
        }
        let ghost prevp = positioned@;
        positioned.push((pos, leaves[i]));
        proof {
            assert(positioned@[i as int] == (pos, leaves@[i as int]));
            assert(leaves_exec_view(positioned@)[i as int] == (
                spec_leaf_index_to_pos(i as nat),
                proof_view(leaves@)[i as int],
            ));
            assert forall|k: int| 0 <= k < i implies leaves_exec_view(positioned@)[k] == Seq::new(
                (i + 1) as nat,
                |m: int| (spec_leaf_index_to_pos(m as nat), proof_view(leaves@)[m]),
            )[k] by {
                assert(positioned@[k] == prevp[k]);
                assert(leaves_exec_view(positioned@)[k] == leaves_exec_view(prevp)[k]);
                assert(leaves_exec_view(prevp)[k] == Seq::new(
                    i as nat,
                    |m: int| (spec_leaf_index_to_pos(m as nat), proof_view(leaves@)[m]),
                )[k]);
            }
            assert(leaves_exec_view(positioned@) =~= Seq::new(
                (i + 1) as nat,
                |k: int| (spec_leaf_index_to_pos(k as nat), proof_view(leaves@)[k]),
            ));
        }
        i = i + 1;
    }
    let mmr_size = leaf_index_to_mmr_size(n as u64 - 1);
    proof {
        lemma_leaf_pos_bounds((n - 1) as nat);
        assert(leaves_exec_view(positioned@) =~= Seq::new(
            proof_view(leaves@).len(),
            |k: int| (spec_leaf_index_to_pos(k as nat), proof_view(leaves@)[k]),
        ));
        assert(proof_view(Seq::<[u8; 32]>::empty()) =~= Seq::<Seq<u8>>::empty());
    }
    let empty_proof: Vec<[u8; 32]> = Vec::new();
    calculate_root(&positioned, mmr_size, &empty_proof)
}

} // verus!
