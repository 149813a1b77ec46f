//! Little-endian byte encodings of the protocol's integers.

use vstd::prelude::*;

verus! {

/// `256^n`: the number of values an `n`-byte field can hold.
pub open spec fn pow256(n: nat) -> nat
    decreases n,
{
    if n == 0 {
        1
    } else {
        256 * pow256((n - 1) as nat)
    }
}

/// The `n`-byte little-endian encoding of `x` (modulo `256^n`).
pub open spec fn le_bytes(x: nat, n: nat) -> Seq<u8>
    decreases n,
{
    if n == 0 {
        Seq::empty()
    } else {
        seq![(x % 256) as u8] + le_bytes(x / 256, (n - 1) as nat)
    }
}

/// The 8-byte little-endian encoding of a `u64`.
pub open spec fn le_u64(x: u64) -> Seq<u8> {
    le_bytes(x as nat, 8)
}

/// The 4-byte little-endian encoding of a `u32`.
pub open spec fn le_u32(x: u32) -> Seq<u8> {
    le_bytes(x as nat, 4)
}

/// The value a little-endian byte string stands for.
pub open spec fn le_val(s: Seq<u8>) -> nat
    decreases s.len(),
{
    if s.len() == 0 {
        0
    } else {
        (s[0] + 256 * le_val(s.drop_first())) as nat
    }
}

/// A little-endian encoding has exactly `n` bytes.
pub proof fn lemma_le_bytes_len(x: nat, n: nat)
    ensures
        le_bytes(x, n).len() == n,
    decreases n,
{
    if n > 0 {
        lemma_le_bytes_len(x / 256, (n - 1) as nat);
    }
}

/// `pow256` never shrinks as the width grows.
pub proof fn lemma_pow256_le(a: nat, b: nat)
    requires
        a <= b,
    ensures
        pow256(a) <= pow256(b),
        pow256(a) >= 1,
    decreases b,
{
    if b > 0 {
        if a == b {
            lemma_pow256_le(0, (b - 1) as nat);
        } else {
            lemma_pow256_le(a, (b - 1) as nat);
        }
    }
}

/// The field widths the protocol uses, as concrete powers.
pub proof fn lemma_pow256_concrete()
    ensures
        pow256(4) == 0x1_0000_0000,
        pow256(8) == 0x1_0000_0000_0000_0000,
{
    reveal_with_fuel(pow256, 9);
}

/// Reading back an `n`-byte little-endian encoding yields the value,
/// for values that fit in `n` bytes.
pub proof fn lemma_le_bytes_val(x: nat, n: nat)
    requires
        x < pow256(n),
    ensures
        le_val(le_bytes(x, n)) == x,
    decreases n,
{
    if n == 0 {
    } else {
        assert(x < 256 * pow256((n - 1) as nat));
        assert(x / 256 < pow256((n - 1) as nat)) by {
            vstd::arithmetic::div_mod::lemma_fundamental_div_mod(x as int, 256);
            if x / 256 >= pow256((n - 1) as nat) {
                vstd::arithmetic::mul::lemma_mul_inequality(
                    pow256((n - 1) as nat) as int,
                    (x / 256) as int,
                    256,
                );
            }
        }
        lemma_le_bytes_val(x / 256, (n - 1) as nat);
        assert(le_bytes(x, n).drop_first() =~= le_bytes(x / 256, (n - 1) as nat));
        assert(le_val(le_bytes(x, n)) == x % 256 + 256 * (x / 256));
        vstd::arithmetic::div_mod::lemma_fundamental_div_mod(x as int, 256);
    }
}

/// Append the `n`-byte little-endian encoding of `x` to `out`.
pub fn append_le(out: &mut Vec<u8>, x: u64, n: usize)
    ensures
        final(out)@ == old(out)@ + le_bytes(x as nat, n as nat),
{
    proof {
        lemma_le_bytes_len(x as nat, n as nat);
    }
    let mut v: u64 = x;
    let mut i: usize = 0;
    while i < n
        invariant
            i <= n,
            le_bytes(x as nat, n as nat).len() == n,
            out@ == old(out)@ + le_bytes(x as nat, n as nat).take(i as int),
            le_bytes(x as nat, n as nat).skip(i as int) == le_bytes(v as nat, (n - i) as nat),
        decreases n - i,
    {
        let ghost pre = le_bytes(x as nat, n as nat);
        let b: u8 = (v % 256) as u8;
        proof {
            lemma_le_bytes_len(v as nat, (n - i) as nat);
            assert(le_bytes(v as nat, (n - i) as nat)[0] == b);
            assert(pre[i as int] == pre.skip(i as int)[0]);
            assert(pre.take(i as int).push(b) =~= pre.take(i + 1));
            assert(le_bytes(v as nat, (n - i) as nat).drop_first() =~= le_bytes(
                (v / 256) as nat,
                (n - (i + 1)) as nat,
            ));
            assert(pre.skip(i as int).drop_first() =~= pre.skip(i + 1));
        }
        out.push(b);
        v = v / 256;
        i = i + 1;
    }
    proof {
        assert(out@ =~= old(out)@ + le_bytes(x as nat, n as nat));
    }
}

/// Append the 8-byte little-endian encoding of `x` to `out`.
pub fn append_u64(out: &mut Vec<u8>, x: u64)
    ensures
        final(out)@ == old(out)@ + le_u64(x),
{
    append_le(out, x, 8)
}

/// Append the 4-byte little-endian encoding of `x` to `out`.
pub fn append_u32(out: &mut Vec<u8>, x: u32)
    ensures
        final(out)@ == old(out)@ + le_u32(x),
{
    append_le(out, x as u64, 4);
}

/// Append a byte string to `out`.
pub fn append_bytes(out: &mut Vec<u8>, bytes: &[u8])
    ensures
        final(out)@ == old(out)@ + bytes@,
{
    let mut i: usize = 0;
    while i < bytes.len()
        invariant
            i <= bytes@.len(),
            out@ == old(out)@ + bytes@.take(i as int),
        decreases bytes@.len() - i,
    {
        out.push(bytes[i]);
        proof {
            assert(out@ =~= old(out)@ + bytes@.take(i + 1));
        }
        i = i + 1;
    }
    proof {
        assert(out@ =~= old(out)@ + bytes@);
    }
}

/// Read a `u64` from 8 little-endian bytes starting at `off`.
pub fn read_u64(bytes: &[u8], off: usize) -> (r: u64)
    requires
        off + 8 <= bytes@.len(),
    ensures
        r as nat == le_val(bytes@.subrange(off as int, off + 8)),
{
    let mut r: u64 = 0;
    let mut i: usize = 8;
    let slen: usize = bytes.len();
    proof {
        assert(bytes@.subrange(off + 8, off + 8) =~= Seq::<u8>::empty());
    }
    while i > 0
        invariant
            i <= 8,
            off + 8 <= slen,
            slen == bytes@.len(),
            r as nat == le_val(bytes@.subrange(off + i, off + 8)),
            r < pow256((8 - i) as nat),
        decreases i,
    {
        proof {
            lemma_pow256_le((8 - i + 1) as nat, 8);
            lemma_pow256_concrete();
            vstd::arithmetic::mul::lemma_mul_inequality(
                r as int + 1,
                pow256((8 - i) as nat) as int,
                256,
            );
            assert(pow256((8 - i + 1) as nat) == 256 * pow256((8 - i) as nat));
        }
        let b: u8 = bytes[off + i - 1];
        let r2: u64 = r * 256 + (b as u64);
        proof {
            let s = bytes@.subrange(off + i - 1, off + 8);
            assert(s[0] == b);
            assert(s.drop_first() =~= bytes@.subrange(off + i, off + 8));
            assert(le_val(s) == b + 256 * le_val(bytes@.subrange(off + i, off + 8)));
        }
        r = r2;
        i = i - 1;
    }
    r
}

/// Read a `u32` from 4 little-endian bytes starting at `off`.
pub fn read_u32(bytes: &[u8], off: usize) -> (r: u32)
    requires
        off + 4 <= bytes@.len(),
    ensures
        r as nat == le_val(bytes@.subrange(off as int, off + 4)),
{
    let mut r: u32 = 0;
    let mut i: usize = 4;
    let slen: usize = bytes.len();
    proof {
        assert(bytes@.subrange(off + 4, off + 4) =~= Seq::<u8>::empty());
    }
    while i > 0
        invariant
            i <= 4,
            off + 4 <= slen,
            slen == bytes@.len(),
            r as nat == le_val(bytes@.subrange(off + i, off + 4)),
            r < pow256((4 - i) as nat),
        decreases i,
    {
        proof {
            lemma_pow256_le((4 - i + 1) as nat, 4);
            lemma_pow256_concrete();
            vstd::arithmetic::mul::lemma_mul_inequality(
                r as int + 1,
                pow256((4 - i) as nat) as int,
                256,
            );
            assert(pow256((4 - i + 1) as nat) == 256 * pow256((4 - i) as nat));
        }
        let b: u8 = bytes[off + i - 1];
        let r2: u32 = r * 256 + (b as u32);
        proof {
            let s = bytes@.subrange(off + i - 1, off + 4);
            assert(s[0] == b);
            assert(s.drop_first() =~= bytes@.subrange(off + i, off + 4));
            assert(le_val(s) == b + 256 * le_val(bytes@.subrange(off + i, off + 4)));
        }
        r = r2;
        i = i - 1;
    }
    r
}

} // verus!
