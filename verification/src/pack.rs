//! Big-endian packing of a byte chunk into a 64-bit value, and masking of
//! that value to a chosen bit width.

use vstd::arithmetic::power2::{lemma2_to64, lemma_pow2_adds, pow2};
use vstd::prelude::*;

verus! {

/// The value of `bytes` read big-endian: the first byte is most significant.
pub open spec fn be_value(bytes: Seq<u8>) -> nat
    decreases bytes.len(),
{
    if bytes.len() == 0 {
        0
    } else {
        be_value(bytes.drop_last()) * 256 + bytes.last() as nat
    }
}

/// 256 raised to `k`: the number of values a `k`-byte chunk can take.
pub open spec fn pow256(k: nat) -> nat
    decreases k,
{
    if k == 0 {
        1
    } else {
        256 * pow256((k - 1) as nat)
    }
}

/// A big-endian value is bounded by the size of its byte chunk.
pub proof fn lemma_be_value_bound(bytes: Seq<u8>)
    ensures
        be_value(bytes) < pow256(bytes.len()),
    decreases bytes.len(),
{
    if bytes.len() > 0 {
        lemma_be_value_bound(bytes.drop_last());
    }
}

/// Packs at most eight bytes into a `u64`, big-endian.
pub fn pack_be(buffer: &Vec<u8>) -> (r: u64)
    requires
        buffer@.len() <= 8,
    ensures
        r == be_value(buffer@),
{
    proof {
        assert(pow256(0) == 1);
        assert(pow256(1) == 256);
        assert(pow256(2) == 0x1_0000);
        assert(pow256(3) == 0x100_0000);
        assert(pow256(4) == 0x1_0000_0000);
        assert(pow256(5) == 0x100_0000_0000);
        assert(pow256(6) == 0x1_0000_0000_0000);
        assert(pow256(7) == 0x100_0000_0000_0000);
        assert(pow256(8) == 0x1_0000_0000_0000_0000);
    }
    let mut val: u64 = 0;
    let mut k: usize = 0;
    while k < buffer.len()
        invariant
            k <= buffer@.len() <= 8,
            val == be_value(buffer@.take(k as int)),
            pow256(8) == 0x1_0000_0000_0000_0000,
        decreases buffer@.len() - k,
    {
        proof {
            lemma_be_value_bound(buffer@.take(k as int));
            lemma_pow256_increases(k as nat, 7);
            assert(buffer@.take(k as int + 1).drop_last() =~= buffer@.take(k as int));
            assert(buffer@.take(k as int + 1).last() == buffer@[k as int]);
        }
        val = val * 256 + (buffer[k] as u64);
        k = k + 1;
    }
    proof {
        assert(buffer@.take(buffer@.len() as int) =~= buffer@);
    }
    val
}

/// `pow256` grows with its exponent.
pub proof fn lemma_pow256_increases(a: nat, b: nat)
    requires
        a <= b,
    ensures
        pow256(a) <= pow256(b),
    decreases b,
{
    if a < b {
        lemma_pow256_increases(a, (b - 1) as nat);
    }
}

/// A `k`-byte chunk holds `8 * k` bits: `256^k == 2^(8 * k)`.
pub proof fn lemma_pow256_is_pow2(k: nat)
    ensures
        pow256(k) == pow2(8 * k),
    decreases k,
{
    lemma2_to64();
    if k > 0 {
        lemma_pow256_is_pow2((k - 1) as nat);
        lemma_pow2_adds(8, 8 * (k - 1) as nat);
    }
}

/// The mask that keeps the low `bits` bits of a value.
pub open spec fn low_mask(bits: nat) -> u64 {
    ((1u64 << (bits as u64)) - 1) as u64
}

/// Keeps only the low `bits` bits of `value`.
pub fn mask_value(value: u64, bits: usize) -> (r: u64)
    requires
        bits < 64,
    ensures
        r == value & low_mask(bits as nat),
{
    let sh: u64 = bits as u64;
    proof {
        assert(1u64 << sh >= 1u64) by (bit_vector)
            requires
                sh < 64u64,
        ;
    }
    value & ((1u64 << sh) - 1)
}

/// A masked value stays below `2^bits`.
pub proof fn lemma_mask_bounds(value: u64, bits: u64)
    requires
        bits < 64,
    ensures
        value & low_mask(bits as nat) < (1u64 << bits),
        value & low_mask(bits as nat) <= value,
{
    assert((value & (((1u64 << bits) - 1) as u64)) < (1u64 << bits) && (value & (((1u64 << bits)
        - 1) as u64)) <= value) by (bit_vector)
        requires
            bits < 64u64,
    ;
}

} // verus!
