//! Expansion of a 64-bit value into its individual bits, in either order.

use vstd::prelude::*;

verus! {

/// Bit `i` of `value`, as `0u8` or `1u8`.
pub open spec fn nth_bit(value: u64, i: u64) -> u8 {
    if (value >> i) & 1u64 == 1u64 {
        1u8
    } else {
        0u8
    }
}

/// The `bits`-bit expansion of `value`: index 0 holds bit `bits - 1` of
/// `value` when `msb_first`, and bit 0 otherwise.
pub open spec fn bits_of(value: u64, bits: nat, msb_first: bool) -> Seq<u8> {
    Seq::new(
        bits,
        |i: int|
            if msb_first {
                nth_bit(value, (bits - 1 - i) as u64)
            } else {
                nth_bit(value, i as u64)
            },
    )
}

/// Expands the low `bits` bits of `value` into one `0u8`/`1u8` per bit,
/// most-significant first when `msb_first`, least-significant first otherwise.
pub fn int_to_bits(value: u64, bits: usize, msb_first: bool) -> (r: Vec<u8>)
    requires
        bits <= 64,
    ensures
        r@ == bits_of(value, bits as nat, msb_first),
{
    let mut result: Vec<u8> = Vec::new();
    if msb_first {
        let mut i: usize = bits;
        while i > 0
            invariant
                i <= bits <= 64,
                result@.len() == bits - i,
                forall|j: int|
                    0 <= j < result@.len() ==> result@[j] == nth_bit(value, (bits - 1 - j) as u64),
            decreases i,
        {
            i = i - 1;
            let sh: u64 = i as u64;
            let b: u8 = ((value >> sh) & 1) as u8;
            proof {
                assert((value >> sh) & 1u64 < 2u64) by (bit_vector);
            }
            result.push(b);
        }
    } else {
        let mut i: usize = 0;
        while i < bits
            invariant
                i <= bits <= 64,
                result@.len() == i,
                forall|j: int| 0 <= j < result@.len() ==> result@[j] == nth_bit(value, j as u64),
            decreases bits - i,
        {
            let sh: u64 = i as u64;
            let b: u8 = ((value >> sh) & 1) as u8;
            proof {
                assert((value >> sh) & 1u64 < 2u64) by (bit_vector);
            }
            result.push(b);
            i = i + 1;
        }
    }
    proof {
        assert(result@ =~= bits_of(value, bits as nat, msb_first));
    }
    result
}

/// The most-significant-first expansion of a value is the exact reverse of
/// its least-significant-first expansion.
pub proof fn lemma_bit_order_inversion(value: u64, bits: nat)
    ensures
        bits_of(value, bits, true) == bits_of(value, bits, false).reverse(),
{
    assert(bits_of(value, bits, true) =~= bits_of(value, bits, false).reverse());
}

} // verus!
