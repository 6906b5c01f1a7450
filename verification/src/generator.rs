//! The bit stream generator: reads the ChaCha20 keystream in fixed-size
//! chunks, packs each chunk big-endian, masks it to the requested width, and
//! expands it into bits until the requested count is reached.

use crate::bits::{bits_of, int_to_bits};
use crate::keystream::{
    keystream_bytes, keystream_capacity, keystream_init, keystream_next, ks_key, ks_nonce, ks_pos,
};
use crate::pack::{
    be_value, lemma_be_value_bound, lemma_mask_bounds, lemma_pow256_is_pow2, low_mask, mask_value,
    pack_be,
};
use vstd::arithmetic::power2::pow2;
use vstd::bits::{lemma_u64_pow2_no_overflow, lemma_u64_shl_is_mul};
use vstd::arithmetic::div_mod::{
    lemma_fundamental_div_mod_converse_div, lemma_fundamental_div_mod_converse_mod,
};
use vstd::arithmetic::mul::{lemma_mul_inequality, lemma_mul_upper_bound};
use vstd::prelude::*;

verus! {

/// The fixed all-zero 256-bit key the generator runs under.
pub open spec fn zero_key() -> Seq<u8> {
    Seq::new(32, |i: int| 0u8)
}

/// The fixed all-zero 96-bit nonce the generator runs under.
pub open spec fn zero_nonce() -> Seq<u8> {
    Seq::new(12, |i: int| 0u8)
}

/// The extraction width actually used: the given one, or 32 when none was
/// given.
pub open spec fn resolved_width(bits_per_value: Option<usize>) -> nat {
    match bits_per_value {
        Some(b) => b as nat,
        None => 32,
    }
}

/// How many keystream bytes one chunk takes: `bpv` bits rounded up to whole
/// bytes.
pub open spec fn chunk_bytes(bpv: nat) -> nat {
    (bpv + 7) / 8
}

/// The raw big-endian value of chunk `k`: its keystream bytes start right
/// after those of the first `k` chunks.
pub open spec fn chunk_raw(key: Seq<u8>, nonce: Seq<u8>, bpv: nat, k: int) -> nat {
    be_value(keystream_bytes(key, nonce, k * chunk_bytes(bpv) as int, chunk_bytes(bpv)))
}

/// The value extracted from chunk `k`: the raw value, masked to its low
/// `bpv` bits when the byte count was rounded up.
pub open spec fn chunk_value(key: Seq<u8>, nonce: Seq<u8>, bpv: nat, k: int) -> u64 {
    if bpv < chunk_bytes(bpv) * 8 {
        (chunk_raw(key, nonce, bpv, k) as u64) & low_mask(bpv)
    } else {
        chunk_raw(key, nonce, bpv, k) as u64
    }
}

/// Bit `j` of the unbounded bit stream: bit `j % bpv` of the expansion of
/// the extracted value of chunk `j / bpv`.
pub open spec fn stream_bit(key: Seq<u8>, nonce: Seq<u8>, bpv: nat, msb_first: bool, j: int) -> u8
    recommends
        bpv >= 1,
{
    bits_of(chunk_value(key, nonce, bpv, j / bpv as int), bpv, msb_first)[j % bpv as int]
}

/// The first `n` bits of the stream.
pub open spec fn stream_bits(
    key: Seq<u8>,
    nonce: Seq<u8>,
    bpv: nat,
    msb_first: bool,
    n: nat,
) -> Seq<u8>
    recommends
        bpv >= 1,
{
    Seq::new(n, |j: int| stream_bit(key, nonce, bpv, msb_first, j))
}

/// The most bits one call may request: with at most eight keystream bytes
/// spent per emitted bit, a request this size stays within the capacity of
/// one cipher instance.
pub open spec fn max_request() -> nat {
    0x7_0000_0000
}

/// Determinism: the bit stream is a function of the extraction width, the
/// bit order and the requested length alone, so two runs of the generator
/// with the same parameters return the same bits.
pub proof fn lemma_deterministic(r1: Seq<u8>, r2: Seq<u8>, bpv: nat, msb_first: bool, n: nat)
    requires
        r1 == stream_bits(zero_key(), zero_nonce(), bpv, msb_first, n),
        r2 == stream_bits(zero_key(), zero_nonce(), bpv, msb_first, n),
    ensures
        r1 == r2,
{
}

/// Prefix consistency: a request for `n` bits returns exactly the first `n`
/// bits of any longer request with the same parameters.
pub proof fn lemma_prefix_consistency(
    key: Seq<u8>,
    nonce: Seq<u8>,
    bpv: nat,
    msb_first: bool,
    n: nat,
    k: nat,
)
    requires
        bpv >= 1,
    ensures
        stream_bits(key, nonce, bpv, msb_first, n) == stream_bits(
            key,
            nonce,
            bpv,
            msb_first,
            n + k,
        ).take(n as int),
{
    assert(stream_bits(key, nonce, bpv, msb_first, n) =~= stream_bits(
        key,
        nonce,
        bpv,
        msb_first,
        n + k,
    ).take(n as int));
}

/// Masking correctness: an extracted value never exceeds `2^bpv - 1`, also
/// when `bpv` is not a multiple of eight and the chunk was read with spare
/// high bits.
pub proof fn lemma_chunk_value_bounded(key: Seq<u8>, nonce: Seq<u8>, bpv: nat, k: int)
    requires
        1 <= bpv <= 64,
    ensures
        (chunk_value(key, nonce, bpv, k) as nat) < pow2(bpv),
{
    let cb: nat = chunk_bytes(bpv);
    let raw: nat = chunk_raw(key, nonce, bpv, k);
    assert(1 <= cb <= 8);
    assert(bpv <= cb * 8);
    if bpv < cb * 8 {
        assert(bpv < 64);
        lemma_mask_bounds(raw as u64, bpv as u64);
        lemma_u64_pow2_no_overflow(bpv);
        lemma_u64_shl_is_mul(1u64, bpv as u64);
    } else {
        lemma_be_value_bound(keystream_bytes(key, nonce, k * cb as int, cb));
        lemma_pow256_is_pow2(cb);
    }
}

/// Produces exactly `n_bits` pseudo-random bits, each `0u8` or `1u8`, drawn
/// from the ChaCha20 keystream under the fixed zero key and nonce.
///
/// The keystream is read `chunk_bytes` bytes at a time; each chunk is packed
/// big-endian, masked to the low `bits_per_value` bits when the byte count
/// was rounded up, and expanded most- or least-significant bit first; the
/// last chunk's expansion is truncated at its tail to land exactly on
/// `n_bits`.
pub fn chacha20_bit_stream(n_bits: usize, bits_per_value: Option<usize>, msb_first: bool) -> (r:
    Vec<u8>)
    requires
        1 <= resolved_width(bits_per_value) <= 64,
        n_bits <= max_request(),
    ensures
        r@.len() == n_bits,
        r@ == stream_bits(
            zero_key(),
            zero_nonce(),
            resolved_width(bits_per_value),
            msb_first,
            n_bits as nat,
        ),
{
    let ghost zk = zero_key();
    let ghost zn = zero_nonce();
    let bpv: usize = match bits_per_value {
        Some(b) => b,
        None => 32,
    };
    let num_bytes: usize = (bpv + 7) / 8;
    let key: [u8; 32] = [0u8; 32];
    let nonce: [u8; 12] = [0u8; 12];
    let mut ks = keystream_init(&key, &nonce);
    proof {
        assert(key@ =~= zk);
        assert(nonce@ =~= zn);
    }
    let mut output: Vec<u8> = Vec::new();
    let ghost mut chunks: nat = 0;
    while output.len() < n_bits
        invariant
            1 <= bpv <= 64,
            bpv == resolved_width(bits_per_value),
            num_bytes == chunk_bytes(bpv as nat),
            1 <= num_bytes <= 8,
            n_bits <= max_request(),
            ks_key(ks) == zk,
            ks_nonce(ks) == zn,
            ks_pos(ks) == chunks * chunk_bytes(bpv as nat),
            output@ == stream_bits(zk, zn, bpv as nat, msb_first, output@.len() as nat),
            output@.len() <= n_bits,
            output@.len() == chunks * bpv || output@.len() == n_bits,
        decreases n_bits - output@.len(),
    {
        proof {
            assert(output@.len() == chunks * bpv);
            // One more chunk stays within the cipher's keystream capacity.
            assert(chunks <= chunks * bpv) by {
                lemma_mul_inequality(1, bpv as int, chunks as int);
            }
            assert((chunks + 1) * chunk_bytes(bpv as nat) <= (max_request() + 1) * 8) by {
                lemma_mul_upper_bound(
                    chunks as int + 1,
                    max_request() as int + 1,
                    chunk_bytes(bpv as nat) as int,
                    8,
                );
            }
            assert(ks_pos(ks) + num_bytes == (chunks + 1) * chunk_bytes(bpv as nat)) by {
                vstd::arithmetic::mul::lemma_mul_is_distributive_add_other_way(
                    chunk_bytes(bpv as nat) as int,
                    chunks as int,
                    1,
                );
            }
            assert(ks_pos(ks) + num_bytes <= keystream_capacity());
        }
        let ghost pos0: nat = ks_pos(ks);
        let buffer = keystream_next(&mut ks, num_bytes);
        proof {
            assert(buffer@ =~= keystream_bytes(zk, zn, pos0 as int, num_bytes as nat));
            assert(ks_pos(ks) == (chunks + 1) * chunk_bytes(bpv as nat)) by {
                assert((chunks + 1) * chunk_bytes(bpv as nat) == chunks * chunk_bytes(bpv as nat)
                    + chunk_bytes(bpv as nat)) by {
                    vstd::arithmetic::mul::lemma_mul_is_distributive_add_other_way(
                        chunk_bytes(bpv as nat) as int,
                        chunks as int,
                        1,
                    );
                }
            }
            assert(pos0 as int == chunks * chunk_bytes(bpv as nat) as int);
        }
        let raw = pack_be(&buffer);
        proof {
            assert(raw == chunk_raw(zk, zn, bpv as nat, chunks as int));
            lemma_be_value_bound(buffer@);
        }
        let val: u64 = if bpv < num_bytes * 8 {
            mask_value(raw, bpv)
        } else {
            raw
        };
        proof {
            assert(val == chunk_value(zk, zn, bpv as nat, chunks as int));
        }
        let chunk_expansion = int_to_bits(val, bpv, msb_first);
        let remaining = n_bits - output.len();
        let take: usize = if remaining >= bpv {
            bpv
        } else {
            remaining
        };
        let ghost len0: nat = output@.len() as nat;
        let mut j: usize = 0;
        while j < take
            invariant
                j <= take,
                take <= bpv,
                1 <= bpv <= 64,
                len0 == chunks * bpv,
                len0 + take <= n_bits,
                output@.len() == len0 + j,
                chunk_expansion@ == bits_of(
                    chunk_value(zk, zn, bpv as nat, chunks as int),
                    bpv as nat,
                    msb_first,
                ),
                output@ == stream_bits(zk, zn, bpv as nat, msb_first, output@.len() as nat),
            decreases take - j,
        {
            proof {
                let idx = len0 + j;
                lemma_fundamental_div_mod_converse_div(
                    idx as int,
                    bpv as int,
                    chunks as int,
                    j as int,
                );
                lemma_fundamental_div_mod_converse_mod(
                    idx as int,
                    bpv as int,
                    chunks as int,
                    j as int,
                );
                assert(stream_bit(zk, zn, bpv as nat, msb_first, idx as int)
                    == chunk_expansion@[j as int]);
                assert(stream_bits(zk, zn, bpv as nat, msb_first, (idx + 1) as nat) =~= stream_bits(
                    zk,
                    zn,
                    bpv as nat,
                    msb_first,
                    idx as nat,
                ).push(stream_bit(zk, zn, bpv as nat, msb_first, idx as int)));
            }
            let b = chunk_expansion[j];
            output.push(b);
            j = j + 1;
        }
        proof {
            chunks = chunks + 1;
            if take == bpv {
                assert(output@.len() == chunks * bpv) by {
                    vstd::arithmetic::mul::lemma_mul_is_distributive_add_other_way(
                        bpv as int,
                        chunks as int - 1,
                        1,
                    );
                }
            } else {
                assert(output@.len() == n_bits);
            }
        }
    }
    output
}

} // verus!

