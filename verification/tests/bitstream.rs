use chacha20_rng::bits::int_to_bits;
use chacha20_rng::generator::chacha20_bit_stream;
use chacha20_rng::pack::{mask_value, pack_be};

// The ChaCha20 keystream under the all-zero key and all-zero nonce starts
// with the bytes 76 b8 e0 ad a0 f1 3d 90 (RFC 8439 parameters, block 0).

#[test]
fn length_is_exact_for_all_requests() {
    for &(n, bpv) in &[(0usize, 32usize), (1, 32), (5, 32), (200, 32), (100, 16), (7, 5), (64, 64), (33, 32), (13, 1)] {
        let bits = chacha20_bit_stream(n, Some(bpv), true);
        assert_eq!(bits.len(), n);
        let bits = chacha20_bit_stream(n, Some(bpv), false);
        assert_eq!(bits.len(), n);
    }
}

#[test]
fn zero_bits_requested_yields_empty() {
    assert!(chacha20_bit_stream(0, None, true).is_empty());
    assert!(chacha20_bit_stream(0, Some(8), false).is_empty());
}

#[test]
fn default_width_is_32() {
    assert_eq!(
        chacha20_bit_stream(96, None, true),
        chacha20_bit_stream(96, Some(32), true)
    );
}

#[test]
fn same_parameters_give_same_bits() {
    let a = chacha20_bit_stream(64, Some(32), true);
    let b = chacha20_bit_stream(64, Some(32), true);
    assert_eq!(a, b);
    let c = chacha20_bit_stream(50, Some(7), false);
    let d = chacha20_bit_stream(50, Some(7), false);
    assert_eq!(c, d);
}

#[test]
fn shorter_request_is_prefix_of_longer() {
    let long = chacha20_bit_stream(96, Some(7), true);
    let short = chacha20_bit_stream(40, Some(7), true);
    assert_eq!(short[..], long[..40]);
    let long = chacha20_bit_stream(200, Some(32), false);
    let short = chacha20_bit_stream(123, Some(32), false);
    assert_eq!(short[..], long[..123]);
}

#[test]
fn msb_first_expansion_reverses_lsb_first() {
    let msb = int_to_bits(0xB8, 8, true);
    let mut lsb = int_to_bits(0xB8, 8, false);
    lsb.reverse();
    assert_eq!(msb, lsb);
    let msb = int_to_bits(0x1234_5678_9ABC_DEF0, 64, true);
    let mut lsb = int_to_bits(0x1234_5678_9ABC_DEF0, 64, false);
    lsb.reverse();
    assert_eq!(msb, lsb);
}

#[test]
fn bit_expansion_of_a5_msb_first() {
    assert_eq!(int_to_bits(0xA5, 8, true), vec![1, 0, 1, 0, 0, 1, 0, 1]);
}

#[test]
fn bit_expansion_of_a5_lsb_first() {
    // 0xA5 reads the same in both orders; its expansion is a palindrome.
    assert_eq!(int_to_bits(0xA5, 8, false), vec![1, 0, 1, 0, 0, 1, 0, 1]);
}

#[test]
fn bit_expansion_of_b8_lsb_first() {
    assert_eq!(int_to_bits(0xB8, 8, false), vec![0, 0, 0, 1, 1, 1, 0, 1]);
}

#[test]
fn zero_width_expansion_is_empty() {
    assert!(int_to_bits(0xFFFF_FFFF_FFFF_FFFF, 0, true).is_empty());
    assert!(int_to_bits(0xFFFF_FFFF_FFFF_FFFF, 0, false).is_empty());
}

#[test]
fn full_width_expansion_of_all_ones() {
    assert_eq!(int_to_bits(u64::MAX, 64, true), vec![1u8; 64]);
    assert_eq!(int_to_bits(u64::MAX, 64, false), vec![1u8; 64]);
}

#[test]
fn first_byte_of_keystream_msb_first() {
    // First keystream byte is 0x76 = 0111 0110.
    assert_eq!(
        chacha20_bit_stream(8, Some(8), true),
        vec![0, 1, 1, 1, 0, 1, 1, 0]
    );
}

#[test]
fn first_byte_of_keystream_lsb_first() {
    assert_eq!(
        chacha20_bit_stream(8, Some(8), false),
        vec![0, 1, 1, 0, 1, 1, 1, 0]
    );
}

#[test]
fn hundred_bits_of_16_bit_chunks() {
    // First chunk packs 0x76, 0xb8 big-endian into 0x76b8.
    let bits = chacha20_bit_stream(100, Some(16), true);
    assert_eq!(bits.len(), 100);
    assert_eq!(
        bits[..16],
        [0, 1, 1, 1, 0, 1, 1, 0, 1, 0, 1, 1, 1, 0, 0, 0]
    );
}

#[test]
fn five_bit_chunks_are_masked() {
    // Chunks read whole bytes 0x76, 0xb8 and keep the low five bits:
    // 0x16 = 10110 and 0x18 = 11000.
    assert_eq!(
        chacha20_bit_stream(10, Some(5), true),
        vec![1, 0, 1, 1, 0, 1, 1, 0, 0, 0]
    );
}

#[test]
fn last_chunk_is_truncated_at_its_tail() {
    // Bytes 0x76, 0xb8: eight bits of the first chunk, then only the first
    // four bits of the second.
    assert_eq!(
        chacha20_bit_stream(12, Some(8), true),
        vec![0, 1, 1, 1, 0, 1, 1, 0, 1, 0, 1, 1]
    );
}

#[test]
fn every_emitted_value_is_a_bit() {
    for &msb in &[true, false] {
        for bit in chacha20_bit_stream(200, Some(5), msb) {
            assert!(bit == 0 || bit == 1);
        }
    }
}

#[test]
fn pack_be_reads_big_endian() {
    assert_eq!(pack_be(&vec![0xAB, 0xCD, 0xEF]), 0xABCDEF);
    assert_eq!(pack_be(&vec![]), 0);
    assert_eq!(pack_be(&vec![0x00, 0x01]), 1);
    assert_eq!(
        pack_be(&vec![0x11, 0x22, 0x33, 0x44, 0x55, 0x66, 0x77, 0x88]),
        0x1122_3344_5566_7788
    );
}

#[test]
fn mask_value_keeps_low_bits() {
    assert_eq!(mask_value(0x76, 5), 0x16);
    assert_eq!(mask_value(0xFFFF, 5), 0x1F);
    assert_eq!(mask_value(u64::MAX, 63), u64::MAX >> 1);
    assert_eq!(mask_value(0x1234, 0), 0);
}
