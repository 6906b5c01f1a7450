//! The trusted boundary around the ChaCha20 stream cipher.
//!
//! A `ChaChaKeystream` owns one cipher instance and hands out successive
//! keystream bytes. The keystream produced by ChaCha20 is a pure function of
//! the key, the nonce and the byte position within the stream; that function
//! is given the name `keystream_byte` here, and every contract in this module
//! speaks of the stream through that name and through the ghost key, nonce
//! and position of the cipher.

use chacha20::cipher::KeyIvInit;
use chacha20::cipher::StreamCipher;
use vstd::prelude::*;

verus! {

/// Byte `i` of the ChaCha20 keystream for the given 32-byte key and 12-byte
/// nonce. The cipher computes this; the library only names it.
pub uninterp spec fn keystream_byte(key: Seq<u8>, nonce: Seq<u8>, i: int) -> u8;

/// The bytes at positions `start .. start + n` of the keystream.
pub open spec fn keystream_bytes(key: Seq<u8>, nonce: Seq<u8>, start: int, n: nat) -> Seq<u8> {
    Seq::new(n, |j: int| keystream_byte(key, nonce, start + j))
}

/// How many keystream bytes one IETF ChaCha20 instance can produce: a 32-bit
/// block counter over 64-byte blocks, `(2^32 - 1) * 64` bytes in all. Past
/// this point the cipher reports its keystream exhausted.
pub open spec fn keystream_capacity() -> nat {
    0x3F_FFFF_FFC0
}

/// A ChaCha20 cipher instance, viewed as a cursor over its keystream.
#[verifier::external_body]
pub struct ChaChaKeystream {
    cipher: chacha20::ChaCha20,
}

/// The key the cipher was initialized with.
pub uninterp spec fn ks_key(s: ChaChaKeystream) -> Seq<u8>;

/// The nonce the cipher was initialized with.
pub uninterp spec fn ks_nonce(s: ChaChaKeystream) -> Seq<u8>;

/// How many keystream bytes the cipher has produced so far.
pub uninterp spec fn ks_pos(s: ChaChaKeystream) -> nat;

/// Relies on `chacha20::ChaCha20::new` (`cipher::KeyIvInit`): it initializes
/// the cipher with the given key and nonce, positioned at the start of the
/// keystream.
#[verifier::external_body]
pub(crate) fn keystream_init(key: &[u8; 32], nonce: &[u8; 12]) -> (s: ChaChaKeystream)
    ensures
        ks_key(s) == key@,
        ks_nonce(s) == nonce@,
        ks_pos(s) == 0,
{
    ChaChaKeystream { cipher: chacha20::ChaCha20::new(key.into(), nonce.into()) }
}

/// Relies on `cipher::StreamCipher::apply_keystream`: on an all-zero buffer
/// it writes the next `n` keystream bytes and advances the cipher past them.
/// It panics once the keystream is exhausted, so the position must stay
/// within `keystream_capacity`.
#[verifier::external_body]
pub(crate) fn keystream_next(s: &mut ChaChaKeystream, n: usize) -> (buf: Vec<u8>)
    requires
        ks_pos(*old(s)) + n <= keystream_capacity(),
    ensures
        ks_key(*final(s)) == ks_key(*old(s)),
        ks_nonce(*final(s)) == ks_nonce(*old(s)),
        ks_pos(*final(s)) == ks_pos(*old(s)) + n,
        buf@.len() == n,
        forall|j: int|
            0 <= j < n ==> buf@[j] == keystream_byte(
                ks_key(*old(s)),
                ks_nonce(*old(s)),
                ks_pos(*old(s)) + j,
            ),
{
    let mut buf = vec![0u8; n];
    s.cipher.apply_keystream(&mut buf);
    buf
}

} // verus!
