//! A deterministic pseudo-random bit stream drawn from a ChaCha20 keystream.
//!
//! The library turns the byte-oriented keystream of a stream cipher into a
//! precisely sized, precisely ordered sequence of bits: bytes are read in
//! fixed-size chunks, each chunk is packed big-endian into a 64-bit value,
//! masked to a caller-chosen width, and expanded bit by bit in a caller-chosen
//! order until the requested number of bits has been produced.

pub mod bits;
pub mod generator;
pub mod keystream;
pub mod pack;
