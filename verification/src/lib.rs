//! Key encoding and nibble-level key comparison for a compressed radix trie.
//!
//! A key becomes a sequence of bytes ([`keys::TrieKey`]), the bytes become
//! nibbles ([`nibbles::unpack`]), and two nibble sequences are told apart by
//! [`keys::match_keys`].
//!
//! - [`keys`]: the key trait, the comparison and the guard against keys that
//!   collide.
//! - [`nibbles`]: what a `NibbleVec` holds.
//! - [`encoders`]: the encodings of byte sequences, text and integers.
//! - [`endian`], [`bytes`]: integers as bytes in either byte order.
//! - [`order`]: integers written most significant byte first sort as they
//!   count.
//! - [`table`], [`harness`]: a flat store that finds keys by comparison, and
//!   a workload of words to run on it.

pub mod bytes;
pub mod encoders;
pub mod endian;
pub mod harness;
pub mod keys;
pub mod nibbles;
pub mod order;
mod sealed;
pub mod table;
