//! Block-cipher modes of operation over AES-128.
//!
//! A block cipher transforms exactly one block of `BLOCK_SIZE` bytes. This
//! crate is the layer above it: a reversible padding scheme, a grouping of
//! byte buffers into blocks, and three modes that chain single-block calls
//! into a transform of buffers of any length: Electronic Code Book (ECB,
//! which leaks patterns and is here to show why), Cipher Block Chaining (CBC)
//! and Counter mode (CTR).
//!
//! None of the modes authenticates its ciphertext.

use vstd::prelude::*;

pub mod blocks;
pub mod cbc;
pub mod cipher;
pub mod ctr;
pub mod ecb;
pub mod entropy;
pub mod padding;

verus! {

/// The block size of AES in bytes. AES-128 keys have the same size.
pub const BLOCK_SIZE: usize = 16;

/// The bytes of the random value that Counter mode draws per message: the
/// first half of a block.
pub const NONCE_SIZE: usize = 8;

/// Why a buffer or a key was not accepted.
#[derive(Debug, Clone, Copy, PartialEq, Eq, Structural)]
pub enum CipherError {
    /// The buffer does not end in a well-formed padding.
    Padding,
    /// The length of the buffer is not that of a sequence of whole blocks, or
    /// the buffer is too short to hold the block that a mode puts first.
    InvalidLength,
    /// The key is not exactly `BLOCK_SIZE` bytes long.
    KeyLength,
}

/// The mathematical value of a fallible result that holds bytes.
pub open spec fn view_result(r: Result<Vec<u8>, CipherError>) -> Result<Seq<u8>, CipherError> {
    match r {
        Ok(bytes) => Ok(bytes@),
        Err(e) => Err(e),
    }
}

} // verus!
