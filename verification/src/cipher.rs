//! The block cipher adapter: AES-128 on one block, as the `aes` crate
//! computes it.
//!
//! Nothing here is proved about AES. The two functions that make the calls
//! are believed to return what the spec functions `aes128_encrypt` and
//! `aes128_decrypt` name, and the modes are proved against those names.

use vstd::prelude::*;
use aes::cipher::generic_array::GenericArray;
use aes::cipher::{BlockDecrypt, BlockEncrypt, KeyInit};
use aes::Aes128;
use crate::{CipherError, BLOCK_SIZE};

verus! {

/// The block that AES-128 encryption makes of `block` under `key`.
pub uninterp spec fn aes128_encrypt(block: Seq<u8>, key: Seq<u8>) -> Seq<u8>;

/// The block that AES-128 decryption makes of `block` under `key`.
pub uninterp spec fn aes128_decrypt(block: Seq<u8>, key: Seq<u8>) -> Seq<u8>;

/// Whether the encryption of `block` under `key` is a block that decryption
/// under `key` turns back into `block`. `aes_encrypt` reports this of every
/// block that it encrypts.
pub open spec fn decrypts_back(block: Seq<u8>, key: Seq<u8>) -> bool {
    &&& aes128_encrypt(block, key).len() == BLOCK_SIZE
    &&& aes128_decrypt(aes128_encrypt(block, key), key) == block
}

/// Encrypts one block with AES-128, by `Aes128::new` and
/// `BlockEncrypt::encrypt_block` of the `aes` crate.
///
/// Trusted: the result is the block that `aes128_encrypt` names, and
/// AES-128 decryption under the same key turns it back into `data`, as the
/// crate's documentation shows by example.
#[verifier::external_body]
pub(crate) fn aes_encrypt(data: [u8; BLOCK_SIZE], key: &[u8; BLOCK_SIZE]) -> (out: [
    u8;
    BLOCK_SIZE
])
    ensures
        out@ == aes128_encrypt(data@, key@),
        aes128_decrypt(out@, key@) == data@,
{
    let mut block = GenericArray::from(data);
    let key = GenericArray::from(*key);
    let cipher = Aes128::new(&key);
    cipher.encrypt_block(&mut block);
    block.into()
}

/// Decrypts one block with AES-128, by `Aes128::new` and
/// `BlockDecrypt::decrypt_block` of the `aes` crate.
///
/// Trusted: the result is the block that `aes128_decrypt` names.
#[verifier::external_body]
pub(crate) fn aes_decrypt(data: [u8; BLOCK_SIZE], key: &[u8; BLOCK_SIZE]) -> (out: [
    u8;
    BLOCK_SIZE
])
    ensures
        out@ == aes128_decrypt(data@, key@),
{
    let mut block = GenericArray::from(data);
    let key = GenericArray::from(*key);
    let cipher = Aes128::new(&key);
    cipher.decrypt_block(&mut block);
    block.into()
}

/// A key made of `bytes`.
///
/// Fails with `CipherError::KeyLength` where `bytes` is not exactly
/// `BLOCK_SIZE` bytes long.
pub fn key_from_slice(bytes: &[u8]) -> (r: Result<[u8; BLOCK_SIZE], CipherError>)
    ensures
        match r {
            Ok(key) => bytes@.len() == BLOCK_SIZE && key@ == bytes@,
            Err(e) => bytes@.len() != BLOCK_SIZE && e == CipherError::KeyLength,
        },
{
    if bytes.len() != BLOCK_SIZE {
        return Err(CipherError::KeyLength);
    }
    let mut key: [u8; BLOCK_SIZE] = [0u8; BLOCK_SIZE];
    let mut j: usize = 0;
    while j < BLOCK_SIZE
        invariant
            j <= BLOCK_SIZE,
            bytes@.len() == BLOCK_SIZE,
            forall|k: int| 0 <= k < j ==> key@[k] == bytes@[k],
        decreases BLOCK_SIZE - j,
    {
        key[j] = bytes[j];
        j += 1;
    }
    assert(key@ =~= bytes@);
    Ok(key)
}

} // verus!
