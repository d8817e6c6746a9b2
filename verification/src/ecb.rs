//! Electronic Code Book: each block is encrypted on its own.
//!
//! Equal blocks of plaintext give equal blocks of ciphertext under one key,
//! so the ciphertext shows where the plaintext repeats. The mode is not
//! secure; it is here because it is the plainest one, and because that leak
//! is worth seeing.

use vstd::prelude::*;
use crate::blocks::{
    block_at, blocks_view, group, group_spec, lemma_group_un_group, lemma_un_group_group,
    un_group, un_group_spec,
};
use crate::cipher::{aes128_decrypt, aes128_encrypt, aes_decrypt, aes_encrypt, decrypts_back};
use crate::padding::{lemma_pad_len, lemma_un_pad_pad, pad, pad_spec, un_pad, un_pad_spec};
use crate::{view_result, CipherError, BLOCK_SIZE};

verus! {

/// Each of `blocks` encrypted under `key`.
pub open spec fn encrypt_blocks(blocks: Seq<Seq<u8>>, key: Seq<u8>) -> Seq<Seq<u8>> {
    Seq::new(blocks.len(), |i: int| aes128_encrypt(blocks[i], key))
}

/// Each of `blocks` decrypted under `key`.
pub open spec fn decrypt_blocks(blocks: Seq<Seq<u8>>, key: Seq<u8>) -> Seq<Seq<u8>> {
    Seq::new(blocks.len(), |i: int| aes128_decrypt(blocks[i], key))
}

/// The ECB ciphertext of `plain_text` under `key`: the plaintext is padded
/// and cut into blocks, each block is encrypted, and the results are joined.
pub open spec fn ecb_encrypt_spec(plain_text: Seq<u8>, key: Seq<u8>) -> Seq<u8> {
    un_group_spec(encrypt_blocks(group_spec(pad_spec(plain_text)), key))
}

/// What ECB decryption makes of `cipher_text` under `key`: the blocks are
/// decrypted and joined, and the padding is taken off.
pub open spec fn ecb_decrypt_spec(cipher_text: Seq<u8>, key: Seq<u8>) -> Result<
    Seq<u8>,
    CipherError,
> {
    if cipher_text.len() % (BLOCK_SIZE as nat) != 0 {
        Err(CipherError::InvalidLength)
    } else {
        un_pad_spec(un_group_spec(decrypt_blocks(group_spec(cipher_text), key)))
    }
}

/// ECB decryption gives the plaintext back, where the cipher's decryption
/// turns back what its encryption made of each block of the padded
/// plaintext.
pub proof fn lemma_ecb_round_trip(plain_text: Seq<u8>, key: Seq<u8>)
    requires
        forall|i: int|
            0 <= i < group_spec(pad_spec(plain_text)).len() ==> decrypts_back(
                #[trigger] group_spec(pad_spec(plain_text))[i],
                key,
            ),
    ensures
        ecb_decrypt_spec(ecb_encrypt_spec(plain_text, key), key) == Ok::<Seq<u8>, CipherError>(
            plain_text,
        ),
{
    let padded = pad_spec(plain_text);
    let blocks = group_spec(padded);
    let encrypted = encrypt_blocks(blocks, key);
    lemma_pad_len(plain_text);
    lemma_group_un_group(encrypted);
    assert(decrypt_blocks(encrypted, key) =~= blocks);
    lemma_un_group_group(padded);
    lemma_un_pad_pad(plain_text);
}

/// A block of ECB ciphertext depends on the block of padded plaintext in
/// its place and on the key, and on nothing else: where block `i` of one
/// padded plaintext equals block `j` of another, block `i` of the first
/// ciphertext equals block `j` of the second. With one plaintext, a block
/// that repeats in it repeats in its ciphertext.
pub proof fn lemma_ecb_equal_blocks(
    plain_a: Seq<u8>,
    i: int,
    plain_b: Seq<u8>,
    j: int,
    key: Seq<u8>,
)
    requires
        0 <= i < group_spec(pad_spec(plain_a)).len(),
        0 <= j < group_spec(pad_spec(plain_b)).len(),
        block_at(pad_spec(plain_a), i) == block_at(pad_spec(plain_b), j),
    ensures
        block_at(ecb_encrypt_spec(plain_a, key), i) == block_at(
            ecb_encrypt_spec(plain_b, key),
            j,
        ),
{
    let block_a = block_at(ecb_encrypt_spec(plain_a, key), i);
    let block_b = block_at(ecb_encrypt_spec(plain_b, key), j);
    assert(block_a =~= block_b);
}

/// Encrypts `plain_text` under `key` in ECB mode.
pub fn ecb_encrypt(plain_text: Vec<u8>, key: [u8; BLOCK_SIZE]) -> (cipher_text: Vec<u8>)
    ensures
        cipher_text@ == ecb_encrypt_spec(plain_text@, key@),
        ecb_decrypt_spec(cipher_text@, key@) == Ok::<Seq<u8>, CipherError>(plain_text@),
{
    let padded = pad(plain_text);
    let blocks = group(padded).unwrap();
    let mut encrypted: Vec<[u8; BLOCK_SIZE]> = Vec::new();
    let mut i: usize = 0;
    while i < blocks.len()
        invariant
            i <= blocks@.len(),
            encrypted@.len() == i,
            forall|j: int|
                0 <= j < i ==> (#[trigger] encrypted@[j])@ == aes128_encrypt(blocks@[j]@, key@)
                    && aes128_decrypt(encrypted@[j]@, key@) == blocks@[j]@,
        decreases blocks@.len() - i,
    {
        let block = aes_encrypt(blocks[i], &key);
        encrypted.push(block);
        i += 1;
    }
    proof {
        let spec_blocks = group_spec(pad_spec(plain_text@));
        assert(blocks_view(encrypted@) =~= encrypt_blocks(spec_blocks, key@));
        assert forall|j: int| 0 <= j < spec_blocks.len() implies decrypts_back(
            #[trigger] spec_blocks[j],
            key@,
        ) by {
            assert(spec_blocks[j] == blocks@[j]@);
            assert(encrypted@[j]@ == aes128_encrypt(spec_blocks[j], key@));
        }
        lemma_ecb_round_trip(plain_text@, key@);
    }
    un_group(encrypted)
}

/// Decrypts `cipher_text` under `key` in ECB mode.
///
/// Fails with `CipherError::InvalidLength` where `cipher_text` is not a
/// whole number of blocks long, and with `CipherError::Padding` where what
/// the blocks decrypt to does not end in a padding; an empty `cipher_text`
/// is such a case.
pub fn ecb_decrypt(cipher_text: Vec<u8>, key: [u8; BLOCK_SIZE]) -> (r: Result<
    Vec<u8>,
    CipherError,
>)
    ensures
        view_result(r) == ecb_decrypt_spec(cipher_text@, key@),
{
    let blocks = match group(cipher_text) {
        Ok(blocks) => blocks,
        Err(e) => {
            return Err(e);
        },
    };
    let mut decrypted: Vec<[u8; BLOCK_SIZE]> = Vec::new();
    let mut i: usize = 0;
    while i < blocks.len()
        invariant
            i <= blocks@.len(),
            decrypted@.len() == i,
            forall|j: int|
                0 <= j < i ==> (#[trigger] decrypted@[j])@ == aes128_decrypt(blocks@[j]@, key@),
        decreases blocks@.len() - i,
    {
        let block = aes_decrypt(blocks[i], &key);
        decrypted.push(block);
        i += 1;
    }
    assert(blocks_view(decrypted@) =~= decrypt_blocks(group_spec(cipher_text@), key@));
    un_pad(un_group(decrypted))
}

} // verus!
