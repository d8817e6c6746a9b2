//! Cipher Block Chaining: each block of plaintext is combined with the
//! block of ciphertext before it, and then encrypted.
//!
//! The first block has no block before it. A random block, the
//! initialization vector (IV), takes that place, and travels as the first
//! block of the ciphertext. Encryption is a chain: block `i` cannot be
//! encrypted before block `i - 1` is. Decryption is not: every block that it
//! needs is in the ciphertext already.

use vstd::prelude::*;
use crate::blocks::{
    block_at, blocks_view, group, group_spec, lemma_group_len, lemma_group_un_group,
    lemma_un_group_first, lemma_un_group_group, lemma_xor_cancel, push_block, un_group,
    un_group_spec, whole_blocks, xor_blocks, xor_spec,
};
use crate::cipher::{aes128_decrypt, aes128_encrypt, aes_decrypt, aes_encrypt, decrypts_back};
use crate::entropy::random_block;
use crate::padding::{lemma_pad_len, lemma_un_pad_pad, pad, pad_spec, un_pad, un_pad_spec};
use crate::{view_result, CipherError, BLOCK_SIZE};

verus! {

/// Block `i` of the chain that CBC makes of `blocks` under `key`, started
/// with `iv`: the encryption of block `i` combined with block `i - 1` of
/// the chain. Block `-1` of the chain is `iv`.
pub open spec fn cbc_cipher_block(blocks: Seq<Seq<u8>>, key: Seq<u8>, iv: Seq<u8>, i: int) -> Seq<
    u8,
>
    decreases i + 1, 1int,
{
    if i < 0 {
        iv
    } else {
        aes128_encrypt(cbc_input_block(blocks, key, iv, i), key)
    }
}

/// What CBC hands to the cipher for block `i`: block `i` of the plaintext,
/// combined with block `i - 1` of the chain.
pub open spec fn cbc_input_block(blocks: Seq<Seq<u8>>, key: Seq<u8>, iv: Seq<u8>, i: int) -> Seq<
    u8,
>
    decreases i + 1, 0int,
{
    if i < 0 {
        Seq::empty()
    } else {
        xor_spec(blocks[i], cbc_cipher_block(blocks, key, iv, i - 1))
    }
}

/// The chain that CBC makes of `blocks`, without the IV.
pub open spec fn cbc_cipher_blocks(blocks: Seq<Seq<u8>>, key: Seq<u8>, iv: Seq<u8>) -> Seq<
    Seq<u8>,
> {
    Seq::new(blocks.len(), |i: int| cbc_cipher_block(blocks, key, iv, i))
}

/// The CBC ciphertext of `plain_text` under `key` and `iv`: the IV, then
/// the chain made of the blocks of the padded plaintext.
pub open spec fn cbc_encrypt_spec(plain_text: Seq<u8>, key: Seq<u8>, iv: Seq<u8>) -> Seq<u8> {
    iv + un_group_spec(cbc_cipher_blocks(group_spec(pad_spec(plain_text)), key, iv))
}

/// Block `i` of what CBC decryption makes of `blocks`, before the padding
/// is taken off: the decryption of block `i + 1`, combined with block `i`.
/// Block 0 is the IV.
pub open spec fn cbc_plain_block(blocks: Seq<Seq<u8>>, key: Seq<u8>, i: int) -> Seq<u8> {
    xor_spec(aes128_decrypt(blocks[i + 1], key), blocks[i])
}

/// What CBC decryption makes of the blocks of a ciphertext, the IV first,
/// before the padding is taken off.
pub open spec fn cbc_plain_blocks(blocks: Seq<Seq<u8>>, key: Seq<u8>) -> Seq<Seq<u8>> {
    Seq::new((blocks.len() - 1) as nat, |i: int| cbc_plain_block(blocks, key, i))
}

/// What CBC decryption makes of `cipher_text` under `key`.
pub open spec fn cbc_decrypt_spec(cipher_text: Seq<u8>, key: Seq<u8>) -> Result<
    Seq<u8>,
    CipherError,
> {
    if cipher_text.len() % (BLOCK_SIZE as nat) != 0 || cipher_text.len() < BLOCK_SIZE {
        Err(CipherError::InvalidLength)
    } else {
        un_pad_spec(un_group_spec(cbc_plain_blocks(group_spec(cipher_text), key)))
    }
}

/// CBC decryption gives the plaintext back, where the cipher's decryption
/// turns back what its encryption made of each block that the chain handed
/// to it.
pub proof fn lemma_cbc_round_trip(plain_text: Seq<u8>, key: Seq<u8>, iv: Seq<u8>)
    requires
        iv.len() == BLOCK_SIZE,
        forall|i: int|
            0 <= i < group_spec(pad_spec(plain_text)).len() ==> decrypts_back(
                #[trigger] cbc_input_block(group_spec(pad_spec(plain_text)), key, iv, i),
                key,
            ),
    ensures
        cbc_decrypt_spec(cbc_encrypt_spec(plain_text, key, iv), key) == Ok::<
            Seq<u8>,
            CipherError,
        >(plain_text),
{
    let padded = pad_spec(plain_text);
    let blocks = group_spec(padded);
    let chain = cbc_cipher_blocks(blocks, key, iv);
    let cipher_text = cbc_encrypt_spec(plain_text, key, iv);
    let sent = seq![iv] + chain;
    lemma_pad_len(plain_text);
    lemma_group_len(padded);
    assert forall|i: int| 0 <= i < chain.len() implies (#[trigger] chain[i]).len()
        == BLOCK_SIZE by {
        assert(decrypts_back(cbc_input_block(blocks, key, iv, i), key));
    }
    lemma_un_group_first(iv, chain);
    assert(whole_blocks(sent));
    lemma_group_un_group(sent);
    assert(group_spec(cipher_text) == sent);
    assert forall|i: int| 0 <= i < blocks.len() implies cbc_plain_block(sent, key, i)
        == blocks[i] by {
        assert(decrypts_back(cbc_input_block(blocks, key, iv, i), key));
        assert(sent[i] == cbc_cipher_block(blocks, key, iv, i - 1));
        assert(sent[i + 1] == cbc_cipher_block(blocks, key, iv, i));
        lemma_xor_cancel(blocks[i], sent[i]);
    }
    assert(cbc_plain_blocks(sent, key) =~= blocks);
    lemma_un_group_group(padded);
    lemma_un_pad_pad(plain_text);
}

/// The IV is the first block of the ciphertext, so one plaintext under one
/// key and two different IVs gives two different ciphertexts.
pub proof fn lemma_cbc_ivs_differ(plain_text: Seq<u8>, key: Seq<u8>, iv1: Seq<u8>, iv2: Seq<u8>)
    requires
        iv1.len() == BLOCK_SIZE,
        iv2.len() == BLOCK_SIZE,
        iv1 != iv2,
    ensures
        block_at(cbc_encrypt_spec(plain_text, key, iv1), 0) == iv1,
        block_at(cbc_encrypt_spec(plain_text, key, iv2), 0) == iv2,
        cbc_encrypt_spec(plain_text, key, iv1) != cbc_encrypt_spec(plain_text, key, iv2),
{
    assert(block_at(cbc_encrypt_spec(plain_text, key, iv1), 0) =~= iv1);
    assert(block_at(cbc_encrypt_spec(plain_text, key, iv2), 0) =~= iv2);
}

/// A block of what CBC decryption gives depends on two blocks of the
/// ciphertext: the one in its place and the one before. Where two
/// ciphertexts agree on block `i + 1`, block `i` of what they decrypt to
/// differs by exactly what their blocks `i` differ by; where they agree on
/// block `i` too, it is the same.
pub proof fn lemma_cbc_error_propagation(
    cipher_a: Seq<u8>,
    cipher_b: Seq<u8>,
    key: Seq<u8>,
    i: int,
)
    requires
        cipher_a.len() == cipher_b.len(),
        cipher_a.len() % (BLOCK_SIZE as nat) == 0,
        0 <= i,
        (i + 2) * BLOCK_SIZE <= cipher_a.len(),
        block_at(cipher_a, i + 1) == block_at(cipher_b, i + 1),
    ensures
        cbc_plain_block(group_spec(cipher_b), key, i) == xor_spec(
            cbc_plain_block(group_spec(cipher_a), key, i),
            xor_spec(block_at(cipher_a, i), block_at(cipher_b, i)),
        ),
        block_at(cipher_a, i) == block_at(cipher_b, i) ==> cbc_plain_block(
            group_spec(cipher_b),
            key,
            i,
        ) == cbc_plain_block(group_spec(cipher_a), key, i),
{
    let blocks_a = group_spec(cipher_a);
    let blocks_b = group_spec(cipher_b);
    assert(blocks_a[i + 1] == blocks_b[i + 1]);
    let d = aes128_decrypt(blocks_a[i + 1], key);
    let opened_a = cbc_plain_block(blocks_a, key, i);
    let opened_b = cbc_plain_block(blocks_b, key, i);
    let delta = xor_spec(block_at(cipher_a, i), block_at(cipher_b, i));
    assert forall|k: int| 0 <= k < BLOCK_SIZE implies opened_b[k] == xor_spec(
        opened_a,
        delta,
    )[k] by {
        let x: u8 = d[k];
        let before_a: u8 = blocks_a[i][k];
        let before_b: u8 = blocks_b[i][k];
        assert(x ^ before_b == (x ^ before_a) ^ (before_a ^ before_b)) by (bit_vector);
    }
    assert(opened_b =~= xor_spec(opened_a, delta));
}

/// Encrypts `plain_text` under `key` in CBC mode, with `iv` as the
/// initialization vector.
///
/// An IV must be used for one message only. `cbc_encrypt` draws a fresh one;
/// this function is for a caller that brings its own source of random bytes.
pub fn cbc_encrypt_with_iv(
    plain_text: Vec<u8>,
    key: [u8; BLOCK_SIZE],
    iv: [u8; BLOCK_SIZE],
) -> (cipher_text: Vec<u8>)
    ensures
        cipher_text@ == cbc_encrypt_spec(plain_text@, key@, iv@),
        cbc_decrypt_spec(cipher_text@, key@) == Ok::<Seq<u8>, CipherError>(plain_text@),
{
    let padded = pad(plain_text);
    let blocks = group(padded).unwrap();
    let ghost spec_blocks = group_spec(pad_spec(plain_text@));
    let mut chain: Vec<[u8; BLOCK_SIZE]> = Vec::new();
    let mut previous: [u8; BLOCK_SIZE] = iv;
    let mut i: usize = 0;
    while i < blocks.len()
        invariant
            i <= blocks@.len(),
            chain@.len() == i,
            spec_blocks == blocks_view(blocks@),
            previous@ == cbc_cipher_block(spec_blocks, key@, iv@, i - 1),
            forall|j: int|
                0 <= j < i ==> (#[trigger] chain@[j])@ == cbc_cipher_block(
                    spec_blocks,
                    key@,
                    iv@,
                    j,
                ),
            forall|j: int|
                0 <= j < i ==> decrypts_back(
                    #[trigger] cbc_input_block(spec_blocks, key@, iv@, j),
                    key@,
                ),
        decreases blocks@.len() - i,
    {
        let mixed = xor_blocks(&blocks[i], &previous);
        assert(mixed@ == cbc_input_block(spec_blocks, key@, iv@, i as int));
        let block = aes_encrypt(mixed, &key);
        previous = block;
        chain.push(block);
        i += 1;
    }
    let mut body = un_group(chain);
    let mut cipher_text: Vec<u8> = Vec::new();
    push_block(&mut cipher_text, &iv);
    cipher_text.append(&mut body);
    proof {
        assert(blocks_view(chain@) =~= cbc_cipher_blocks(spec_blocks, key@, iv@));
        lemma_cbc_round_trip(plain_text@, key@, iv@);
    }
    cipher_text
}

/// Encrypts `plain_text` under `key` in CBC mode, with a fresh random IV.
///
/// The IV is the first block of the result, so the result is the CBC
/// ciphertext of `plain_text` under `key` and its own first block.
pub fn cbc_encrypt(plain_text: Vec<u8>, key: [u8; BLOCK_SIZE]) -> (cipher_text: Vec<u8>)
    ensures
        cipher_text@.len() >= BLOCK_SIZE,
        cipher_text@ == cbc_encrypt_spec(plain_text@, key@, block_at(cipher_text@, 0)),
        cbc_decrypt_spec(cipher_text@, key@) == Ok::<Seq<u8>, CipherError>(plain_text@),
{
    let iv = random_block();
    let cipher_text = cbc_encrypt_with_iv(plain_text, key, iv);
    assert(block_at(cipher_text@, 0) =~= iv@);
    cipher_text
}

/// Decrypts `cipher_text` under `key` in CBC mode.
///
/// Fails with `CipherError::InvalidLength` where `cipher_text` is not a
/// whole number of blocks long or holds no block for the IV, and with
/// `CipherError::Padding` where what the blocks decrypt to does not end in a
/// padding; a `cipher_text` of the IV alone is such a case.
pub fn cbc_decrypt(cipher_text: Vec<u8>, key: [u8; BLOCK_SIZE]) -> (r: Result<
    Vec<u8>,
    CipherError,
>)
    ensures
        view_result(r) == cbc_decrypt_spec(cipher_text@, key@),
{
    let blocks = match group(cipher_text) {
        Ok(blocks) => blocks,
        Err(e) => {
            return Err(e);
        },
    };
    if blocks.len() == 0 {
        return Err(CipherError::InvalidLength);
    }
    let ghost spec_blocks = group_spec(cipher_text@);
    let mut decrypted: Vec<[u8; BLOCK_SIZE]> = Vec::new();
    let mut i: usize = 1;
    while i < blocks.len()
        invariant
            1 <= i <= blocks@.len(),
            decrypted@.len() == i - 1,
            spec_blocks == blocks_view(blocks@),
            forall|j: int|
                0 <= j < i - 1 ==> (#[trigger] decrypted@[j])@ == cbc_plain_block(
                    spec_blocks,
                    key@,
                    j,
                ),
        decreases blocks@.len() - i,
    {
        let opened = aes_decrypt(blocks[i], &key);
        let block = xor_blocks(&opened, &blocks[i - 1]);
        decrypted.push(block);
        i += 1;
    }
    assert(blocks_view(decrypted@) =~= cbc_plain_blocks(spec_blocks, key@));
    un_pad(un_group(decrypted))
}

} // verus!
