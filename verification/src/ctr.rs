//! Counter mode: the cipher makes a keystream out of a nonce and a counter,
//! and the plaintext is combined with it.
//!
//! Block `i` of the keystream is the encryption of the counter block `i`:
//! the nonce in its first half, the number `i` in its second, written as 8
//! bytes with the lowest byte first. Encryption and decryption write the
//! counter the same way. The nonce is random per message and travels as the
//! first half of the first block of the ciphertext; the second half of that
//! block is zero when written and is not looked at when read.
//!
//! No block depends on another, so the blocks can be worked on in any order.

use vstd::prelude::*;
use vstd::bytes::{spec_u64_to_le_bytes, u64_to_le_bytes};
use crate::blocks::{
    block_at, blocks_view, group, group_spec, lemma_group_len, lemma_group_un_group,
    lemma_un_group_first, lemma_un_group_group, lemma_xor_cancel, lemma_xor_injective,
    push_block, un_group, un_group_spec, whole_blocks, xor_blocks, xor_spec,
};
use crate::cipher::{aes128_encrypt, aes_encrypt};
use crate::entropy::random_nonce;
use crate::padding::{lemma_pad_len, lemma_un_pad_pad, pad, pad_spec, un_pad, un_pad_spec};
use crate::{view_result, CipherError, BLOCK_SIZE, NONCE_SIZE};

verus! {

/// The counter block for `counter`: `nonce`, then `counter` as 8 bytes, the
/// lowest first.
pub open spec fn counter_block_spec(nonce: Seq<u8>, counter: u64) -> Seq<u8> {
    nonce + spec_u64_to_le_bytes(counter)
}

/// Block `counter` of the keystream under `key` and `nonce`.
pub open spec fn keystream_block(nonce: Seq<u8>, key: Seq<u8>, counter: u64) -> Seq<u8> {
    aes128_encrypt(counter_block_spec(nonce, counter), key)
}

/// Each of `blocks` combined with the block of the keystream in its place.
/// Counter mode encrypts with it and decrypts with it.
pub open spec fn ctr_apply(blocks: Seq<Seq<u8>>, nonce: Seq<u8>, key: Seq<u8>) -> Seq<Seq<u8>> {
    Seq::new(blocks.len(), |i: int| xor_spec(blocks[i], keystream_block(nonce, key, i as u64)))
}

/// The block that carries `nonce`: the nonce, then zeros.
pub open spec fn nonce_block(nonce: Seq<u8>) -> Seq<u8> {
    nonce + Seq::new((BLOCK_SIZE - NONCE_SIZE) as nat, |i: int| 0u8)
}

/// The CTR ciphertext of `plain_text` under `key` and `nonce`: the block
/// that carries the nonce, then the blocks of the padded plaintext combined
/// with the keystream.
pub open spec fn ctr_encrypt_spec(plain_text: Seq<u8>, key: Seq<u8>, nonce: Seq<u8>) -> Seq<u8> {
    nonce_block(nonce) + un_group_spec(ctr_apply(group_spec(pad_spec(plain_text)), nonce, key))
}

/// What CTR decryption makes of `cipher_text` under `key`, before the
/// padding is taken off: the blocks after the first, combined with the
/// keystream of the nonce that the first block begins with.
pub open spec fn ctr_plain_blocks(cipher_text: Seq<u8>, key: Seq<u8>) -> Seq<Seq<u8>> {
    ctr_apply(group_spec(cipher_text).skip(1), cipher_text.take(NONCE_SIZE as int), key)
}

/// What CTR decryption makes of `cipher_text` under `key`.
pub open spec fn ctr_decrypt_spec(cipher_text: Seq<u8>, key: Seq<u8>) -> Result<
    Seq<u8>,
    CipherError,
> {
    if cipher_text.len() % (BLOCK_SIZE as nat) != 0 || cipher_text.len() < BLOCK_SIZE {
        Err(CipherError::InvalidLength)
    } else {
        un_pad_spec(un_group_spec(ctr_plain_blocks(cipher_text, key)))
    }
}

/// CTR decryption gives the plaintext back, whatever the key and the nonce.
pub proof fn lemma_ctr_round_trip(plain_text: Seq<u8>, key: Seq<u8>, nonce: Seq<u8>)
    requires
        nonce.len() == NONCE_SIZE,
    ensures
        ctr_decrypt_spec(ctr_encrypt_spec(plain_text, key, nonce), key) == Ok::<
            Seq<u8>,
            CipherError,
        >(plain_text),
{
    let padded = pad_spec(plain_text);
    let blocks = group_spec(padded);
    let applied = ctr_apply(blocks, nonce, key);
    let cipher_text = ctr_encrypt_spec(plain_text, key, nonce);
    let sent = seq![nonce_block(nonce)] + applied;
    lemma_pad_len(plain_text);
    lemma_group_len(padded);
    lemma_un_group_first(nonce_block(nonce), applied);
    assert(whole_blocks(sent));
    lemma_group_un_group(sent);
    assert(group_spec(cipher_text) == sent);
    assert(sent.skip(1) =~= applied);
    assert(cipher_text.take(NONCE_SIZE as int) =~= nonce);
    assert forall|i: int| 0 <= i < blocks.len() implies ctr_apply(applied, nonce, key)[i]
        == blocks[i] by {
        lemma_xor_cancel(blocks[i], keystream_block(nonce, key, i as u64));
    }
    assert(ctr_plain_blocks(cipher_text, key) =~= blocks);
    lemma_un_group_group(padded);
    lemma_un_pad_pad(plain_text);
}

/// A change to one block of a CTR ciphertext changes the block in its place
/// of what decryption gives, before the padding is taken off, and no other:
/// where two ciphertexts of one length begin with the same nonce, block `i`
/// of what they decrypt to differs by exactly what their blocks `i + 1`
/// differ by, and so is the same exactly where those are.
pub proof fn lemma_ctr_change_stays_in_block(
    cipher_a: Seq<u8>,
    cipher_b: Seq<u8>,
    key: Seq<u8>,
    i: int,
)
    requires
        cipher_a.len() == cipher_b.len(),
        cipher_a.len() % (BLOCK_SIZE as nat) == 0,
        cipher_a.take(NONCE_SIZE as int) == cipher_b.take(NONCE_SIZE as int),
        0 <= i,
        (i + 2) * BLOCK_SIZE <= cipher_a.len(),
    ensures
        ctr_plain_blocks(cipher_b, key)[i] == xor_spec(
            ctr_plain_blocks(cipher_a, key)[i],
            xor_spec(block_at(cipher_a, i + 1), block_at(cipher_b, i + 1)),
        ),
        ctr_plain_blocks(cipher_a, key)[i] == ctr_plain_blocks(cipher_b, key)[i] <==> block_at(
            cipher_a,
            i + 1,
        ) == block_at(cipher_b, i + 1),
{
    let nonce = cipher_a.take(NONCE_SIZE as int);
    let mask = keystream_block(nonce, key, i as u64);
    let sent_a = block_at(cipher_a, i + 1);
    let sent_b = block_at(cipher_b, i + 1);
    let opened_a = ctr_plain_blocks(cipher_a, key)[i];
    let opened_b = ctr_plain_blocks(cipher_b, key)[i];
    assert(group_spec(cipher_a).skip(1)[i] == sent_a);
    assert(group_spec(cipher_b).skip(1)[i] == sent_b);
    lemma_xor_injective(sent_a, sent_b, mask);
    assert forall|k: int| 0 <= k < BLOCK_SIZE implies opened_b[k] == xor_spec(
        opened_a,
        xor_spec(sent_a, sent_b),
    )[k] by {
        let m: u8 = mask[k];
        let x: u8 = sent_a[k];
        let y: u8 = sent_b[k];
        assert(y ^ m == (x ^ m) ^ (x ^ y)) by (bit_vector);
    }
    assert(opened_b =~= xor_spec(opened_a, xor_spec(sent_a, sent_b)));
}

/// The counter block for `counter`.
pub fn counter_block(nonce: &[u8; NONCE_SIZE], counter: u64) -> (block: [u8; BLOCK_SIZE])
    ensures
        block@ == counter_block_spec(nonce@, counter),
{
    let low_first = u64_to_le_bytes(counter);
    let mut block: [u8; BLOCK_SIZE] = [0u8; BLOCK_SIZE];
    let mut j: usize = 0;
    while j < NONCE_SIZE
        invariant
            j <= NONCE_SIZE,
            low_first@.len() == NONCE_SIZE,
            forall|k: int| 0 <= k < j ==> block@[k] == nonce@[k],
            forall|k: int| 0 <= k < j ==> block@[NONCE_SIZE + k] == low_first@[k],
        decreases NONCE_SIZE - j,
    {
        block[j] = nonce[j];
        block[NONCE_SIZE + j] = low_first[j];
        j += 1;
    }
    assert(block@ =~= counter_block_spec(nonce@, counter));
    block
}

/// Combines `block` with block `counter` of the keystream under `key` and
/// `nonce`. This turns block `counter` of a padded plaintext into block
/// `counter` of its ciphertext, and back.
pub fn ctr_transform_block(
    block: &[u8; BLOCK_SIZE],
    nonce: &[u8; NONCE_SIZE],
    counter: u64,
    key: &[u8; BLOCK_SIZE],
) -> (out: [u8; BLOCK_SIZE])
    ensures
        out@ == xor_spec(block@, keystream_block(nonce@, key@, counter)),
{
    let mask = aes_encrypt(counter_block(nonce, counter), key);
    xor_blocks(block, &mask)
}

/// The nonce that `block` carries: its first half.
pub fn nonce_of(block: &[u8; BLOCK_SIZE]) -> (nonce: [u8; NONCE_SIZE])
    ensures
        nonce@ == block@.take(NONCE_SIZE as int),
{
    let mut nonce: [u8; NONCE_SIZE] = [0u8; NONCE_SIZE];
    let mut j: usize = 0;
    while j < NONCE_SIZE
        invariant
            j <= NONCE_SIZE,
            forall|k: int| 0 <= k < j ==> nonce@[k] == block@[k],
        decreases NONCE_SIZE - j,
    {
        nonce[j] = block[j];
        j += 1;
    }
    assert(nonce@ =~= block@.take(NONCE_SIZE as int));
    nonce
}

/// The block that carries `nonce`.
pub fn nonce_header(nonce: &[u8; NONCE_SIZE]) -> (block: [u8; BLOCK_SIZE])
    ensures
        block@ == nonce_block(nonce@),
{
    let mut block: [u8; BLOCK_SIZE] = [0u8; BLOCK_SIZE];
    let mut j: usize = 0;
    while j < NONCE_SIZE
        invariant
            j <= NONCE_SIZE,
            forall|k: int| 0 <= k < j ==> block@[k] == nonce@[k],
            forall|k: int| NONCE_SIZE <= k < BLOCK_SIZE ==> block@[k] == 0,
        decreases NONCE_SIZE - j,
    {
        block[j] = nonce[j];
        j += 1;
    }
    assert(block@ =~= nonce_block(nonce@));
    block
}

/// Encrypts `plain_text` under `key` in CTR mode, with `nonce` as the
/// nonce.
///
/// A nonce must be used for one message only. `ctr_encrypt` draws a fresh
/// one; this function is for a caller that brings its own source of random
/// bytes.
pub fn ctr_encrypt_with_nonce(
    plain_text: Vec<u8>,
    key: [u8; BLOCK_SIZE],
    nonce: [u8; NONCE_SIZE],
) -> (cipher_text: Vec<u8>)
    ensures
        cipher_text@ == ctr_encrypt_spec(plain_text@, key@, nonce@),
        ctr_decrypt_spec(cipher_text@, key@) == Ok::<Seq<u8>, CipherError>(plain_text@),
{
    let padded = pad(plain_text);
    let blocks = group(padded).unwrap();
    let ghost spec_blocks = group_spec(pad_spec(plain_text@));
    let mut encrypted: Vec<[u8; BLOCK_SIZE]> = Vec::new();
    let mut i: usize = 0;
    while i < blocks.len()
        invariant
            i <= blocks@.len(),
            encrypted@.len() == i,
            spec_blocks == blocks_view(blocks@),
            forall|j: int|
                0 <= j < i ==> (#[trigger] encrypted@[j])@ == xor_spec(
                    spec_blocks[j],
                    keystream_block(nonce@, key@, j as u64),
                ),
        decreases blocks@.len() - i,
    {
        let block = ctr_transform_block(&blocks[i], &nonce, i as u64, &key);
        encrypted.push(block);
        i += 1;
    }
    let mut body = un_group(encrypted);
    let header = nonce_header(&nonce);
    let mut cipher_text: Vec<u8> = Vec::new();
    push_block(&mut cipher_text, &header);
    cipher_text.append(&mut body);
    proof {
        assert(blocks_view(encrypted@) =~= ctr_apply(spec_blocks, nonce@, key@));
        lemma_ctr_round_trip(plain_text@, key@, nonce@);
    }
    cipher_text
}

/// Encrypts `plain_text` under `key` in CTR mode, with a fresh random
/// nonce.
///
/// The nonce is the first half of the first block of the result, so the
/// result is the CTR ciphertext of `plain_text` under `key` and its own
/// first `NONCE_SIZE` bytes.
pub fn ctr_encrypt(plain_text: Vec<u8>, key: [u8; BLOCK_SIZE]) -> (cipher_text: Vec<u8>)
    ensures
        cipher_text@.len() >= BLOCK_SIZE,
        cipher_text@ == ctr_encrypt_spec(
            plain_text@,
            key@,
            cipher_text@.take(NONCE_SIZE as int),
        ),
        ctr_decrypt_spec(cipher_text@, key@) == Ok::<Seq<u8>, CipherError>(plain_text@),
{
    let nonce = random_nonce();
    let cipher_text = ctr_encrypt_with_nonce(plain_text, key, nonce);
    assert(cipher_text@.take(NONCE_SIZE as int) =~= nonce@);
    cipher_text
}

/// Decrypts `cipher_text` under `key` in CTR mode.
///
/// Fails with `CipherError::InvalidLength` where `cipher_text` is not a
/// whole number of blocks long or holds no block for the nonce, and with
/// `CipherError::Padding` where what the blocks decrypt to does not end in a
/// padding; a `cipher_text` of the nonce block alone is such a case.
pub fn ctr_decrypt(cipher_text: Vec<u8>, key: [u8; BLOCK_SIZE]) -> (r: Result<
    Vec<u8>,
    CipherError,
>)
    ensures
        view_result(r) == ctr_decrypt_spec(cipher_text@, key@),
{
    let blocks = match group(cipher_text) {
        Ok(blocks) => blocks,
        Err(e) => {
            return Err(e);
        },
    };
    if blocks.len() == 0 {
        return Err(CipherError::InvalidLength);
    }
    let nonce = nonce_of(&blocks[0]);
    assert(nonce@ =~= cipher_text@.take(NONCE_SIZE as int)) by {
        assert(blocks_view(blocks@)[0] == block_at(cipher_text@, 0));
    }
    let ghost spec_blocks = group_spec(cipher_text@).skip(1);
    let mut decrypted: Vec<[u8; BLOCK_SIZE]> = Vec::new();
    let mut i: usize = 1;
    while i < blocks.len()
        invariant
            1 <= i <= blocks@.len(),
            decrypted@.len() == i - 1,
            spec_blocks == blocks_view(blocks@).skip(1),
            forall|j: int|
                0 <= j < i - 1 ==> (#[trigger] decrypted@[j])@ == xor_spec(
                    spec_blocks[j],
                    keystream_block(nonce@, key@, j as u64),
                ),
        decreases blocks@.len() - i,
    {
        let block = ctr_transform_block(&blocks[i], &nonce, (i - 1) as u64, &key);
        decrypted.push(block);
        i += 1;
    }
    assert(blocks_view(decrypted@) =~= ctr_plain_blocks(cipher_text@, key@));
    un_pad(un_group(decrypted))
}

} // verus!
