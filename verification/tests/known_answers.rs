use aes_modes::cbc::{cbc_decrypt, cbc_encrypt_with_iv};
use aes_modes::ctr::{counter_block, ctr_decrypt, ctr_encrypt_with_nonce, ctr_transform_block};
use aes_modes::ctr::{nonce_header, nonce_of};
use aes_modes::ecb::{ecb_decrypt, ecb_encrypt};
use aes_modes::BLOCK_SIZE;

fn hex(text: &str) -> Vec<u8> {
    let digits: Vec<u8> = text
        .bytes()
        .filter(|b| !b.is_ascii_whitespace())
        .map(|b| (b as char).to_digit(16).unwrap() as u8)
        .collect();
    digits.chunks(2).map(|pair| pair[0] * 16 + pair[1]).collect()
}

fn block(text: &str) -> [u8; BLOCK_SIZE] {
    let bytes = hex(text);
    let mut out = [0u8; BLOCK_SIZE];
    out.copy_from_slice(&bytes);
    out
}

const KEY_A: &str = "000102030405060708090a0b0c0d0e0f";
const PLAIN_A: &str = "00112233445566778899aabbccddeeff";
const CIPHER_A: &str = "69c4e0d86a7b0430d8cdb78070b4c55a";

const KEY_B: &str = "2b7e151628aed2a6abf7158809cf4f3c";
const PLAIN_B: &str = "6bc1bee22e409f96e93d7e117393172a
                       ae2d8a571e03ac9c9eb76fac45af8e51
                       30c81c46a35ce411e5fbc1191a0a52ef
                       f69f2445df4f9b17ad2b417be66c3710";

#[test]
fn ecb_encrypts_one_block_as_the_standard_says() {
    let cipher_text = ecb_encrypt(hex(PLAIN_A), block(KEY_A));
    assert_eq!(cipher_text.len(), 32);
    assert_eq!(&cipher_text[..16], &hex(CIPHER_A)[..]);
}

#[test]
fn ecb_encrypts_four_blocks_as_the_standard_says() {
    let expected = hex(
        "3ad77bb40d7a3660a89ecaf32466ef97
         f5d3d58503b9699de785895a96fdbaaf
         43b1cd7f598ece23881b00e3ed030688
         7b0c785e27e8ad3f8223207104725dd4",
    );
    let cipher_text = ecb_encrypt(hex(PLAIN_B), block(KEY_B));
    assert_eq!(cipher_text.len(), 80);
    assert_eq!(&cipher_text[..64], &expected[..]);
    assert_eq!(ecb_decrypt(cipher_text, block(KEY_B)), Ok(hex(PLAIN_B)));
}

#[test]
fn ecb_pads_before_it_encrypts() {
    let key = block(KEY_A);
    let short = ecb_encrypt(vec![1, 2, 3], key);
    let mut padded = vec![1u8, 2, 3];
    padded.extend(vec![13u8; 13]);
    let whole = ecb_encrypt(padded, key);
    assert_eq!(short.len(), 16);
    assert_eq!(&whole[..16], &short[..]);
}

#[test]
fn cbc_encrypts_four_blocks_as_the_standard_says() {
    let iv = block("000102030405060708090a0b0c0d0e0f");
    let expected = hex(
        "7649abac8119b246cee98e9b12e9197d
         5086cb9b507219ee95db113a917678b2
         73bed6b8e3c1743b7116e69e22229516
         3ff1caa1681fac09120eca307586e1a7",
    );
    let cipher_text = cbc_encrypt_with_iv(hex(PLAIN_B), block(KEY_B), iv);
    assert_eq!(cipher_text.len(), 96);
    assert_eq!(&cipher_text[..16], &iv[..]);
    assert_eq!(&cipher_text[16..80], &expected[..]);
    assert_eq!(cbc_decrypt(cipher_text, block(KEY_B)), Ok(hex(PLAIN_B)));
}

#[test]
fn cbc_with_a_zero_iv_starts_like_ecb() {
    let key = block(KEY_A);
    let cipher_text = cbc_encrypt_with_iv(hex(PLAIN_A), key, [0u8; 16]);
    assert_eq!(&cipher_text[..16], &[0u8; 16][..]);
    assert_eq!(&cipher_text[16..32], &hex(CIPHER_A)[..]);
    let ecb = ecb_encrypt(hex(PLAIN_A), key);
    assert_ne!(&cipher_text[32..48], &ecb[16..32]);
}

#[test]
fn cbc_decrypts_a_block_and_combines_it_with_the_one_before() {
    let mut wanted = b"hello".to_vec();
    wanted.extend(vec![11u8; 11]);
    let opened = hex(PLAIN_A);
    let mut cipher_text: Vec<u8> = (0..16).map(|i| opened[i] ^ wanted[i]).collect();
    cipher_text.extend(hex(CIPHER_A));
    assert_eq!(cbc_decrypt(cipher_text, block(KEY_A)), Ok(b"hello".to_vec()));
}

#[test]
fn ecb_decrypts_one_block_as_the_standard_says() {
    let key = block(KEY_A);
    let mut cipher_text = hex(CIPHER_A);
    let tail = ecb_encrypt(vec![], key);
    cipher_text.extend(tail);
    assert_eq!(ecb_decrypt(cipher_text, key), Ok(hex(PLAIN_A)));
}

#[test]
fn counter_block_writes_the_lowest_byte_first() {
    let nonce = [9u8, 8, 7, 6, 5, 4, 3, 2];
    assert_eq!(
        counter_block(&nonce, 1),
        [9, 8, 7, 6, 5, 4, 3, 2, 1, 0, 0, 0, 0, 0, 0, 0]
    );
    assert_eq!(
        counter_block(&nonce, 0x0102030405060708),
        [9, 8, 7, 6, 5, 4, 3, 2, 8, 7, 6, 5, 4, 3, 2, 1]
    );
    assert_eq!(
        counter_block(&nonce, 256),
        [9, 8, 7, 6, 5, 4, 3, 2, 0, 1, 0, 0, 0, 0, 0, 0]
    );
    assert_eq!(
        counter_block(&nonce, u64::MAX),
        [9, 8, 7, 6, 5, 4, 3, 2, 255, 255, 255, 255, 255, 255, 255, 255]
    );
}

#[test]
fn ctr_keystream_is_the_encrypted_counter_block() {
    let nonce = [0x00u8, 0x11, 0x22, 0x33, 0x44, 0x55, 0x66, 0x77];
    let key = block(KEY_A);
    let mask = ctr_transform_block(&[0u8; 16], &nonce, 0xffeeddccbbaa9988, &key);
    assert_eq!(&mask[..], &hex(CIPHER_A)[..]);
    let data = [0x5au8; 16];
    let out = ctr_transform_block(&data, &nonce, 0xffeeddccbbaa9988, &key);
    for i in 0..16 {
        assert_eq!(out[i], data[i] ^ mask[i]);
    }
    assert_eq!(ctr_transform_block(&out, &nonce, 0xffeeddccbbaa9988, &key), data);
}

#[test]
fn ctr_cipher_text_is_the_nonce_block_and_the_masked_blocks() {
    let key = block(KEY_B);
    let nonce = [1u8, 2, 3, 4, 5, 6, 7, 8];
    let plain_text: Vec<u8> = (0..40).collect();
    let cipher_text = ctr_encrypt_with_nonce(plain_text.clone(), key, nonce);
    assert_eq!(cipher_text.len(), 16 + 48);
    assert_eq!(&cipher_text[..8], &nonce[..]);
    assert_eq!(&cipher_text[8..16], &[0u8; 8][..]);
    let mut padded = plain_text.clone();
    padded.extend(vec![8u8; 8]);
    for i in 0..3usize {
        let counter = counter_block(&nonce, i as u64);
        let mask = ecb_encrypt(counter.to_vec(), key);
        for j in 0..16 {
            assert_eq!(cipher_text[16 + 16 * i + j], padded[16 * i + j] ^ mask[j]);
        }
    }
    assert_eq!(ctr_decrypt(cipher_text, key), Ok(plain_text));
}

#[test]
fn nonce_header_and_nonce_of_agree() {
    let nonce = [1u8, 2, 3, 4, 5, 6, 7, 8];
    let header = nonce_header(&nonce);
    assert_eq!(header, [1, 2, 3, 4, 5, 6, 7, 8, 0, 0, 0, 0, 0, 0, 0, 0]);
    assert_eq!(nonce_of(&header), nonce);
    assert_eq!(nonce_of(&[7u8; 16]), [7u8; 8]);
}
