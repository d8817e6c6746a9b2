use aes_modes::blocks::{group, read_block, un_group, xor_blocks};
use aes_modes::cipher::key_from_slice;
use aes_modes::padding::{pad, un_pad};
use aes_modes::{CipherError, BLOCK_SIZE, NONCE_SIZE};

fn counting(len: usize) -> Vec<u8> {
    (0..len).map(|i| (i % 251) as u8 + 1).collect()
}

#[test]
fn pad_of_empty_is_one_block_of_sixteens() {
    assert_eq!(pad(vec![]), vec![16u8; 16]);
}

#[test]
fn pad_fills_to_the_next_block() {
    let mut expected = vec![1u8, 2, 4, 5];
    expected.extend(vec![12u8; 12]);
    assert_eq!(pad(vec![1, 2, 4, 5]), expected);
}

#[test]
fn pad_of_fifteen_bytes_adds_a_single_one() {
    let data = counting(15);
    let padded = pad(data.clone());
    assert_eq!(padded.len(), 16);
    assert_eq!(&padded[..15], &data[..]);
    assert_eq!(padded[15], 1);
}

#[test]
fn pad_of_a_whole_block_adds_a_whole_block() {
    let data = counting(16);
    let padded = pad(data.clone());
    assert_eq!(padded.len(), 32);
    assert_eq!(&padded[..16], &data[..]);
    assert_eq!(&padded[16..], &[16u8; 16][..]);
}

#[test]
fn pad_of_seventeen_bytes_adds_fifteen() {
    let padded = pad(counting(17));
    assert_eq!(padded.len(), 32);
    assert_eq!(&padded[17..], &[15u8; 15][..]);
}

#[test]
fn pad_then_un_pad_gives_the_data_back() {
    for len in [0usize, 1, 15, 16, 17, 31, 32, 33, 100, 255, 256] {
        let data = counting(len);
        let padded = pad(data.clone());
        assert!(padded.len() > 0);
        assert_eq!(padded.len() % BLOCK_SIZE, 0);
        assert!(padded.len() > data.len() && padded.len() <= data.len() + BLOCK_SIZE);
        assert_eq!(un_pad(padded), Ok(data));
    }
}

#[test]
fn un_pad_keeps_data_that_looks_like_padding() {
    let data = vec![3u8, 3, 3];
    assert_eq!(un_pad(pad(data.clone())), Ok(data));
}

#[test]
fn un_pad_takes_off_what_the_last_byte_says() {
    assert_eq!(un_pad(vec![7, 8, 9, 2, 2]), Ok(vec![7, 8, 9]));
    assert_eq!(un_pad(vec![1]), Ok(vec![]));
    assert_eq!(un_pad(vec![16u8; 16]), Ok(vec![]));
}

#[test]
fn un_pad_rejects_an_empty_buffer() {
    assert_eq!(un_pad(vec![]), Err(CipherError::Padding));
}

#[test]
fn un_pad_rejects_a_last_byte_of_zero() {
    assert_eq!(un_pad(vec![5, 5, 0]), Err(CipherError::Padding));
}

#[test]
fn un_pad_rejects_a_last_byte_above_the_block_size() {
    assert_eq!(un_pad(vec![17u8; 32]), Err(CipherError::Padding));
    assert_eq!(un_pad(vec![255u8; 300]), Err(CipherError::Padding));
}

#[test]
fn un_pad_rejects_a_last_byte_above_the_length() {
    assert_eq!(un_pad(vec![3, 3]), Err(CipherError::Padding));
    assert_eq!(un_pad(vec![16u8; 15]), Err(CipherError::Padding));
}

#[test]
fn un_pad_rejects_padding_bytes_that_differ() {
    assert_eq!(un_pad(vec![5, 4, 3, 9, 3]), Err(CipherError::Padding));
    assert_eq!(un_pad(vec![1, 2, 4, 4, 9, 4]), Err(CipherError::Padding));
    assert_eq!(un_pad(vec![1, 2, 3, 4, 4, 4]), Err(CipherError::Padding));
    assert_eq!(un_pad(vec![1, 2, 4, 4, 4, 4]), Ok(vec![1, 2]));
}

#[test]
fn group_rejects_a_length_that_is_not_whole_blocks() {
    for len in [1usize, 15, 17, 31, 33] {
        assert_eq!(group(counting(len)), Err(CipherError::InvalidLength));
    }
}

#[test]
fn group_of_empty_is_no_block() {
    assert_eq!(group(vec![]), Ok(vec![]));
    assert_eq!(un_group(vec![]), Vec::<u8>::new());
}

#[test]
fn group_then_un_group_gives_the_data_back() {
    for blocks in [0usize, 1, 2, 3, 7] {
        let data = counting(blocks * BLOCK_SIZE);
        let grouped = group(data.clone()).unwrap();
        assert_eq!(grouped.len(), blocks);
        assert_eq!(un_group(grouped), data);
    }
}

#[test]
fn un_group_then_group_gives_the_blocks_back() {
    let blocks: Vec<[u8; BLOCK_SIZE]> = vec![[9u8; 16], [0u8; 16], [200u8; 16]];
    assert_eq!(group(un_group(blocks.clone())), Ok(blocks));
}

#[test]
fn read_block_copies_sixteen_bytes_from_the_offset() {
    let data = counting(40);
    let block = read_block(&data, 3);
    assert_eq!(&block[..], &data[3..19]);
}

#[test]
fn xor_blocks_combines_byte_by_byte() {
    let a: [u8; 16] = [0x0f; 16];
    let mut b: [u8; 16] = [0xff; 16];
    b[0] = 0x0f;
    b[15] = 0x00;
    let mut expected: [u8; 16] = [0xf0; 16];
    expected[0] = 0x00;
    expected[15] = 0x0f;
    assert_eq!(xor_blocks(&a, &b), expected);
    assert_eq!(xor_blocks(&xor_blocks(&a, &b), &b), a);
}

#[test]
fn key_from_slice_takes_exactly_sixteen_bytes() {
    let bytes = counting(16);
    let key = key_from_slice(&bytes).unwrap();
    assert_eq!(&key[..], &bytes[..]);
}

#[test]
fn key_from_slice_rejects_other_lengths() {
    for len in [0usize, 15, 17, 24, 32] {
        assert_eq!(key_from_slice(&counting(len)), Err(CipherError::KeyLength));
    }
}

#[test]
fn the_nonce_is_half_a_block() {
    assert_eq!(BLOCK_SIZE, 16);
    assert_eq!(NONCE_SIZE * 2, BLOCK_SIZE);
}
