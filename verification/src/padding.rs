//! The padding codec: extends a buffer to a whole number of blocks in a way
//! that can be undone.
//!
//! The padding appended to a buffer is `n` bytes of value `n`, with
//! `1 <= n <= BLOCK_SIZE`. A buffer that already ends on a block boundary
//! gets a whole block of padding, so the last byte of a padded buffer always
//! tells how much to take off.

use vstd::prelude::*;
use crate::{view_result, CipherError, BLOCK_SIZE};

verus! {

/// The number of bytes that padding adds to a buffer of `len` bytes.
pub open spec fn pad_len(len: nat) -> nat {
    (BLOCK_SIZE - len % (BLOCK_SIZE as nat)) as nat
}

/// `data` followed by its padding.
pub open spec fn pad_spec(data: Seq<u8>) -> Seq<u8> {
    let n = pad_len(data.len());
    data + Seq::new(n, |i: int| n as u8)
}

/// Whether `data` ends in a padding: its last byte `n` lies in
/// `1..=BLOCK_SIZE`, the buffer holds at least `n` bytes, and each of its
/// last `n` bytes is `n`.
pub open spec fn well_padded(data: Seq<u8>) -> bool {
    &&& data.len() > 0
    &&& 1 <= data.last() <= BLOCK_SIZE
    &&& data.last() <= data.len()
    &&& forall|i: int| data.len() - data.last() <= i < data.len() ==> data[i] == data.last()
}

/// `data` without its padding, where it has one.
pub open spec fn un_pad_spec(data: Seq<u8>) -> Result<Seq<u8>, CipherError> {
    if well_padded(data) {
        Ok(data.take(data.len() - data.last()))
    } else {
        Err(CipherError::Padding)
    }
}

/// A padded buffer is never empty, is a whole number of blocks long, and is
/// longer than the buffer it was made from by `1..=BLOCK_SIZE` bytes.
pub proof fn lemma_pad_len(data: Seq<u8>)
    ensures
        pad_spec(data).len() == data.len() + pad_len(data.len()),
        1 <= pad_len(data.len()) <= BLOCK_SIZE,
        pad_spec(data).len() > 0,
        pad_spec(data).len() % (BLOCK_SIZE as nat) == 0,
{
}

/// Taking the padding off a padded buffer gives the buffer back, whatever
/// its length.
pub proof fn lemma_un_pad_pad(data: Seq<u8>)
    ensures
        well_padded(pad_spec(data)),
        un_pad_spec(pad_spec(data)) == Ok::<Seq<u8>, CipherError>(data),
{
    let padded = pad_spec(data);
    lemma_pad_len(data);
    assert(padded.last() == pad_len(data.len()) as u8);
    assert(padded.take(padded.len() - padded.last()) =~= data);
}

/// A buffer that ends in a padding is the padded form of what is left when
/// the padding is taken off, provided it is a whole number of blocks long.
pub proof fn lemma_pad_un_pad(data: Seq<u8>)
    requires
        well_padded(data),
        data.len() % (BLOCK_SIZE as nat) == 0,
    ensures
        pad_spec(un_pad_spec(data)->Ok_0) == data,
{
    let n = data.last() as nat;
    let body = data.take(data.len() - n);
    assert(pad_len(body.len()) == n);
    assert(pad_spec(body) =~= data);
}

/// Pads `data` to a whole number of blocks.
pub fn pad(data: Vec<u8>) -> (padded: Vec<u8>)
    ensures
        padded@ == pad_spec(data@),
        padded@.len() > 0,
        padded@.len() % (BLOCK_SIZE as nat) == 0,
{
    let n: usize = BLOCK_SIZE - data.len() % BLOCK_SIZE;
    let mut padded = data;
    let mut i: usize = 0;
    while i < n
        invariant
            i <= n,
            1 <= n <= BLOCK_SIZE,
            n == pad_len(data@.len()),
            padded@ == data@ + Seq::new(i as nat, |j: int| n as u8),
        decreases n - i,
    {
        padded.push(n as u8);
        i += 1;
    }
    proof {
        lemma_pad_len(data@);
    }
    padded
}

/// Takes the padding off `data`.
///
/// Fails with `CipherError::Padding` where `data` does not end in a
/// padding: where it is empty, where its last byte is 0 or more than
/// `BLOCK_SIZE` or more than the length of `data`, or where one of the bytes
/// that the last byte counts differs from it.
pub fn un_pad(data: Vec<u8>) -> (r: Result<Vec<u8>, CipherError>)
    ensures
        view_result(r) == un_pad_spec(data@),
{
    let len: usize = data.len();
    if len == 0 {
        return Err(CipherError::Padding);
    }
    let last: u8 = data[len - 1];
    let n: usize = last as usize;
    if n == 0 || n > BLOCK_SIZE || n > len {
        return Err(CipherError::Padding);
    }
    let mut i: usize = len - n;
    while i < len
        invariant
            1 <= n <= len,
            len - n <= i <= len,
            len == data@.len(),
            last == data@.last(),
            n == last,
            forall|j: int| len - n <= j < i ==> data@[j] == last,
        decreases len - i,
    {
        if data[i] != last {
            return Err(CipherError::Padding);
        }
        i += 1;
    }
    let mut body = data;
    body.truncate(len - n);
    Ok(body)
}

} // verus!
