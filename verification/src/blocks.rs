//! The block grouper: cuts a buffer into blocks and joins blocks into a
//! buffer.
//!
//! In contracts a list of blocks is a `Seq<Seq<u8>>`, each block
//! `BLOCK_SIZE` bytes long; `blocks_view` gives that value for the arrays
//! that the code works on.

use vstd::prelude::*;
use crate::{CipherError, BLOCK_SIZE};

verus! {

/// The `i`-th block of `data`.
pub open spec fn block_at(data: Seq<u8>, i: int) -> Seq<u8> {
    data.subrange(i * BLOCK_SIZE, i * BLOCK_SIZE + BLOCK_SIZE)
}

/// The blocks of `data`, in order. It is meant for a `data` that is a whole
/// number of blocks long.
pub open spec fn group_spec(data: Seq<u8>) -> Seq<Seq<u8>> {
    Seq::new(data.len() / (BLOCK_SIZE as nat), |i: int| block_at(data, i))
}

/// The bytes of `blocks` one block after the other: byte `i` is byte
/// `i % BLOCK_SIZE` of block `i / BLOCK_SIZE`.
pub open spec fn un_group_spec(blocks: Seq<Seq<u8>>) -> Seq<u8> {
    Seq::new(
        blocks.len() * (BLOCK_SIZE as nat),
        |i: int| blocks[i / BLOCK_SIZE as int][i % BLOCK_SIZE as int],
    )
}

/// Whether each of `blocks` is `BLOCK_SIZE` bytes long.
pub open spec fn whole_blocks(blocks: Seq<Seq<u8>>) -> bool {
    forall|i: int| 0 <= i < blocks.len() ==> (#[trigger] blocks[i]).len() == BLOCK_SIZE
}

/// The list of blocks that a vector of arrays stands for.
pub open spec fn blocks_view(blocks: Seq<[u8; BLOCK_SIZE]>) -> Seq<Seq<u8>> {
    Seq::new(blocks.len(), |i: int| blocks[i]@)
}

/// The bytewise exclusive or of two blocks.
pub open spec fn xor_spec(a: Seq<u8>, b: Seq<u8>) -> Seq<u8> {
    Seq::new(BLOCK_SIZE as nat, |i: int| a[i] ^ b[i])
}

/// Grouping cuts a buffer of `n` whole blocks into `n` blocks of
/// `BLOCK_SIZE` bytes.
pub proof fn lemma_group_len(data: Seq<u8>)
    requires
        data.len() % (BLOCK_SIZE as nat) == 0,
    ensures
        group_spec(data).len() * BLOCK_SIZE == data.len(),
        whole_blocks(group_spec(data)),
{
}

/// Joining the blocks of a buffer gives the buffer back, where the buffer is
/// a whole number of blocks long.
pub proof fn lemma_un_group_group(data: Seq<u8>)
    requires
        data.len() % (BLOCK_SIZE as nat) == 0,
    ensures
        un_group_spec(group_spec(data)) == data,
{
    assert(un_group_spec(group_spec(data)) =~= data);
}

/// Cutting joined blocks apart gives the blocks back.
pub proof fn lemma_group_un_group(blocks: Seq<Seq<u8>>)
    requires
        whole_blocks(blocks),
    ensures
        un_group_spec(blocks).len() % (BLOCK_SIZE as nat) == 0,
        group_spec(un_group_spec(blocks)) == blocks,
{
    let joined = un_group_spec(blocks);
    assert(group_spec(joined).len() == blocks.len());
    assert forall|i: int| 0 <= i < blocks.len() implies group_spec(joined)[i] == blocks[i] by {
        assert(group_spec(joined)[i] =~= blocks[i]);
    }
    assert(group_spec(joined) =~= blocks);
}

/// A block in front of joined blocks is the first of the blocks joined.
pub proof fn lemma_un_group_first(first: Seq<u8>, rest: Seq<Seq<u8>>)
    requires
        first.len() == BLOCK_SIZE,
    ensures
        un_group_spec(seq![first] + rest) == first + un_group_spec(rest),
{
    let all = seq![first] + rest;
    assert forall|i: int| 0 <= i < un_group_spec(all).len() implies un_group_spec(all)[i] == (first
        + un_group_spec(rest))[i] by {
        if i >= BLOCK_SIZE {
            assert(all[i / BLOCK_SIZE as int] == rest[(i - BLOCK_SIZE) / BLOCK_SIZE as int]);
        }
    }
    assert(un_group_spec(all) =~= first + un_group_spec(rest));
}

/// Exclusive or with the same block twice gives the first block back.
pub proof fn lemma_xor_cancel(a: Seq<u8>, b: Seq<u8>)
    requires
        a.len() == BLOCK_SIZE,
    ensures
        xor_spec(xor_spec(a, b), b) == a,
{
    assert forall|i: int| 0 <= i < BLOCK_SIZE implies xor_spec(xor_spec(a, b), b)[i] == a[i] by {
        let x: u8 = a[i];
        let y: u8 = b[i];
        assert((x ^ y) ^ y == x) by (bit_vector);
    }
    assert(xor_spec(xor_spec(a, b), b) =~= a);
}

/// Exclusive or with one block keeps different blocks different.
pub proof fn lemma_xor_injective(a: Seq<u8>, c: Seq<u8>, b: Seq<u8>)
    requires
        a.len() == BLOCK_SIZE,
        c.len() == BLOCK_SIZE,
    ensures
        xor_spec(a, b) == xor_spec(c, b) <==> a == c,
{
    lemma_xor_cancel(a, b);
    lemma_xor_cancel(c, b);
}

/// The block that starts at byte `start` of `data`.
pub fn read_block(data: &Vec<u8>, start: usize) -> (block: [u8; BLOCK_SIZE])
    requires
        start + BLOCK_SIZE <= data.len(),
    ensures
        block@ == data@.subrange(start as int, start + BLOCK_SIZE),
{
    let mut block: [u8; BLOCK_SIZE] = [0u8; BLOCK_SIZE];
    let mut j: usize = 0;
    while j < BLOCK_SIZE
        invariant
            j <= BLOCK_SIZE,
            start + BLOCK_SIZE <= data.len(),
            forall|k: int| 0 <= k < j ==> block@[k] == data@[start + k],
        decreases BLOCK_SIZE - j,
    {
        block[j] = data[start + j];
        j += 1;
    }
    assert(block@ =~= data@.subrange(start as int, start + BLOCK_SIZE));
    block
}

/// Cuts `data` into blocks of `BLOCK_SIZE` bytes, in order.
///
/// Fails with `CipherError::InvalidLength` where `data` is not a whole
/// number of blocks long. Nothing is added to it or taken off.
pub fn group(data: Vec<u8>) -> (r: Result<Vec<[u8; BLOCK_SIZE]>, CipherError>)
    ensures
        match r {
            Ok(blocks) => data@.len() % (BLOCK_SIZE as nat) == 0 && blocks_view(blocks@)
                == group_spec(data@),
            Err(e) => data@.len() % (BLOCK_SIZE as nat) != 0 && e == CipherError::InvalidLength,
        },
{
    let len: usize = data.len();
    if len % BLOCK_SIZE != 0 {
        return Err(CipherError::InvalidLength);
    }
    let mut blocks: Vec<[u8; BLOCK_SIZE]> = Vec::new();
    let mut i: usize = 0;
    while i < len
        invariant
            len == data@.len(),
            len % BLOCK_SIZE == 0,
            i % BLOCK_SIZE == 0,
            i <= len,
            blocks@.len() * BLOCK_SIZE == i,
            forall|j: int|
                0 <= j < blocks@.len() ==> (#[trigger] blocks@[j])@ == block_at(data@, j),
        decreases len - i,
    {
        let block = read_block(&data, i);
        blocks.push(block);
        i += BLOCK_SIZE;
    }
    assert(blocks_view(blocks@) =~= group_spec(data@));
    Ok(blocks)
}

/// Appends the bytes of `block` to `out`.
pub fn push_block(out: &mut Vec<u8>, block: &[u8; BLOCK_SIZE])
    ensures
        final(out)@ == old(out)@ + block@,
{
    let mut j: usize = 0;
    while j < BLOCK_SIZE
        invariant
            j <= BLOCK_SIZE,
            out@ == old(out)@ + block@.take(j as int),
        decreases BLOCK_SIZE - j,
    {
        out.push(block[j]);
        assert(block@.take(j + 1) =~= block@.take(j as int).push(block@[j as int]));
        j += 1;
    }
    assert(block@.take(BLOCK_SIZE as int) =~= block@);
}

/// Joins `blocks` into one buffer, in order.
pub fn un_group(blocks: Vec<[u8; BLOCK_SIZE]>) -> (data: Vec<u8>)
    ensures
        data@ == un_group_spec(blocks_view(blocks@)),
{
    let mut data: Vec<u8> = Vec::new();
    let mut i: usize = 0;
    while i < blocks.len()
        invariant
            i <= blocks@.len(),
            data@ == un_group_spec(blocks_view(blocks@).take(i as int)),
        decreases blocks@.len() - i,
    {
        push_block(&mut data, &blocks[i]);
        assert(data@ =~= un_group_spec(blocks_view(blocks@).take(i + 1)));
        i += 1;
    }
    assert(blocks_view(blocks@).take(blocks@.len() as int) =~= blocks_view(blocks@));
    data
}

/// The bytewise exclusive or of `a` and `b`.
pub fn xor_blocks(a: &[u8; BLOCK_SIZE], b: &[u8; BLOCK_SIZE]) -> (out: [u8; BLOCK_SIZE])
    ensures
        out@ == xor_spec(a@, b@),
{
    let mut out: [u8; BLOCK_SIZE] = [0u8; BLOCK_SIZE];
    let mut j: usize = 0;
    while j < BLOCK_SIZE
        invariant
            j <= BLOCK_SIZE,
            forall|k: int| 0 <= k < j ==> out@[k] == a@[k] ^ b@[k],
        decreases BLOCK_SIZE - j,
    {
        out[j] = a[j] ^ b[j];
        j += 1;
    }
    assert(out@ =~= xor_spec(a@, b@));
    out
}

} // verus!
