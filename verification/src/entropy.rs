//! The entropy source: fresh random bytes from the thread-local generator of
//! the `rand` crate, which the operating system seeds.
//!
//! What comes back differs from call to call, so nothing is stated of it
//! beyond its type. The modes take the random value as an argument
//! (`cbc_encrypt_with_iv`, `ctr_encrypt_with_nonce`) and are proved for
//! every value of it.

use vstd::prelude::*;
use rand::Rng;
use crate::{BLOCK_SIZE, NONCE_SIZE};

verus! {

/// One block of random bytes, by `rand::thread_rng` and `Rng::fill`.
///
/// Trusted: the call returns. The generator panics where the operating
/// system cannot seed it.
#[verifier::external_body]
pub(crate) fn random_block() -> (block: [u8; BLOCK_SIZE]) {
    let mut rng = rand::thread_rng();
    let mut block = [0u8; BLOCK_SIZE];
    rng.fill(&mut block[..]);
    block
}

/// Half a block of random bytes, by `array_init::array_init` over
/// `Rng::gen` on `rand::thread_rng`.
///
/// Trusted: the call returns. The generator panics where the operating
/// system cannot seed it.
#[verifier::external_body]
pub(crate) fn random_nonce() -> (nonce: [u8; NONCE_SIZE]) {
    let mut rng = rand::thread_rng();
    array_init::array_init(|_| rng.gen::<u8>())
}

} // verus!
