//! Values drawn from the thread's random number generator.

use vstd::prelude::*;

verus! {

/// Trusted: calls `rand::random::<u8>()`, which draws one byte from the thread-local
/// generator. Nothing is claimed of the byte: any value may come back.
#[verifier::external_body]
pub(crate) fn random_byte() -> u8 {
    rand::random::<u8>()
}

/// Trusted: calls `rand::random::<u32>()`, which draws one 32-bit value from the
/// thread-local generator. Nothing is claimed of the value: any value may come back.
#[verifier::external_body]
pub(crate) fn random_u32() -> u32 {
    rand::random::<u32>()
}

/// `len` random bytes.
pub fn random_bytes(len: usize) -> (r: Vec<u8>)
    ensures
        r@.len() == len,
{
    let mut bytes: Vec<u8> = Vec::new();
    let mut i: usize = 0;
    while i < len
        invariant
            i <= len,
            bytes@.len() == i,
        decreases len - i,
    {
        bytes.push(random_byte());
        i += 1;
    }
    bytes
}

} // verus!
