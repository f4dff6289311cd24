use vstd::prelude::*;
use rand::Rng;

verus! {

/// Relies on rand's `thread_rng().fill`: `n` bytes drawn uniformly at random
/// from the thread-local generator. Nothing is known of their values.
#[verifier::external_body]
fn random_bytes(n: usize) -> (r: Vec<u8>)
    ensures
        r@.len() == n,
{
    let mut buf = vec![0u8; n];
    rand::thread_rng().fill(&mut buf[..]);
    buf
}

/// A fresh initialization vector for CBC: one block of random bytes.
pub fn create_rand_init_vector() -> (r: [u8; 16]) {
    let bytes = random_bytes(16);
    let mut iv: [u8; 16] = [0u8; 16];
    let mut i: usize = 0;
    while i < 16
        invariant
            bytes@.len() == 16,
            i <= 16,
        decreases 16 - i,
    {
        iv[i] = bytes[i];
        i = i + 1;
    }
    iv
}

/// A fresh nonce for CTR: half a block of random bytes.
pub fn create_rand_nonce() -> (r: [u8; 8]) {
    let bytes = random_bytes(8);
    let mut nonce: [u8; 8] = [0u8; 8];
    let mut i: usize = 0;
    while i < 8
        invariant
            bytes@.len() == 8,
            i <= 8,
        decreases 8 - i,
    {
        nonce[i] = bytes[i];
        i = i + 1;
    }
    nonce
}

} // verus!
