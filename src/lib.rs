//! Block-cipher modes of operation (ECB, CBC and CTR) over AES-128, with
//! PKCS#7-style padding, verified against mathematical models of each mode.
//!
//! ECB is not secure: equal plaintext blocks give equal ciphertext blocks.
//! Callers of CBC and CTR must never reuse an IV or a nonce under one key;
//! this library draws a fresh one on each encryption but cannot detect reuse.

use vstd::prelude::*;

pub mod cbc;
pub mod cipher;
pub mod ctr;
pub mod ecb;
pub mod error;
pub mod padding;
pub mod random;
pub mod xor;

pub use cbc::{cbc_decrypt, cbc_encrypt, cbc_encrypt_with_iv};
pub use ctr::{ctr_decrypt, ctr_encrypt, ctr_encrypt_with_nonce};
pub use ecb::{ecb_decrypt, ecb_encrypt};
pub use error::ModeError;
pub use padding::{group, pad, un_group, un_pad};
pub use random::{create_rand_init_vector, create_rand_nonce};
pub use xor::{xor_block_bytes, xor_bytes};

verus! {

/// AES-128 works on 16-byte blocks under 16-byte keys.
pub const BLOCK_SIZE: usize = 16;

/// Counter mode draws a nonce of half a block.
pub const NONCE_SIZE: usize = 8;

} // verus!
