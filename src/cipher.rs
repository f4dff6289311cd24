use vstd::prelude::*;
use aes::cipher::generic_array::GenericArray;
use aes::cipher::{BlockDecrypt, BlockEncrypt, KeyInit};
use aes::Aes128;

verus! {

/// AES-128 encryption of one 16-byte block under a 16-byte key.
pub uninterp spec fn aes_encrypt_block(key: Seq<u8>, block: Seq<u8>) -> Seq<u8>;

/// AES-128 decryption of one 16-byte block under a 16-byte key.
pub uninterp spec fn aes_decrypt_block(key: Seq<u8>, block: Seq<u8>) -> Seq<u8>;

/// Relies on aes::Aes128 (`KeyInit::new`, then `BlockEncrypt::encrypt_block`):
/// the block encrypted under the key. AES-128 under one key is a permutation
/// of blocks, and `decrypt_block` under that key maps the result back.
#[verifier::external_body]
pub(crate) fn aes_encrypt(data: [u8; 16], key: &[u8; 16]) -> (r: [u8; 16])
    ensures
        r@ == aes_encrypt_block(key@, data@),
        aes_decrypt_block(key@, r@) == data@,
{
    let mut block = GenericArray::from(data);
    let cipher = Aes128::new(&GenericArray::from(*key));
    cipher.encrypt_block(&mut block);
    block.into()
}

/// Relies on aes::Aes128 (`KeyInit::new`, then `BlockDecrypt::decrypt_block`):
/// the block decrypted under the key. AES-128 under one key is a permutation
/// of blocks, and `encrypt_block` under that key maps the result back.
#[verifier::external_body]
pub(crate) fn aes_decrypt(data: [u8; 16], key: &[u8; 16]) -> (r: [u8; 16])
    ensures
        r@ == aes_decrypt_block(key@, data@),
        aes_encrypt_block(key@, r@) == data@,
{
    let mut block = GenericArray::from(data);
    let cipher = Aes128::new(&GenericArray::from(*key));
    cipher.decrypt_block(&mut block);
    block.into()
}

} // verus!
