//! Electronic Codebook mode. NOT SECURE: each block is encrypted on its own,
//! so equal plaintext blocks give equal ciphertext blocks.

use vstd::prelude::*;
use crate::cipher::{aes_decrypt, aes_decrypt_block, aes_encrypt, aes_encrypt_block};
use crate::error::{bytes_result, ModeError};
use crate::padding::{
    block_at, group, lemma_block_at_concat, lemma_pad_round_trip, pad, pad_spec, un_group, un_pad,
    un_pad_spec,
};

verus! {

/// Each block of `data` encrypted on its own, laid end to end.
pub open spec fn ecb_encrypt_blocks(key: Seq<u8>, data: Seq<u8>) -> Seq<u8> {
    Seq::new(data.len(), |j: int| aes_encrypt_block(key, block_at(data, j / 16))[j % 16])
}

/// Each block of `data` decrypted on its own, laid end to end.
pub open spec fn ecb_decrypt_blocks(key: Seq<u8>, data: Seq<u8>) -> Seq<u8> {
    Seq::new(data.len(), |j: int| aes_decrypt_block(key, block_at(data, j / 16))[j % 16])
}

/// ECB ciphertext of a plaintext: its padding, encrypted block by block.
pub open spec fn ecb_encrypt_spec(key: Seq<u8>, plain: Seq<u8>) -> Seq<u8> {
    ecb_encrypt_blocks(key, pad_spec(plain))
}

/// ECB decryption: rejects a ciphertext that is empty or no whole number of
/// blocks, else decrypts each block and strips the padding.
pub open spec fn ecb_decrypt_spec(key: Seq<u8>, cipher: Seq<u8>) -> Result<Seq<u8>, ModeError> {
    if cipher.len() == 0 || cipher.len() % 16 != 0 {
        Err(ModeError::InvalidBlockLength)
    } else {
        Ok(un_pad_spec(ecb_decrypt_blocks(key, cipher)))
    }
}

/// Encrypts in ECB mode: pads, then encrypts each block independently.
/// The ciphertext decrypts back to the plaintext under the same key.
pub fn ecb_encrypt(plain_text: Vec<u8>, key: [u8; 16]) -> (r: Vec<u8>)
    ensures
        r@ == ecb_encrypt_spec(key@, plain_text@),
        ecb_decrypt_spec(key@, r@) == Ok::<Seq<u8>, ModeError>(plain_text@),
{
    let ghost p = plain_text@;
    let padded = pad(plain_text);
    let ghost q = padded@;
    let blocks = group(padded);
    let mut encrypted: Vec<[u8; 16]> = Vec::new();
    let mut b: usize = 0;
    while b < blocks.len()
        invariant
            b <= blocks@.len(),
            encrypted@.len() == b,
            forall|x: int|
                0 <= x < b ==> #[trigger] encrypted@[x]@ == aes_encrypt_block(key@, blocks@[x]@)
                    && aes_decrypt_block(key@, encrypted@[x]@) == blocks@[x]@,
        decreases blocks@.len() - b,
    {
        let c = aes_encrypt(blocks[b], &key);
        encrypted.push(c);
        b = b + 1;
    }
    let ghost enc = encrypted@;
    let r = un_group(encrypted);
    proof {
        assert forall|j: int| 0 <= j < q.len() implies r@[j] == #[trigger] ecb_encrypt_blocks(
            key@,
            q,
        )[j] by {
            assert(blocks@[j / 16]@ == block_at(q, j / 16));
            assert(enc[j / 16]@ == aes_encrypt_block(key@, blocks@[j / 16]@));
        }
        assert(r@ =~= ecb_encrypt_blocks(key@, q));
        assert forall|j: int| 0 <= j < q.len() implies #[trigger] ecb_decrypt_blocks(key@, r@)[j]
            == q[j] by {
            let bb = j / 16;
            lemma_block_at_concat(enc, bb);
            assert(blocks@[bb]@ == block_at(q, bb));
            assert(aes_decrypt_block(key@, enc[bb]@) == blocks@[bb]@);
            assert(block_at(q, bb)[j % 16] == q[j]);
        }
        assert(ecb_decrypt_blocks(key@, r@) =~= q);
        lemma_pad_round_trip(p);
    }
    r
}

/// Decrypts in ECB mode: decrypts each block independently, then strips the
/// padding. A ciphertext must be a positive whole number of blocks: an empty
/// one, or one with a partial block, is rejected.
pub fn ecb_decrypt(cipher_text: Vec<u8>, key: [u8; 16]) -> (r: Result<Vec<u8>, ModeError>)
    ensures
        bytes_result(r) == ecb_decrypt_spec(key@, cipher_text@),
{
    if cipher_text.len() == 0 || cipher_text.len() % 16 != 0 {
        return Err(ModeError::InvalidBlockLength);
    }
    let ghost c = cipher_text@;
    let blocks = group(cipher_text);
    let mut decrypted: Vec<[u8; 16]> = Vec::new();
    let mut b: usize = 0;
    while b < blocks.len()
        invariant
            b <= blocks@.len(),
            blocks@.len() == c.len() / 16,
            decrypted@.len() == b,
            forall|x: int|
                0 <= x < b ==> #[trigger] decrypted@[x]@ == aes_decrypt_block(key@, blocks@[x]@),
        decreases blocks@.len() - b,
    {
        let d = aes_decrypt(blocks[b], &key);
        decrypted.push(d);
        b = b + 1;
    }
    let ghost dec = decrypted@;
    let raw = un_group(decrypted);
    proof {
        assert forall|j: int| 0 <= j < c.len() implies raw@[j] == #[trigger] ecb_decrypt_blocks(
            key@,
            c,
        )[j] by {
            assert(blocks@[j / 16]@ == block_at(c, j / 16));
            assert(dec[j / 16]@ == aes_decrypt_block(key@, blocks@[j / 16]@));
        }
        assert(raw@ =~= ecb_decrypt_blocks(key@, c));
    }
    Ok(un_pad(raw))
}

/// Equal full plaintext blocks give equal ciphertext blocks: ECB leaks the
/// plaintext's structure.
pub proof fn lemma_ecb_equal_blocks(key: Seq<u8>, plain: Seq<u8>, b1: int, b2: int)
    requires
        0 <= b1,
        0 <= b2,
        16 * b1 + 16 <= plain.len(),
        16 * b2 + 16 <= plain.len(),
        block_at(plain, b1) == block_at(plain, b2),
    ensures
        block_at(ecb_encrypt_spec(key, plain), b1) == block_at(ecb_encrypt_spec(key, plain), b2),
{
    let q = pad_spec(plain);
    let c = ecb_encrypt_spec(key, plain);
    assert(block_at(q, b1) =~= block_at(plain, b1));
    assert(block_at(q, b2) =~= block_at(plain, b2));
    assert forall|t: int| 0 <= t < 16 implies #[trigger] block_at(c, b1)[t] == block_at(c, b2)[t] by {
        assert((16 * b1 + t) / 16 == b1);
        assert((16 * b1 + t) % 16 == t);
        assert((16 * b2 + t) / 16 == b2);
        assert((16 * b2 + t) % 16 == t);
    }
    assert(block_at(c, b1) =~= block_at(c, b2));
}

} // verus!
