//! Cipher Block Chaining mode: each plaintext block is combined with the
//! previous ciphertext block before it is encrypted; a random IV starts the
//! chain and travels as the first ciphertext block.

use vstd::prelude::*;
use crate::cipher::{aes_decrypt, aes_decrypt_block, aes_encrypt, aes_encrypt_block};
use crate::error::{bytes_result, ModeError};
use crate::padding::{
    block_at, group, lemma_block_at_concat, lemma_pad_round_trip, pad, pad_spec, un_group, un_pad,
    un_pad_spec,
};
use crate::random::create_rand_init_vector;
use crate::xor::{lemma_xor_cancel, lemma_xor_flip, xor_block_bytes, xor_seq};

verus! {

/// Block `n` of the CBC chain over padded `data`: block 0 is the IV, and
/// block `n + 1` encrypts plaintext block `n` combined with block `n`.
pub open spec fn cbc_chain(key: Seq<u8>, iv: Seq<u8>, data: Seq<u8>, n: nat) -> Seq<u8>
    decreases n,
{
    if n == 0 {
        iv
    } else {
        aes_encrypt_block(
            key,
            xor_seq(block_at(data, n - 1), cbc_chain(key, iv, data, (n - 1) as nat)),
        )
    }
}

/// CBC ciphertext of a plaintext under an IV: the IV, then the chain over the padding.
pub open spec fn cbc_encrypt_spec(key: Seq<u8>, iv: Seq<u8>, plain: Seq<u8>) -> Seq<u8> {
    let q = pad_spec(plain);
    Seq::new(q.len() + 16, |j: int| cbc_chain(key, iv, q, (j / 16) as nat)[j % 16])
}

/// The padded plaintext under a CBC ciphertext of at least one block: each
/// block after the first decrypted and combined with the block before it.
pub open spec fn cbc_decrypt_blocks(key: Seq<u8>, cipher: Seq<u8>) -> Seq<u8> {
    Seq::new(
        (cipher.len() - 16) as nat,
        |j: int| aes_decrypt_block(key, block_at(cipher, j / 16 + 1))[j % 16] ^ cipher[j],
    )
}

/// Decrypting `block` under `key` gives a block that encrypts back to `block`.
pub open spec fn block_round_trips(key: Seq<u8>, block: Seq<u8>) -> bool {
    &&& aes_decrypt_block(key, block).len() == 16
    &&& aes_encrypt_block(key, aes_decrypt_block(key, block)) == block
}

/// CBC decryption: rejects a ciphertext shorter than the IV, then one that is
/// no whole number of blocks; else strips the padding from the decrypted body.
pub open spec fn cbc_decrypt_spec(key: Seq<u8>, cipher: Seq<u8>) -> Result<Seq<u8>, ModeError> {
    if cipher.len() < 16 {
        Err(ModeError::TruncatedCiphertext)
    } else if cipher.len() % 16 != 0 {
        Err(ModeError::InvalidBlockLength)
    } else {
        Ok(un_pad_spec(cbc_decrypt_blocks(key, cipher)))
    }
}

/// Encrypts in CBC mode with the given IV, which becomes the first
/// ciphertext block. The ciphertext decrypts back to the plaintext.
pub fn cbc_encrypt_with_iv(plain_text: Vec<u8>, key: [u8; 16], iv: [u8; 16]) -> (r: Vec<u8>)
    ensures
        r@ == cbc_encrypt_spec(key@, iv@, plain_text@),
        r@.len() == pad_spec(plain_text@).len() + 16,
        forall|i: int|
            0 <= i < pad_spec(plain_text@).len() / 16 ==> #[trigger] block_at(r@, i + 1)
                == aes_encrypt_block(
                key@,
                xor_seq(block_at(pad_spec(plain_text@), i), block_at(r@, i)),
            ),
        cbc_decrypt_spec(key@, r@) == Ok::<Seq<u8>, ModeError>(plain_text@),
{
    let ghost p = plain_text@;
    let padded = pad(plain_text);
    let ghost q = padded@;
    let blocks = group(padded);
    let mut previous: [u8; 16] = iv;
    let mut encrypted: Vec<[u8; 16]> = Vec::new();
    encrypted.push(iv);
    let mut b: usize = 0;
    while b < blocks.len()
        invariant
            b <= blocks@.len(),
            blocks@.len() == q.len() / 16,
            q.len() % 16 == 0,
            forall|x: int| 0 <= x < blocks@.len() ==> #[trigger] blocks@[x]@ == block_at(q, x),
            encrypted@.len() == b + 1,
            previous == encrypted@[b as int],
            forall|x: int|
                0 <= x <= b ==> #[trigger] encrypted@[x]@ == cbc_chain(key@, iv@, q, x as nat),
            forall|x: int|
                0 <= x < b ==> aes_decrypt_block(key@, #[trigger] encrypted@[x + 1]@) == xor_seq(
                    blocks@[x]@,
                    encrypted@[x]@,
                ),
        decreases blocks@.len() - b,
    {
        let x = xor_block_bytes(&blocks[b], &previous);
        let c = aes_encrypt(x, &key);
        encrypted.push(c);
        previous = c;
        b = b + 1;
        proof {
            assert(encrypted@[b as int]@ == cbc_chain(key@, iv@, q, b as nat));
        }
    }
    let ghost enc = encrypted@;
    let r = un_group(encrypted);
    proof {
        assert forall|j: int| 0 <= j < q.len() + 16 implies r@[j] == #[trigger] cbc_encrypt_spec(
            key@,
            iv@,
            p,
        )[j] by {
            assert(enc[j / 16]@ == cbc_chain(key@, iv@, q, (j / 16) as nat));
        }
        assert(r@ =~= cbc_encrypt_spec(key@, iv@, p));
        assert forall|j: int| 0 <= j < q.len() implies #[trigger] cbc_decrypt_blocks(key@, r@)[j]
            == q[j] by {
            let bb = j / 16;
            let t = j % 16;
            lemma_block_at_concat(enc, bb + 1);
            assert(aes_decrypt_block(key@, enc[bb + 1]@) == xor_seq(blocks@[bb]@, enc[bb]@));
            assert(r@[j] == enc[bb]@[t]);
            lemma_xor_cancel(blocks@[bb]@[t], enc[bb]@[t]);
            assert(block_at(q, bb)[t] == q[j]);
        }
        assert(cbc_decrypt_blocks(key@, r@) =~= q);
        lemma_pad_round_trip(p);
        assert forall|i: int| 0 <= i < q.len() / 16 implies #[trigger] block_at(r@, i + 1)
            == aes_encrypt_block(key@, xor_seq(block_at(q, i), block_at(r@, i))) by {
            lemma_block_at_concat(enc, i);
            lemma_block_at_concat(enc, i + 1);
            assert(enc[i + 1]@ == cbc_chain(key@, iv@, q, (i + 1) as nat));
            assert(enc[i]@ == cbc_chain(key@, iv@, q, i as nat));
        }
    }
    r
}

/// Encrypts in CBC mode under a fresh random IV, which is the first block of
/// the result. The ciphertext decrypts back to the plaintext.
pub fn cbc_encrypt(plain_text: Vec<u8>, key: [u8; 16]) -> (r: Vec<u8>)
    ensures
        r@.len() >= 16,
        r@ == cbc_encrypt_spec(key@, r@.subrange(0, 16), plain_text@),
        r@.len() == pad_spec(plain_text@).len() + 16,
        forall|i: int|
            0 <= i < pad_spec(plain_text@).len() / 16 ==> #[trigger] block_at(r@, i + 1)
                == aes_encrypt_block(
                key@,
                xor_seq(block_at(pad_spec(plain_text@), i), block_at(r@, i)),
            ),
        cbc_decrypt_spec(key@, r@) == Ok::<Seq<u8>, ModeError>(plain_text@),
{
    let iv = create_rand_init_vector();
    let r = cbc_encrypt_with_iv(plain_text, key, iv);
    proof {
        lemma_cbc_iv_prefix(key@, iv@, plain_text@);
    }
    r
}

/// Decrypts in CBC mode: the first block is the IV; each later block is
/// decrypted and combined with the block before it; then the padding is stripped.
pub fn cbc_decrypt(cipher_text: Vec<u8>, key: [u8; 16]) -> (r: Result<Vec<u8>, ModeError>)
    ensures
        bytes_result(r) == cbc_decrypt_spec(key@, cipher_text@),
        r is Ok ==> forall|m: int|
            1 <= m < cipher_text@.len() / 16 ==> #[trigger] block_round_trips(
                key@,
                block_at(cipher_text@, m),
            ),
{
    if cipher_text.len() < 16 {
        return Err(ModeError::TruncatedCiphertext);
    }
    if cipher_text.len() % 16 != 0 {
        return Err(ModeError::InvalidBlockLength);
    }
    let ghost c = cipher_text@;
    let blocks = group(cipher_text);
    let mut previous: [u8; 16] = blocks[0];
    let mut decrypted: Vec<[u8; 16]> = Vec::new();
    let mut b: usize = 1;
    while b < blocks.len()
        invariant
            1 <= b <= blocks@.len(),
            blocks@.len() == c.len() / 16,
            c.len() % 16 == 0,
            forall|x: int| 0 <= x < blocks@.len() ==> #[trigger] blocks@[x]@ == block_at(c, x),
            previous == blocks@[b - 1],
            decrypted@.len() == b - 1,
            forall|x: int| 1 <= x < b ==> #[trigger] block_round_trips(key@, blocks@[x]@),
            forall|x: int|
                0 <= x < b - 1 ==> #[trigger] decrypted@[x]@ == xor_seq(
                    aes_decrypt_block(key@, blocks@[x + 1]@),
                    blocks@[x]@,
                ),
        decreases blocks@.len() - b,
    {
        let d = aes_decrypt(blocks[b], &key);
        let x = xor_block_bytes(&d, &previous);
        decrypted.push(x);
        previous = blocks[b];
        b = b + 1;
    }
    let ghost dec = decrypted@;
    let raw = un_group(decrypted);
    proof {
        assert forall|j: int| 0 <= j < c.len() - 16 implies raw@[j] == #[trigger] cbc_decrypt_blocks(
            key@,
            c,
        )[j] by {
            let bb = j / 16;
            let t = j % 16;
            assert(dec[bb]@ == xor_seq(aes_decrypt_block(key@, blocks@[bb + 1]@), blocks@[bb]@));
            assert(blocks@[bb]@ == block_at(c, bb));
            assert(block_at(c, bb)[t] == c[j]);
        }
        assert(raw@ =~= cbc_decrypt_blocks(key@, c));
        assert forall|m: int| 1 <= m < c.len() / 16 implies #[trigger] block_round_trips(
            key@,
            block_at(c, m),
        ) by {
            assert(block_round_trips(key@, blocks@[m]@));
        }
    }
    Ok(un_pad(raw))
}

/// A CBC ciphertext starts with its IV.
pub proof fn lemma_cbc_iv_prefix(key: Seq<u8>, iv: Seq<u8>, plain: Seq<u8>)
    requires
        iv.len() == 16,
    ensures
        cbc_encrypt_spec(key, iv, plain).subrange(0, 16) == iv,
{
    assert(cbc_encrypt_spec(key, iv, plain).subrange(0, 16) =~= iv);
}

/// Encrypting one plaintext under two different IVs gives two different ciphertexts.
pub proof fn lemma_cbc_distinct_ivs(key: Seq<u8>, iv1: Seq<u8>, iv2: Seq<u8>, plain: Seq<u8>)
    requires
        iv1.len() == 16,
        iv2.len() == 16,
        iv1 != iv2,
    ensures
        cbc_encrypt_spec(key, iv1, plain) != cbc_encrypt_spec(key, iv2, plain),
{
    lemma_cbc_iv_prefix(key, iv1, plain);
    lemma_cbc_iv_prefix(key, iv2, plain);
}

/// Flipping one bit at `pos` in a ciphertext block after the IV leaves every
/// plaintext block unchanged but two: the one that the altered block decrypts
/// to, and the next one, which gets exactly the same bit flipped.
pub proof fn lemma_cbc_bit_flip(key: Seq<u8>, cipher: Seq<u8>, pos: int, bit: u8)
    requires
        cipher.len() >= 32,
        cipher.len() % 16 == 0,
        16 <= pos < cipher.len(),
        bit < 8,
    ensures
        ({
            let flipped = cipher.update(pos, cipher[pos] ^ (1u8 << bit));
            let d = cbc_decrypt_blocks(key, cipher);
            let d2 = cbc_decrypt_blocks(key, flipped);
            &&& d2.len() == d.len()
            &&& forall|j: int|
                0 <= j < d.len() && j / 16 != pos / 16 - 1 && j / 16 != pos / 16 ==> #[trigger] d2[j]
                    == d[j]
            &&& pos < d.len() ==> d2[pos] == d[pos] ^ (1u8 << bit) && d2[pos] != d[pos]
        }),
{
    let flipped = cipher.update(pos, cipher[pos] ^ (1u8 << bit));
    let d = cbc_decrypt_blocks(key, cipher);
    let d2 = cbc_decrypt_blocks(key, flipped);
    assert forall|j: int|
        0 <= j < d.len() && j / 16 != pos / 16 - 1 && j / 16 != pos / 16 implies #[trigger] d2[j]
        == d[j] by {
        assert(block_at(flipped, j / 16 + 1) =~= block_at(cipher, j / 16 + 1));
    }
    if pos < d.len() {
        assert(block_at(flipped, pos / 16 + 1) =~= block_at(cipher, pos / 16 + 1));
        lemma_xor_flip(aes_decrypt_block(key, block_at(cipher, pos / 16 + 1))[pos % 16], cipher[pos], bit);
    }
}

/// Flipping one bit at `pos` in a ciphertext block after the IV also changes
/// the plaintext block that the altered block decrypts to, wherever the
/// original and the altered block each decrypt to a block that encrypts back
/// to them, as `cbc_decrypt` ensures of every block it decrypts.
pub proof fn lemma_cbc_bit_flip_damaged_block(key: Seq<u8>, cipher: Seq<u8>, pos: int, bit: u8)
    requires
        cipher.len() >= 32,
        cipher.len() % 16 == 0,
        16 <= pos < cipher.len(),
        bit < 8,
        block_round_trips(key, block_at(cipher, pos / 16)),
        block_round_trips(
            key,
            block_at(cipher.update(pos, cipher[pos] ^ (1u8 << bit)), pos / 16),
        ),
    ensures
        block_at(
            cbc_decrypt_blocks(key, cipher.update(pos, cipher[pos] ^ (1u8 << bit))),
            pos / 16 - 1,
        ) != block_at(cbc_decrypt_blocks(key, cipher), pos / 16 - 1),
{
    let flipped = cipher.update(pos, cipher[pos] ^ (1u8 << bit));
    let i = pos / 16;
    let d = cbc_decrypt_blocks(key, cipher);
    let d2 = cbc_decrypt_blocks(key, flipped);
    let e = aes_decrypt_block(key, block_at(cipher, i));
    let e2 = aes_decrypt_block(key, block_at(flipped, i));
    lemma_xor_flip(0, cipher[pos], bit);
    assert(block_at(flipped, i)[pos % 16] != block_at(cipher, i)[pos % 16]);
    if block_at(d2, i - 1) == block_at(d, i - 1) {
        assert forall|t: int| 0 <= t < 16 implies e2[t] == e[t] by {
            let j = 16 * (i - 1) + t;
            assert(j / 16 == i - 1 && j % 16 == t);
            assert(block_at(d2, i - 1)[t] == d2[j]);
            assert(block_at(d, i - 1)[t] == d[j]);
            assert(flipped[j] == cipher[j]);
            lemma_xor_cancel(e2[t], cipher[j]);
            lemma_xor_cancel(e[t], cipher[j]);
        }
        assert(e2 =~= e);
    }
}

} // verus!
