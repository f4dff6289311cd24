//! Counter mode: block `i` of the plaintext is combined with the encryption
//! of `nonce ‖ i` (the counter as 8 little-endian bytes). No padding is used,
//! and the random nonce travels as the first 8 bytes of the ciphertext.
//! Encryption and decryption both run the block cipher forward.

use vstd::prelude::*;
use crate::cipher::{aes_encrypt, aes_encrypt_block};
use crate::error::{bytes_result, ModeError};
use crate::random::create_rand_nonce;
use crate::xor::lemma_xor_cancel;

verus! {

/// The counter block for chunk `i`: the nonce, then `i` as 8 little-endian bytes.
pub open spec fn counter_block(nonce: Seq<u8>, i: u64) -> Seq<u8> {
    nonce + Seq::new(8, |t: int| ((i >> (8 * t) as u64) % 256u64) as u8)
}

/// The keystream block for chunk `i`.
pub open spec fn keystream_block(key: Seq<u8>, nonce: Seq<u8>, i: u64) -> Seq<u8> {
    aes_encrypt_block(key, counter_block(nonce, i))
}

/// `data` combined byte by byte with the keystream; the last chunk uses only
/// as much of its keystream block as it needs.
pub open spec fn ctr_apply_spec(key: Seq<u8>, nonce: Seq<u8>, data: Seq<u8>) -> Seq<u8> {
    Seq::new(data.len(), |j: int| data[j] ^ keystream_block(key, nonce, (j / 16) as u64)[j % 16])
}

/// CTR ciphertext of a plaintext under a nonce: the nonce, then the
/// plaintext combined with the keystream.
pub open spec fn ctr_encrypt_spec(key: Seq<u8>, nonce: Seq<u8>, plain: Seq<u8>) -> Seq<u8> {
    nonce + ctr_apply_spec(key, nonce, plain)
}

/// CTR decryption: rejects a ciphertext shorter than the nonce, else combines
/// the rest with the keystream of that nonce.
pub open spec fn ctr_decrypt_spec(key: Seq<u8>, cipher: Seq<u8>) -> Result<Seq<u8>, ModeError> {
    if cipher.len() < 8 {
        Err(ModeError::TruncatedCiphertext)
    } else {
        Ok(ctr_apply_spec(key, cipher.subrange(0, 8), cipher.subrange(8, cipher.len() as int)))
    }
}

/// Builds the counter block for chunk `counter`.
fn make_counter_block(nonce: &[u8; 8], counter: u64) -> (r: [u8; 16])
    ensures
        r@ == counter_block(nonce@, counter),
{
    let mut block: [u8; 16] = [0u8; 16];
    let mut t: usize = 0;
    while t < 8
        invariant
            t <= 8,
            block@.len() == 16,
            forall|s: int| 0 <= s < t ==> block@[s] == nonce@[s],
            forall|s: int|
                0 <= s < t ==> #[trigger] block@[8 + s] == ((counter >> (8 * s) as u64) % 256u64) as u8,
        decreases 8 - t,
    {
        block[t] = nonce[t];
        block[8 + t] = ((counter >> (8 * t) as u64) % 256u64) as u8;
        t = t + 1;
    }
    assert forall|s: int| 0 <= s < 16 implies #[trigger] block@[s] == counter_block(nonce@, counter)[s] by {
        if s >= 8 {
            assert(block@[8 + (s - 8)] == ((counter >> (8 * (s - 8)) as u64) % 256u64) as u8);
        }
    }
    assert(block@ =~= counter_block(nonce@, counter));
    block
}

/// Combines `data[from..]` with the keystream of `nonce` under `key`.
fn ctr_apply(data: &[u8], from: usize, key: &[u8; 16], nonce: &[u8; 8]) -> (r: Vec<u8>)
    requires
        from <= data@.len(),
    ensures
        r@ == ctr_apply_spec(key@, nonce@, data@.subrange(from as int, data@.len() as int)),
{
    let ghost tail = data@.subrange(from as int, data@.len() as int);
    let n: usize = data.len() - from;
    let mut out: Vec<u8> = Vec::with_capacity(n);
    let mut i: usize = 0;
    let mut start: usize = 0;
    while start < n
        invariant
            n == tail.len(),
            tail == data@.subrange(from as int, data@.len() as int),
            from + n == data@.len(),
            data@.len() <= usize::MAX,
            start <= n,
            start == 16 * i || start == n,
            out@.len() == start,
            forall|j: int|
                0 <= j < out@.len() ==> #[trigger] out@[j] == ctr_apply_spec(key@, nonce@, tail)[j],
        decreases n + 16 - start,
    {
        let counter_block = make_counter_block(nonce, i as u64);
        let keystream = aes_encrypt(counter_block, key);
        let len: usize = if n - start < 16 { n - start } else { 16 };
        let mut t: usize = 0;
        while t < len
            invariant
                n == tail.len(),
                tail == data@.subrange(from as int, data@.len() as int),
                from + n == data@.len(),
                data@.len() <= usize::MAX,
                start == 16 * i,
                start + len <= n,
                len <= 16,
                t <= len,
                keystream@ == keystream_block(key@, nonce@, i as u64),
                out@.len() == start + t,
                forall|j: int|
                    0 <= j < out@.len() ==> #[trigger] out@[j] == ctr_apply_spec(key@, nonce@, tail)[j],
            decreases len - t,
        {
            let ghost j: int = start + t;
            proof {
                assert(j / 16 == i && j % 16 == t) by {
                    assert(16 * i + t == j);
                }
                assert(tail[j] == data@[from + start + t]);
            }
            out.push(data[from + start + t] ^ keystream[t]);
            assert(out@[j] == ctr_apply_spec(key@, nonce@, tail)[j]);
            t = t + 1;
        }
        start = start + len;
        i = i + 1;
    }
    assert(out@ =~= ctr_apply_spec(key@, nonce@, tail));
    out
}

/// Encrypts in CTR mode with the given nonce, which leads the ciphertext.
pub fn ctr_encrypt_with_nonce(plain_text: Vec<u8>, key: [u8; 16], nonce: [u8; 8]) -> (r: Vec<u8>)
    ensures
        r@ == ctr_encrypt_spec(key@, nonce@, plain_text@),
        r@.len() == 8 + plain_text@.len(),
{
    let mut out: Vec<u8> = Vec::new();
    let mut t: usize = 0;
    while t < 8
        invariant
            t <= 8,
            out@ == nonce@.subrange(0, t as int),
        decreases 8 - t,
    {
        out.push(nonce[t]);
        t = t + 1;
        assert(out@ =~= nonce@.subrange(0, t as int));
    }
    let mut body = ctr_apply(plain_text.as_slice(), 0, &key, &nonce);
    assert(plain_text@.subrange(0, plain_text@.len() as int) =~= plain_text@);
    assert(out@ =~= nonce@);
    out.append(&mut body);
    out
}

/// Encrypts in CTR mode under a fresh random nonce, which is the first 8
/// bytes of the result. The ciphertext is exactly 8 bytes longer than the
/// plaintext, and decrypts back to it.
pub fn ctr_encrypt(plain_text: Vec<u8>, key: [u8; 16]) -> (r: Vec<u8>)
    ensures
        r@.len() == 8 + plain_text@.len(),
        r@ == ctr_encrypt_spec(key@, r@.subrange(0, 8), plain_text@),
        ctr_decrypt_spec(key@, r@) == Ok::<Seq<u8>, ModeError>(plain_text@),
{
    let nonce = create_rand_nonce();
    let r = ctr_encrypt_with_nonce(plain_text, key, nonce);
    proof {
        assert(r@.subrange(0, 8) =~= nonce@);
        lemma_ctr_round_trip(key@, nonce@, plain_text@);
    }
    r
}

/// Decrypts in CTR mode: the first 8 bytes are the nonce; the rest is
/// combined with the same keystream that encrypted it.
pub fn ctr_decrypt(cipher_text: Vec<u8>, key: [u8; 16]) -> (r: Result<Vec<u8>, ModeError>)
    ensures
        bytes_result(r) == ctr_decrypt_spec(key@, cipher_text@),
{
    if cipher_text.len() < 8 {
        return Err(ModeError::TruncatedCiphertext);
    }
    let mut nonce: [u8; 8] = [0u8; 8];
    let mut t: usize = 0;
    while t < 8
        invariant
            t <= 8,
            cipher_text@.len() >= 8,
            forall|s: int| 0 <= s < t ==> nonce@[s] == cipher_text@[s],
        decreases 8 - t,
    {
        nonce[t] = cipher_text[t];
        t = t + 1;
    }
    assert(nonce@ =~= cipher_text@.subrange(0, 8));
    Ok(ctr_apply(cipher_text.as_slice(), 8, &key, &nonce))
}

/// Decrypting a CTR ciphertext gives back the plaintext, for every key and nonce.
pub proof fn lemma_ctr_round_trip(key: Seq<u8>, nonce: Seq<u8>, plain: Seq<u8>)
    requires
        nonce.len() == 8,
    ensures
        ctr_decrypt_spec(key, ctr_encrypt_spec(key, nonce, plain)) == Ok::<Seq<u8>, ModeError>(
            plain,
        ),
{
    let c = ctr_encrypt_spec(key, nonce, plain);
    let body = ctr_apply_spec(key, nonce, plain);
    assert(c.subrange(0, 8) =~= nonce);
    assert(c.subrange(8, c.len() as int) =~= body);
    assert forall|j: int| 0 <= j < plain.len() implies #[trigger] ctr_apply_spec(key, nonce, body)[j]
        == plain[j] by {
        lemma_xor_cancel(plain[j], keystream_block(key, nonce, (j / 16) as u64)[j % 16]);
    }
    assert(ctr_apply_spec(key, nonce, body) =~= plain);
}

/// A CTR ciphertext is the nonce followed by as many bytes as the plaintext;
/// an empty plaintext gives the nonce alone.
pub proof fn lemma_ctr_length(key: Seq<u8>, nonce: Seq<u8>, plain: Seq<u8>)
    requires
        nonce.len() == 8,
    ensures
        ctr_encrypt_spec(key, nonce, plain).len() == 8 + plain.len(),
        ctr_encrypt_spec(key, nonce, plain).subrange(0, 8) == nonce,
        plain.len() == 0 ==> ctr_encrypt_spec(key, nonce, plain) == nonce,
{
    assert(ctr_encrypt_spec(key, nonce, plain).subrange(0, 8) =~= nonce);
    if plain.len() == 0 {
        assert(ctr_encrypt_spec(key, nonce, plain) =~= nonce);
    }
}

} // verus!
