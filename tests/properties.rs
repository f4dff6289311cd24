use block_modes::{
    cbc_decrypt, cbc_encrypt, cbc_encrypt_with_iv, create_rand_init_vector, create_rand_nonce,
    ctr_decrypt, ctr_encrypt, ctr_encrypt_with_nonce, ecb_decrypt, ecb_encrypt, group, pad,
    un_group, un_pad, xor_block_bytes, xor_bytes, ModeError,
};

const ZERO_KEY: [u8; 16] = [0u8; 16];

/// AES-128 of the all-zero block under the all-zero key.
const AES_ZERO: [u8; 16] = [
    0x66, 0xe9, 0x4b, 0xd4, 0xef, 0x8a, 0x2c, 0x3b, 0x88, 0x4c, 0xfa, 0x59, 0xca, 0x34, 0x2b, 0x2e,
];

fn sample(len: usize) -> Vec<u8> {
    (0..len).map(|i| (i * 7 + 3) as u8).collect()
}

fn lengths() -> Vec<usize> {
    vec![0, 1, 5, 15, 16, 17, 23, 31, 32, 33, 48, 100]
}

#[test]
fn pad_short_message_adds_eleven_elevens() {
    let padded = pad(b"Short".to_vec());
    let mut expected = b"Short".to_vec();
    expected.extend_from_slice(&[11u8; 11]);
    assert_eq!(padded, expected);
    assert_eq!(un_pad(padded), b"Short".to_vec());
}

#[test]
fn pad_full_block_adds_block_of_sixteens() {
    let data = sample(16);
    let padded = pad(data.clone());
    assert_eq!(padded.len(), 32);
    assert_eq!(&padded[..16], &data[..]);
    assert_eq!(&padded[16..], &[16u8; 16]);
}

#[test]
fn pad_empty_is_one_block_of_sixteens() {
    assert_eq!(pad(Vec::new()), vec![16u8; 16]);
    assert_eq!(un_pad(vec![16u8; 16]), Vec::<u8>::new());
}

#[test]
fn pad_round_trip_for_many_lengths() {
    for len in lengths() {
        let data = sample(len);
        let padded = pad(data.clone());
        assert_eq!(padded.len() % 16, 0);
        assert!(padded.len() > data.len());
        assert_eq!(un_pad(padded), data);
    }
}

#[test]
fn un_pad_leaves_ambiguous_data_unchanged() {
    assert_eq!(un_pad(Vec::new()), Vec::<u8>::new());
    let zero_last = vec![1u8, 2, 3, 0];
    assert_eq!(un_pad(zero_last.clone()), zero_last);
    let too_large = vec![17u8; 32];
    assert_eq!(un_pad(too_large.clone()), too_large);
    let longer_than_data = vec![1u8, 5];
    assert_eq!(un_pad(longer_than_data.clone()), longer_than_data);
    assert_eq!(un_pad(vec![9u8, 2, 2]), vec![9u8]);
}

#[test]
fn group_and_un_group_are_inverse() {
    let data = sample(48);
    let blocks = group(data.clone());
    assert_eq!(blocks.len(), 3);
    assert_eq!(&blocks[1][..], &data[16..32]);
    assert_eq!(un_group(blocks), data);
    assert!(group(Vec::new()).is_empty());
}

#[test]
fn xor_helpers() {
    assert_eq!(xor_bytes(&[0xff, 0x0f, 0x01], &[0x0f, 0x0f]), vec![0xf0, 0x00]);
    assert_eq!(xor_bytes(&[], &[1, 2]), Vec::<u8>::new());
    let a = [0xaau8; 16];
    let mut b = [0u8; 16];
    b[3] = 0xff;
    let x = xor_block_bytes(&a, &b);
    assert_eq!(x[0], 0xaa);
    assert_eq!(x[3], 0x55);
}

#[test]
fn ecb_known_answer_for_zero_block() {
    let c = ecb_encrypt(vec![0u8; 16], ZERO_KEY);
    assert_eq!(c.len(), 32);
    assert_eq!(&c[..16], &AES_ZERO);
    assert_eq!(ecb_decrypt(AES_ZERO.to_vec(), ZERO_KEY), Ok(vec![0u8; 16]));
}

#[test]
fn round_trip_all_modes_many_lengths() {
    let key: [u8; 16] = [
        0x2b, 0x7e, 0x15, 0x16, 0x28, 0xae, 0xd2, 0xa6, 0xab, 0xf7, 0x15, 0x88, 0x09, 0xcf, 0x4f,
        0x3c,
    ];
    for len in lengths() {
        let p = sample(len);
        assert_eq!(ecb_decrypt(ecb_encrypt(p.clone(), key), key), Ok(p.clone()));
        assert_eq!(cbc_decrypt(cbc_encrypt(p.clone(), key), key), Ok(p.clone()));
        assert_eq!(ctr_decrypt(ctr_encrypt(p.clone(), key), key), Ok(p.clone()));
    }
}

#[test]
fn ecb_ciphertext_lengths() {
    assert_eq!(ecb_encrypt(Vec::new(), ZERO_KEY).len(), 16);
    assert_eq!(ecb_encrypt(b"Hello, AES Encryption!".to_vec(), ZERO_KEY).len(), 32);
    assert_eq!(ecb_encrypt(b"Short".to_vec(), ZERO_KEY).len(), 16);
}

#[test]
fn ecb_equal_blocks_give_equal_ciphertext_blocks() {
    let block = sample(16);
    let mut p = block.clone();
    p.extend_from_slice(&block);
    let c = ecb_encrypt(p, ZERO_KEY);
    assert_eq!(c.len(), 48);
    assert_eq!(&c[..16], &c[16..32]);
    assert_ne!(&c[..16], &c[32..48]);
}

#[test]
fn ecb_rejects_partial_block() {
    assert_eq!(ecb_decrypt(vec![0u8; 15], ZERO_KEY), Err(ModeError::InvalidBlockLength));
    assert_eq!(ecb_decrypt(vec![0u8; 33], ZERO_KEY), Err(ModeError::InvalidBlockLength));
}

#[test]
fn ecb_rejects_empty_ciphertext() {
    assert_eq!(ecb_decrypt(Vec::new(), ZERO_KEY), Err(ModeError::InvalidBlockLength));
}

#[test]
fn cbc_known_answer_with_zero_iv() {
    let c = cbc_encrypt_with_iv(vec![0u8; 16], ZERO_KEY, [0u8; 16]);
    assert_eq!(c.len(), 48);
    assert_eq!(&c[..16], &[0u8; 16]);
    assert_eq!(&c[16..32], &AES_ZERO);
    assert_eq!(cbc_decrypt(c, ZERO_KEY), Ok(vec![0u8; 16]));
}

#[test]
fn cbc_same_plaintext_gives_different_ciphertexts() {
    let p = b"Hello, AES Encryption!".to_vec();
    let c1 = cbc_encrypt(p.clone(), ZERO_KEY);
    let c2 = cbc_encrypt(p.clone(), ZERO_KEY);
    assert_ne!(c1, c2);
    assert_ne!(&c1[..16], &c2[..16]);
    assert_eq!(cbc_decrypt(c1, ZERO_KEY), Ok(p.clone()));
    assert_eq!(cbc_decrypt(c2, ZERO_KEY), Ok(p));
}

#[test]
fn cbc_iv_leads_ciphertext() {
    let iv = [9u8; 16];
    let c = cbc_encrypt_with_iv(b"Short".to_vec(), ZERO_KEY, iv);
    assert_eq!(c.len(), 32);
    assert_eq!(&c[..16], &iv);
}

#[test]
fn cbc_bit_flip_touches_two_blocks() {
    let p = sample(64);
    let mut c = cbc_encrypt_with_iv(p.clone(), ZERO_KEY, [3u8; 16]);
    assert_eq!(c.len(), 96);
    // Flip bit 2 of byte 5 of ciphertext block 2 (block 0 is the IV).
    c[32 + 5] ^= 1 << 2;
    let d = cbc_decrypt(c, ZERO_KEY).unwrap();
    assert_eq!(d.len(), 64);
    assert_eq!(&d[..16], &p[..16]);
    assert_ne!(&d[16..32], &p[16..32]);
    assert_ne!(&d[32..48], &p[32..48]);
    assert_eq!(d[32 + 5], p[32 + 5] ^ (1 << 2));
    assert_eq!(&d[32..37], &p[32..37]);
    assert_eq!(&d[38..48], &p[38..48]);
    assert_eq!(&d[48..], &p[48..]);
}

#[test]
fn cbc_rejects_short_or_partial_ciphertext() {
    assert_eq!(cbc_decrypt(Vec::new(), ZERO_KEY), Err(ModeError::TruncatedCiphertext));
    assert_eq!(cbc_decrypt(vec![0u8; 15], ZERO_KEY), Err(ModeError::TruncatedCiphertext));
    assert_eq!(cbc_decrypt(vec![0u8; 20], ZERO_KEY), Err(ModeError::InvalidBlockLength));
}

#[test]
fn cbc_iv_alone_gives_empty_plaintext() {
    assert_eq!(cbc_decrypt(vec![7u8; 16], ZERO_KEY), Ok(Vec::new()));
}

#[test]
fn ctr_length_is_nonce_plus_plaintext() {
    for len in lengths() {
        assert_eq!(ctr_encrypt(sample(len), ZERO_KEY).len(), 8 + len);
    }
    let nonce = [4u8; 8];
    assert_eq!(ctr_encrypt_with_nonce(Vec::new(), ZERO_KEY, nonce), nonce.to_vec());
}

#[test]
fn ctr_known_answer_with_zero_nonce() {
    let c = ctr_encrypt_with_nonce(vec![0u8; 20], ZERO_KEY, [0u8; 8]);
    assert_eq!(c.len(), 28);
    assert_eq!(&c[..8], &[0u8; 8]);
    // Chunk 0 is the keystream of the all-zero counter block.
    assert_eq!(&c[8..24], &AES_ZERO);
    // Chunk 1 uses the counter block with counter 1.
    assert_ne!(&c[24..28], &AES_ZERO[..4]);
    assert_eq!(ctr_decrypt(c, ZERO_KEY), Ok(vec![0u8; 20]));
}

#[test]
fn ctr_chunk_boundaries_agree_with_prefixes() {
    let nonce = [1u8, 2, 3, 4, 5, 6, 7, 8];
    let long = ctr_encrypt_with_nonce(sample(40), ZERO_KEY, nonce);
    for len in [0usize, 1, 15, 16, 17, 32, 39] {
        let short = ctr_encrypt_with_nonce(sample(40)[..len].to_vec(), ZERO_KEY, nonce);
        assert_eq!(&short[..], &long[..8 + len]);
    }
}

#[test]
fn ctr_rejects_truncated_nonce() {
    assert_eq!(ctr_decrypt(vec![0u8; 7], ZERO_KEY), Err(ModeError::TruncatedCiphertext));
    assert_eq!(ctr_decrypt(vec![0u8; 8], ZERO_KEY), Ok(Vec::new()));
}

#[test]
fn random_values_differ() {
    assert_ne!(create_rand_init_vector(), create_rand_init_vector());
    assert_ne!(create_rand_nonce(), create_rand_nonce());
}
