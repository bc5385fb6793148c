use aes_modes::{
    aes_decrypt, aes_encrypt, cbc_decrypt, cbc_encrypt, cbc_encrypt_with_iv, ctr_decrypt,
    ctr_encrypt, ctr_encrypt_with_nonce, ecb_decrypt, ecb_encrypt, ModeError, BLOCK_SIZE,
};

/// AES-128 of the zero block under the zero key.
const ZERO_KEY_ZERO_BLOCK: [u8; 16] = [
    0x66, 0xe9, 0x4b, 0xd4, 0xef, 0x8a, 0x2c, 0x3b, 0x88, 0x4c, 0xfa, 0x59, 0xca, 0x34, 0x2b, 0x2e,
];

#[test]
fn test_cbc_encrypt_decrypt() {
    let key = [0u8; BLOCK_SIZE];
    let plain_text_value = b"Hello PBA Team, This is a fun Activity!".to_vec();

    let encrypted_value = cbc_encrypt(plain_text_value.clone(), key).unwrap();
    let decrypted_value = cbc_decrypt(encrypted_value, key);

    assert_eq!(Ok(plain_text_value), decrypted_value);
}

#[test]
fn test_cbc_encrypt_decrypt_with_padding() {
    let key = [0u8; BLOCK_SIZE];
    let plain_text_value = b"16-byte-block-msg".to_vec();

    let encrypted_value = cbc_encrypt(plain_text_value.clone(), key).unwrap();
    let decrypted_value = cbc_decrypt(encrypted_value, key);

    assert_eq!(Ok(plain_text_value), decrypted_value);
}

#[test]
fn test_cbc_encrypt_decrypt_empty_message() {
    let key = [0u8; BLOCK_SIZE];
    let plain_text_value: Vec<u8> = vec![];

    let encrypted_value = cbc_encrypt(plain_text_value.clone(), key).unwrap();
    let decrypted_value = cbc_decrypt(encrypted_value, key);

    assert_eq!(Ok(plain_text_value), decrypted_value);
}

// ECB pads to a whole block and runs AES-128 on it.
#[test]
fn test_ecb_encrypt() {
    let plain_text: Vec<u8> = vec![1, 2, 3];
    let key: [u8; 16] = [3; 16];
    let encrypted = ecb_encrypt(plain_text, key);
    assert_eq!(
        encrypted,
        vec![216, 113, 9, 84, 72, 189, 177, 26, 241, 231, 87, 73, 212, 112, 86, 4]
    );
}

// A three-byte buffer is not a whole block, so ECB refuses it.
#[test]
fn test_ecb_decrypt() {
    let cipher_text: Vec<u8> = vec![2, 1, 0];
    let key: [u8; 16] = [3; 16];
    let decrypted = ecb_decrypt(cipher_text, key);
    assert_eq!(decrypted, Err(ModeError::NotBlockAligned));
    let cipher_text: Vec<u8> =
        vec![216, 113, 9, 84, 72, 189, 177, 26, 241, 231, 87, 73, 212, 112, 86, 4];
    assert_eq!(ecb_decrypt(cipher_text, key), Ok(vec![1, 2, 3]));
}

#[test]
fn test_ctr() {
    let key: [u8; BLOCK_SIZE] = [2; BLOCK_SIZE];
    let plain_text = b"Hello, world!".to_vec();

    let cipher_text = ctr_encrypt(plain_text.clone(), key).unwrap();

    let decrypted_text = ctr_decrypt(cipher_text.clone(), key);

    assert_eq!(Ok(plain_text), decrypted_text);
}

#[test]
fn test_ctr_encrypt_decrypt() {
    let key = [0u8; BLOCK_SIZE];
    let plain_text_value = b"Hello PBA Team, This is another fun activity!".to_vec();

    let encrypted_value = ctr_encrypt(plain_text_value.clone(), key).unwrap();
    let decrypted_value = ctr_decrypt(encrypted_value, key);

    assert_eq!(Ok(plain_text_value), decrypted_value);
}

#[test]
fn test_ctr_encrypt_decrypt_with_padding() {
    let key = [0u8; BLOCK_SIZE];
    let plain_text_value = b"16-byte-block-msg".to_vec();

    let encrypted_value = ctr_encrypt(plain_text_value.clone(), key).unwrap();
    let decrypted_value = ctr_decrypt(encrypted_value, key);

    assert_eq!(Ok(plain_text_value), decrypted_value);
}

#[test]
fn aes_known_answer() {
    let key: [u8; 16] = [0, 1, 2, 3, 4, 5, 6, 7, 8, 9, 10, 11, 12, 13, 14, 15];
    let block: [u8; 16] = [
        0x00, 0x11, 0x22, 0x33, 0x44, 0x55, 0x66, 0x77, 0x88, 0x99, 0xaa, 0xbb, 0xcc, 0xdd,
        0xee, 0xff,
    ];
    let expected: [u8; 16] = [
        0x69, 0xc4, 0xe0, 0xd8, 0x6a, 0x7b, 0x04, 0x30, 0xd8, 0xcd, 0xb7, 0x80, 0x70, 0xb4,
        0xc5, 0x5a,
    ];
    assert_eq!(aes_encrypt(block, &key), expected);
    assert_eq!(aes_decrypt(expected, &key), block);
    assert_eq!(aes_encrypt([0u8; 16], &[0u8; 16]), ZERO_KEY_ZERO_BLOCK);
}

#[test]
fn ecb_round_trip_many_lengths() {
    let key: [u8; 16] = [7; 16];
    for n in 0..50usize {
        let p: Vec<u8> = (0..n).map(|i| (i * 31 % 251) as u8).collect();
        let c = ecb_encrypt(p.clone(), key);
        assert_eq!(c.len(), (n / 16 + 1) * 16);
        assert_eq!(ecb_decrypt(c, key), Ok(p));
    }
}

#[test]
fn ecb_repeats_equal_blocks() {
    let key: [u8; 16] = [9; 16];
    let mut p = b"YELLOW SUBMARINE".to_vec();
    p.extend_from_slice(b"YELLOW SUBMARINE");
    p.extend_from_slice(b"tail");
    let c = ecb_encrypt(p, key);
    assert_eq!(c.len(), 48);
    assert_eq!(c[0..16], c[16..32]);
    assert_ne!(c[0..16], c[32..48]);
}

#[test]
fn cbc_with_fixed_iv_exact() {
    let key = [0u8; 16];
    let iv = [0u8; 16];
    let c = cbc_encrypt_with_iv(vec![], key, iv);
    let mut expected = vec![0u8; 16];
    expected.extend_from_slice(&[
        1, 67, 219, 99, 238, 102, 176, 205, 255, 159, 105, 145, 118, 128, 21, 30,
    ]);
    assert_eq!(c, expected);
    assert_eq!(cbc_decrypt(c, key), Ok(vec![]));
}

#[test]
fn cbc_hides_repeated_blocks() {
    let key = [5u8; 16];
    let iv = [1u8; 16];
    let p = vec![0x41u8; 32];
    let c = cbc_encrypt_with_iv(p.clone(), key, iv);
    assert_eq!(c.len(), 64);
    assert_eq!(c[0..16], iv);
    assert_ne!(c[16..32], c[32..48]);
    assert_eq!(cbc_decrypt(c, key), Ok(p));
}

#[test]
fn cbc_round_trip_hello_team() {
    let key = [0u8; 16];
    let p = b"Hello PBA Team, This is a fun Activity!".to_vec();
    assert_eq!(p.len(), 39);
    let c = cbc_encrypt(p.clone(), key).unwrap();
    assert_eq!(c.len(), 16 + 48);
    assert_eq!(cbc_decrypt(c, key), Ok(p));
}

#[test]
fn cbc_calls_differ() {
    let key = [4u8; 16];
    let p = b"same message".to_vec();
    let a = cbc_encrypt(p.clone(), key).unwrap();
    let b = cbc_encrypt(p, key).unwrap();
    assert_ne!(a, b);
}

#[test]
fn cbc_decrypt_errors() {
    let key = [0u8; 16];
    assert_eq!(cbc_decrypt(vec![0u8; 15], key), Err(ModeError::TooShort));
    assert_eq!(cbc_decrypt(vec![], key), Err(ModeError::TooShort));
    assert_eq!(cbc_decrypt(vec![0u8; 17], key), Err(ModeError::TooShort));
    assert_eq!(cbc_decrypt(vec![0u8; 16], key), Err(ModeError::TooShort));
    assert_eq!(cbc_decrypt(vec![0u8; 31], key), Err(ModeError::TooShort));
    assert_eq!(cbc_decrypt(vec![0u8; 33], key), Err(ModeError::NotBlockAligned));
    // This block decrypts to zeros, whose last byte announces no padding.
    let mut c = vec![0u8; 16];
    c.extend_from_slice(&ZERO_KEY_ZERO_BLOCK);
    assert_eq!(cbc_decrypt(c, key), Err(ModeError::BadPadding));
}

#[test]
fn ctr_thirteen_bytes() {
    let key = [0u8; 16];
    let p = b"Hello, world!".to_vec();
    let c = ctr_encrypt(p.clone(), key).unwrap();
    assert_eq!(c.len(), 24);
    assert_eq!(ctr_decrypt(c, key), Ok(p));
}

#[test]
fn ctr_with_fixed_nonce_exact() {
    let key = [0u8; 16];
    let c = ctr_encrypt_with_nonce(b"Hello, world!".to_vec(), key, [0u8; 8]);
    assert_eq!(
        c,
        vec![
            0, 0, 0, 0, 0, 0, 0, 0, 46, 140, 39, 184, 128, 166, 12, 76, 231, 62, 150, 61, 235,
            55, 40, 45
        ]
    );
}

#[test]
fn ctr_nonce_leads_output() {
    let key = [1u8; 16];
    let c = ctr_encrypt_with_nonce(vec![1, 2, 3], key, [1, 2, 3, 4, 5, 6, 7, 8]);
    assert_eq!(c[0..8], [1, 2, 3, 4, 5, 6, 7, 8]);
    assert_eq!(ctr_decrypt(c, key), Ok(vec![1, 2, 3]));
}

#[test]
fn ctr_bit_flip_flips_one_bit() {
    let key = [3u8; 16];
    let p: Vec<u8> = (0..40u8).collect();
    let mut c = ctr_encrypt_with_nonce(p.clone(), key, [42, 0, 0, 0, 0, 0, 0, 0]);
    assert_eq!(c.len(), 8 + 48);
    c[8 + 16 + 5] ^= 0x10;
    let d = ctr_decrypt(c, key).unwrap();
    let mut expected = p.clone();
    expected[16 + 5] ^= 0x10;
    assert_eq!(d, expected);
}

#[test]
fn ctr_calls_differ() {
    let key = [4u8; 16];
    let p = b"same message".to_vec();
    let a = ctr_encrypt(p.clone(), key).unwrap();
    let b = ctr_encrypt(p, key).unwrap();
    assert_ne!(a, b);
}

#[test]
fn ctr_decrypt_errors() {
    let key = [0u8; 16];
    assert_eq!(ctr_decrypt(vec![0u8; 7], key), Err(ModeError::TooShort));
    assert_eq!(ctr_decrypt(vec![0u8; 9], key), Err(ModeError::TooShort));
    assert_eq!(ctr_decrypt(vec![0u8; 8], key), Err(ModeError::TooShort));
    assert_eq!(ctr_decrypt(vec![0u8; 23], key), Err(ModeError::TooShort));
    assert_eq!(ctr_decrypt(vec![0u8; 25], key), Err(ModeError::NotBlockAligned));
    // Nonce 0 and counter 0 give this keystream, so the body decrypts to zeros.
    let mut c = vec![0u8; 8];
    c.extend_from_slice(&ZERO_KEY_ZERO_BLOCK);
    assert_eq!(ctr_decrypt(c, key), Err(ModeError::BadPadding));
}

#[test]
fn ecb_decrypt_bad_padding() {
    let key = [0u8; 16];
    assert_eq!(ecb_decrypt(vec![], key), Err(ModeError::BadPadding));
    assert_eq!(ecb_decrypt(ZERO_KEY_ZERO_BLOCK.to_vec(), key), Err(ModeError::BadPadding));
}
