use acry::crypto::decrypt_chunk::decrypt_chunk;
use acry::crypto::encrypt_chunk::encrypt_chunk;
use acry::crypto::error::CryptoError;
use acry::crypto::kdf::derive_key;
use acry::crypto::nonce::derive_nonce;
use acry::crypto::stream::{fits_counter, piece_len};
use acry::format::header::HeaderError;
use acry::{decode_header_wasm, decrypt_chunk_wasm, derive_key_wasm, encrypt_chunk_wasm, init_encrypt};

const KEY: [u8; 32] = [7u8; 32];
const BASE: [u8; 12] = [1, 2, 3, 4, 5, 6, 7, 8, 9, 10, 11, 12];

#[test]
fn nonce_overwrites_last_four_bytes_little_endian() {
    assert_eq!(derive_nonce(&BASE, 0), [1, 2, 3, 4, 5, 6, 7, 8, 0, 0, 0, 0]);
    assert_eq!(derive_nonce(&BASE, 1), [1, 2, 3, 4, 5, 6, 7, 8, 1, 0, 0, 0]);
    assert_eq!(
        derive_nonce(&BASE, 0x0A0B_0C0D),
        [1, 2, 3, 4, 5, 6, 7, 8, 0x0D, 0x0C, 0x0B, 0x0A]
    );
    assert_eq!(
        derive_nonce(&BASE, u32::MAX),
        [1, 2, 3, 4, 5, 6, 7, 8, 0xFF, 0xFF, 0xFF, 0xFF]
    );
}

#[test]
fn nonces_of_different_positions_differ() {
    for i in 0..50u32 {
        for j in 0..50u32 {
            if i != j {
                assert_ne!(derive_nonce(&BASE, i), derive_nonce(&BASE, j));
            }
        }
    }
}

#[test]
fn piece_len_takes_a_full_piece_or_the_rest() {
    assert_eq!(piece_len(5000, 12, 0), 4096);
    assert_eq!(piece_len(904, 12, 0), 904);
    assert_eq!(piece_len(4096, 12, 0), 4096);
    assert_eq!(piece_len(5032, 12, 16), 4112);
    assert_eq!(piece_len(920, 12, 16), 920);
    assert_eq!(piece_len(0, 12, 16), 0);
    assert_eq!(piece_len(3, 0, 0), 1);
    assert_eq!(piece_len(1000, 64, 16), 1000);
    assert_eq!(piece_len(1000, 255, 0), 1000);
    assert_eq!(piece_len(usize::MAX, 63, 16), (1usize << 63) + 16);
}

#[test]
fn chunk_roundtrip() {
    let plain = b"the quick brown fox".to_vec();
    let sealed = encrypt_chunk(&KEY, &BASE, 3, &plain);
    assert_eq!(sealed.len(), plain.len() + 16);
    assert_ne!(&sealed[..plain.len()], &plain[..]);
    let opened = decrypt_chunk(&KEY, &BASE, 3, &sealed).unwrap();
    assert_eq!(opened, plain);
}

#[test]
fn chunk_sealing_is_deterministic_and_position_dependent() {
    let plain = [0u8; 64];
    let a = encrypt_chunk(&KEY, &BASE, 0, &plain);
    let b = encrypt_chunk(&KEY, &BASE, 0, &plain);
    let c = encrypt_chunk(&KEY, &BASE, 1, &plain);
    assert_eq!(a, b);
    assert_ne!(a, c);
}

#[test]
fn chunk_ignores_last_four_bytes_of_base_nonce() {
    let mut other = BASE;
    other[8] = 0xAA;
    other[11] = 0xBB;
    let plain = [5u8; 10];
    assert_eq!(encrypt_chunk(&KEY, &BASE, 9, &plain), encrypt_chunk(&KEY, &other, 9, &plain));
}

#[test]
fn empty_chunk_seals_to_a_tag() {
    let sealed = encrypt_chunk(&KEY, &BASE, 0, &[]);
    assert_eq!(sealed.len(), 16);
    assert_eq!(decrypt_chunk(&KEY, &BASE, 0, &sealed).unwrap(), Vec::<u8>::new());
}

#[test]
fn chunk_at_wrong_position_fails() {
    let sealed = encrypt_chunk(&KEY, &BASE, 0, b"hello");
    assert_eq!(decrypt_chunk(&KEY, &BASE, 1, &sealed).unwrap_err(), CryptoError::DecryptionFailed);
}

#[test]
fn chunk_under_wrong_key_fails() {
    let sealed = encrypt_chunk(&KEY, &BASE, 0, b"hello");
    let other = [8u8; 32];
    assert_eq!(decrypt_chunk(&other, &BASE, 0, &sealed).unwrap_err(), CryptoError::DecryptionFailed);
}

#[test]
fn chunk_shorter_than_a_tag_fails() {
    assert_eq!(decrypt_chunk(&KEY, &BASE, 0, &[]).unwrap_err(), CryptoError::DecryptionFailed);
    assert_eq!(decrypt_chunk(&KEY, &BASE, 0, &[0u8; 15]).unwrap_err(), CryptoError::DecryptionFailed);
}

#[test]
fn every_flipped_bit_of_a_chunk_is_detected() {
    let sealed = encrypt_chunk(&KEY, &BASE, 2, b"abcdefgh");
    for byte in 0..sealed.len() {
        for bit in 0..8 {
            let mut bad = sealed.clone();
            bad[byte] ^= 1 << bit;
            assert_eq!(decrypt_chunk(&KEY, &BASE, 2, &bad).unwrap_err(), CryptoError::DecryptionFailed);
        }
    }
}

#[test]
fn derive_key_is_deterministic() {
    let salt = [9u8; 16];
    let a = derive_key("correct-horse", &salt).unwrap();
    let b = derive_key("correct-horse", &salt).unwrap();
    assert_eq!(a, b);
    assert_eq!(a.len(), 32);
    assert_ne!(a, [0u8; 32]);
}

#[test]
fn derive_key_depends_on_password_and_salt() {
    let a = derive_key("correct-horse", &[9u8; 16]).unwrap();
    let b = derive_key("correct-horsf", &[9u8; 16]).unwrap();
    let c = derive_key("correct-horse", &[8u8; 16]).unwrap();
    assert_ne!(a, b);
    assert_ne!(a, c);
}

#[test]
fn derive_key_rejects_salt_of_wrong_length() {
    assert_eq!(derive_key("pw", &[0u8; 15]).unwrap_err(), CryptoError::KeyDerivationFailed);
    assert_eq!(derive_key("pw", &[0u8; 17]).unwrap_err(), CryptoError::KeyDerivationFailed);
    assert_eq!(derive_key("pw", &[]).unwrap_err(), CryptoError::KeyDerivationFailed);
    assert_eq!(derive_key_wasm("pw", vec![0u8; 8]).unwrap_err(), CryptoError::KeyDerivationFailed);
}

#[test]
fn derive_key_wasm_agrees_with_derive_key() {
    let salt = vec![3u8; 16];
    let a = derive_key_wasm("secret", salt.clone()).unwrap();
    assert_eq!(a.len(), 32);
    let b = derive_key("secret", &salt).unwrap();
    assert_eq!(a, b.to_vec());
}

#[test]
fn chunk_functions_on_vectors_agree_with_arrays() {
    let plain = vec![42u8; 100];
    let sealed = encrypt_chunk_wasm(KEY.to_vec(), BASE.to_vec(), 5, plain.clone());
    assert_eq!(sealed, encrypt_chunk(&KEY, &BASE, 5, &plain));
    let opened = decrypt_chunk_wasm(KEY.to_vec(), BASE.to_vec(), 5, sealed).unwrap();
    assert_eq!(opened, plain);
}

#[test]
fn decrypt_chunk_wasm_checks_lengths() {
    let sealed = encrypt_chunk(&KEY, &BASE, 0, b"x");
    assert_eq!(
        decrypt_chunk_wasm(vec![7u8; 31], BASE.to_vec(), 0, sealed.clone()).unwrap_err(),
        CryptoError::CipherInitFailed
    );
    assert_eq!(
        decrypt_chunk_wasm(KEY.to_vec(), vec![1u8; 11], 0, sealed.clone()).unwrap_err(),
        CryptoError::InvalidLength
    );
    assert_eq!(
        decrypt_chunk_wasm(vec![7u8; 33], vec![1u8; 13], 0, sealed.clone()).unwrap_err(),
        CryptoError::CipherInitFailed
    );
    let mut bad = sealed;
    bad[0] ^= 0x80;
    assert_eq!(
        decrypt_chunk_wasm(KEY.to_vec(), BASE.to_vec(), 0, bad).unwrap_err(),
        CryptoError::DecryptionFailed
    );
}

#[test]
fn init_encrypt_hands_out_matching_parts() {
    let mut res = init_encrypt("pw", 1000, 16).unwrap();
    let header_bytes = res.header();
    assert_eq!(header_bytes.len(), 44);
    let decoded = decode_header_wasm(header_bytes).unwrap();
    assert_eq!(decoded.chunk_exp(), 16);
    assert_eq!(decoded.original_size(), 1000);
    assert_eq!(decoded.salt().len(), 16);
    assert_eq!(decoded.base_nonce(), res.base_nonce());
    assert_eq!(res.base_nonce().len(), 12);
    assert_eq!(res.key().len(), 32);
    assert_eq!(res.key(), derive_key_wasm("pw", decoded.salt()).unwrap());
    res.clear();
    assert!(res.header().is_empty());
    assert!(res.key().is_empty());
    assert!(res.base_nonce().is_empty());
}

#[test]
fn decoded_header_clear_wipes_every_field() {
    let mut bytes = vec![0x41, 0x43, 0x52, 0x59, 1, 1, 1, 12];
    bytes.extend_from_slice(&[5u8; 16]);
    bytes.extend_from_slice(&[6u8; 12]);
    bytes.extend_from_slice(&77u64.to_le_bytes());
    let mut decoded = decode_header_wasm(bytes).unwrap();
    assert_eq!(decoded.chunk_exp(), 12);
    assert_eq!(decoded.salt(), vec![5u8; 16]);
    assert_eq!(decoded.base_nonce(), vec![6u8; 12]);
    assert_eq!(decoded.original_size(), 77);
    decoded.clear();
    assert_eq!(decoded.chunk_exp(), 0);
    assert_eq!(decoded.original_size(), 0);
    assert!(decoded.salt().is_empty());
    assert!(decoded.base_nonce().is_empty());
}

#[test]
fn decode_header_wasm_reports_header_errors() {
    assert!(matches!(decode_header_wasm(vec![0u8; 10]), Err(HeaderError::InvalidLength)));
    assert!(matches!(decode_header_wasm(vec![0u8; 44]), Err(HeaderError::InvalidMagic)));
    let mut bytes = vec![0x41, 0x43, 0x52, 0x59, 3];
    bytes.extend_from_slice(&[0u8; 39]);
    assert!(matches!(decode_header_wasm(bytes), Err(HeaderError::UnsupportedVersion(3))));
}

#[test]
fn error_messages() {
    assert_eq!(CryptoError::TooSmall.message(), "File too small");
    assert_eq!(CryptoError::InvalidMagic.message(), "Invalid header");
    assert_eq!(CryptoError::UnsupportedVersion(4).message(), "Invalid header");
    assert_eq!(CryptoError::InvalidLength.message(), "Invalid length");
    assert_eq!(CryptoError::KeyDerivationFailed.message(), "Key derivation failed");
    assert_eq!(CryptoError::CipherInitFailed.message(), "Cipher init failed");
    assert_eq!(CryptoError::DecryptionFailed.message(), "Decryption failed");
    assert_eq!(CryptoError::RandomSourceFailed.message(), "Random source failed");
    assert_eq!(CryptoError::from_header(HeaderError::InvalidLength), CryptoError::InvalidLength);
    assert_eq!(CryptoError::from_header(HeaderError::InvalidMagic), CryptoError::InvalidMagic);
    assert_eq!(
        CryptoError::from_header(HeaderError::UnsupportedVersion(9)),
        CryptoError::UnsupportedVersion(9)
    );
}

#[test]
fn aes256gcm_known_answers() {
    let sealed = encrypt_chunk(&[0u8; 32], &[0u8; 12], 0, &[0u8; 16]);
    let expected: Vec<u8> = vec![
        0xce, 0xa7, 0x40, 0x3d, 0x4d, 0x60, 0x6b, 0x6e, 0x07, 0x4e, 0xc5, 0xd3, 0xba, 0xf3, 0x9d, 0x18,
        0xd0, 0xd1, 0xc8, 0xa7, 0x99, 0x99, 0x6b, 0xf0, 0x26, 0x5b, 0x98, 0xb5, 0xd4, 0x8a, 0xb9, 0x19,
    ];
    assert_eq!(sealed, expected);
    assert_eq!(decrypt_chunk(&[0u8; 32], &[0u8; 12], 0, &expected).unwrap(), vec![0u8; 16]);
    let tag_only = encrypt_chunk(&[0u8; 32], &[0u8; 12], 0, &[]);
    let expected_tag: Vec<u8> = vec![
        0x53, 0x0f, 0x8a, 0xfb, 0xc7, 0x45, 0x36, 0xb9, 0xa9, 0x63, 0xb4, 0xf1, 0xc4, 0xcb, 0x73, 0x8b,
    ];
    assert_eq!(tag_only, expected_tag);
}

#[test]
fn fits_counter_allows_up_to_the_last_counter_value() {
    assert!(fits_counter(0, 0));
    assert!(fits_counter(5000, 12));
    assert!(fits_counter(0xFFFF_FFFF, 0));
    assert!(!fits_counter(0x1_0000_0000, 0));
    assert!(fits_counter(0x1_FFFF_FFFE, 1));
    assert!(!fits_counter(0x1_FFFF_FFFF, 1));
    assert!(!fits_counter(usize::MAX, 32));
    assert!(fits_counter(usize::MAX, 33));
    assert!(fits_counter(usize::MAX, 255));
}
