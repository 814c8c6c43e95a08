use acry::format::header::{FileHeader, HeaderError, CIPHER_AES_256_GCM, HEADER_SIZE, KDF_ARGON2ID, VERSION};

fn sample() -> FileHeader {
    FileHeader {
        version: 0x01,
        kdf: 0x01,
        cipher: 0x01,
        chunk_exp: 20,
        salt: [1u8; 16],
        base_nonce: [2u8; 12],
        original_size: 123456,
    }
}

#[test]
fn test_header_roundtrip() {
    let header = FileHeader {
        version: 0x01,
        kdf: 0x01,
        cipher: 0x01,
        chunk_exp: 20,
        salt: [1u8; 16],
        base_nonce: [2u8; 12],
        original_size: 123456,
    };

    let encoded = header.encode();
    let decoded = FileHeader::decode(&encoded).unwrap();

    assert_eq!(decoded.original_size, 123456);
}

#[test]
fn header_roundtrip_keeps_every_field() {
    let header = FileHeader {
        version: VERSION,
        kdf: 7,
        cipher: 9,
        chunk_exp: 255,
        salt: [0, 1, 2, 3, 4, 5, 6, 7, 8, 9, 10, 11, 12, 13, 14, 15],
        base_nonce: [100, 101, 102, 103, 104, 105, 106, 107, 108, 109, 110, 111],
        original_size: u64::MAX,
    };
    let decoded = FileHeader::decode(&header.encode()).unwrap();
    assert_eq!(decoded, header);
}

#[test]
fn header_encodes_to_the_fixed_layout() {
    let encoded = sample().encode();
    let mut expected: Vec<u8> = vec![0x41, 0x43, 0x52, 0x59, 0x01, 0x01, 0x01, 20];
    expected.extend_from_slice(&[1u8; 16]);
    expected.extend_from_slice(&[2u8; 12]);
    expected.extend_from_slice(&[0x40, 0xE2, 0x01, 0x00, 0x00, 0x00, 0x00, 0x00]);
    assert_eq!(encoded.len(), 44);
    assert_eq!(encoded.len(), HEADER_SIZE);
    assert_eq!(encoded, expected);
}

#[test]
fn header_constants() {
    assert_eq!(VERSION, 1);
    assert_eq!(KDF_ARGON2ID, 1);
    assert_eq!(CIPHER_AES_256_GCM, 1);
    assert_eq!(HEADER_SIZE, 44);
}

#[test]
fn header_size_is_little_endian() {
    let mut header = sample();
    header.original_size = 0x0102_0304_0506_0708;
    let encoded = header.encode();
    assert_eq!(&encoded[36..44], &[0x08, 0x07, 0x06, 0x05, 0x04, 0x03, 0x02, 0x01]);
    let decoded = FileHeader::decode(&encoded).unwrap();
    assert_eq!(decoded.original_size, 0x0102_0304_0506_0708);
}

#[test]
fn decode_rejects_short_buffer() {
    let encoded = sample().encode();
    assert_eq!(FileHeader::decode(&encoded[..43]).unwrap_err(), HeaderError::InvalidLength);
    assert_eq!(FileHeader::decode(&[]).unwrap_err(), HeaderError::InvalidLength);
    let garbage = [0xFFu8; 10];
    assert_eq!(FileHeader::decode(&garbage).unwrap_err(), HeaderError::InvalidLength);
}

#[test]
fn decode_rejects_mutated_magic() {
    for i in 0..4 {
        let mut encoded = sample().encode();
        encoded[i] ^= 0x01;
        assert_eq!(FileHeader::decode(&encoded).unwrap_err(), HeaderError::InvalidMagic);
    }
}

#[test]
fn decode_rejects_unknown_version() {
    let mut encoded = sample().encode();
    encoded[4] = 0x02;
    assert_eq!(FileHeader::decode(&encoded).unwrap_err(), HeaderError::UnsupportedVersion(2));
    encoded[4] = 0x00;
    assert_eq!(FileHeader::decode(&encoded).unwrap_err(), HeaderError::UnsupportedVersion(0));
}

#[test]
fn decode_checks_magic_before_version() {
    let mut encoded = sample().encode();
    encoded[0] = b'X';
    encoded[4] = 0x09;
    assert_eq!(FileHeader::decode(&encoded).unwrap_err(), HeaderError::InvalidMagic);
}

#[test]
fn decode_copies_algorithm_ids_unchecked() {
    let mut encoded = sample().encode();
    encoded[5] = 0x7F;
    encoded[6] = 0x80;
    let decoded = FileHeader::decode(&encoded).unwrap();
    assert_eq!(decoded.kdf, 0x7F);
    assert_eq!(decoded.cipher, 0x80);
}

#[test]
fn decode_ignores_bytes_after_the_header() {
    let mut encoded = sample().encode();
    encoded.extend_from_slice(&[9u8; 100]);
    let decoded = FileHeader::decode(&encoded).unwrap();
    assert_eq!(decoded, sample());
}
