use decrypt_server::cipher::{Cipher, KEYSTREAM_END};
use decrypt_server::container::{check_magic, parse_header, DecryptError, MAGIC};
use decrypt_server::decrypt;
use decrypt_server::kdf::{derive_key_material, read_u32_le, split_key_material, KeyMaterial};

fn unhex(s: &str) -> Vec<u8> {
    let digits: Vec<u8> = s.bytes().filter(|b| !b.is_ascii_whitespace()).collect();
    digits
        .chunks(2)
        .map(|p| u8::from_str_radix(std::str::from_utf8(p).unwrap(), 16).unwrap())
        .collect()
}

// RFC 8439, section 2.4.2.
const RFC_KEY: &str = "000102030405060708090a0b0c0d0e0f101112131415161718191a1b1c1d1e1f";
const RFC_NONCE: &str = "000000000000004a00000000";
const RFC_PLAINTEXT: &str = "
    4c616469657320616e642047656e746c656d656e206f662074686520636c6173
    73206f66202739393a20496620492063
    6f756c64206f6666657220796f75206f6e6c79206f6e652074697020666f7220
    746865206675747572652c2073756e73637265656e20776f756c642062652069742e";
const RFC_CIPHERTEXT: &str = "
    6e2e359a2568f98041ba0728dd0d6981e97e7aec1d4360c20a27afccfd9fae0b
    f91b65c5524733ab8f593dabcd62b3571639d624e65152ab8f530c359f0861d8
    07ca0dbf500d6a6156a38e088a22b65e52bc514d16ccf806818ce91ab7793736
    5af90bbf74a35be6b40b8eedf2785e42874d";

fn rfc_material() -> KeyMaterial {
    let key: [u8; 32] = unhex(RFC_KEY).try_into().unwrap();
    let nonce: [u8; 12] = unhex(RFC_NONCE).try_into().unwrap();
    KeyMaterial { key, block_counter: 1, nonce }
}

fn container(salt: [u8; 8], body: &[u8]) -> Vec<u8> {
    let mut c = b"Salted__".to_vec();
    c.extend_from_slice(&salt);
    c.extend_from_slice(body);
    c
}

fn encrypt(password: &[u8], salt: [u8; 8], plaintext: &[u8]) -> Vec<u8> {
    let mut cipher = Cipher::new(&derive_key_material(password, &salt));
    let mut body = plaintext.to_vec();
    cipher.apply_keystream(&mut body);
    container(salt, &body)
}

fn open_and_read(data: &[u8], password: &[u8], chunk: usize) -> Result<Vec<u8>, DecryptError> {
    let mut cipher = decrypt(&data[..data.len().min(16)], password)?;
    let mut out = Vec::new();
    for piece in data[16..].chunks(chunk) {
        let mut buf = piece.to_vec();
        cipher.apply_keystream(&mut buf);
        out.extend_from_slice(&buf);
    }
    Ok(out)
}

#[test]
fn magic_is_salted() {
    assert_eq!(&MAGIC, b"Salted__");
}

#[test]
fn check_magic_outcomes() {
    assert_eq!(check_magic(b"Salted__"), Ok(()));
    assert_eq!(check_magic(b"Salted__more"), Ok(()));
    assert_eq!(check_magic(b"Salted_"), Err(DecryptError::TruncatedInput));
    assert_eq!(check_magic(b""), Err(DecryptError::TruncatedInput));
    assert_eq!(check_magic(b"salted__"), Err(DecryptError::MalformedContainer));
}

#[test]
fn parse_header_returns_salt() {
    let c = container([1, 2, 3, 4, 5, 6, 7, 8], b"body");
    assert_eq!(parse_header(&c), Ok([1, 2, 3, 4, 5, 6, 7, 8]));
    assert_eq!(parse_header(&c[..16]), Ok([1, 2, 3, 4, 5, 6, 7, 8]));
}

#[test]
fn parse_header_truncated_salt() {
    let c = container([9; 8], b"");
    assert_eq!(parse_header(&c[..15]), Err(DecryptError::TruncatedInput));
    assert_eq!(parse_header(&c[..8]), Err(DecryptError::TruncatedInput));
}

#[test]
fn bad_magic_is_malformed() {
    let mut c = encrypt(b"secret", [0; 8], b"hello world");
    c[0] = b'X';
    assert_eq!(open_and_read(&c, b"secret", 4), Err(DecryptError::MalformedContainer));
    let short = b"NotSalt!ab".to_vec();
    assert_eq!(parse_header(&short), Err(DecryptError::MalformedContainer));
}

#[test]
fn ten_byte_container_is_truncated() {
    let c = b"Salted__\x00\x00".to_vec();
    assert_eq!(c.len(), 10);
    assert!(matches!(decrypt(&c, b"secret"), Err(DecryptError::TruncatedInput)));
}

#[test]
fn short_containers_are_truncated() {
    let full = container([0; 8], b"");
    for n in 0..16 {
        assert!(matches!(decrypt(&full[..n], b"pw"), Err(DecryptError::TruncatedInput)));
    }
}

#[test]
fn read_u32_le_values() {
    assert_eq!(read_u32_le(&[1, 0, 0, 0]), 1);
    assert_eq!(read_u32_le(&[0x78, 0x56, 0x34, 0x12]), 0x1234_5678);
    assert_eq!(read_u32_le(&[0xff, 0xff, 0xff, 0xff]), u32::MAX);
}

#[test]
fn split_key_material_layout() {
    let raw: Vec<u8> = (0u8..48).collect();
    let m = split_key_material(&raw);
    assert_eq!(m.key.to_vec(), (0u8..32).collect::<Vec<u8>>());
    assert_eq!(m.block_counter, u32::from_le_bytes([32, 33, 34, 35]));
    assert_eq!(m.nonce.to_vec(), (36u8..48).collect::<Vec<u8>>());
}

#[test]
fn derivation_is_deterministic() {
    let a = derive_key_material(b"secret", &[0; 8]);
    let b = derive_key_material(b"secret", &[0; 8]);
    assert_eq!(a, b);
}

#[test]
fn derivation_depends_on_password_and_salt() {
    let a = derive_key_material(b"secret", &[0; 8]);
    let b = derive_key_material(b"wrong", &[0; 8]);
    let c = derive_key_material(b"secret", &[1; 8]);
    assert_ne!(a, b);
    assert_ne!(a, c);
    assert_ne!(a.key, [0u8; 32]);
}

#[test]
fn cipher_matches_rfc8439_vector() {
    let mut cipher = Cipher::new(&rfc_material());
    assert_eq!(cipher.position(), 64);
    let mut buf = unhex(RFC_PLAINTEXT);
    cipher.apply_keystream(&mut buf);
    assert_eq!(buf, unhex(RFC_CIPHERTEXT));
    assert_eq!(cipher.position(), 64 + 114);
}

#[test]
fn cipher_chunk_boundaries_do_not_matter() {
    let expected = unhex(RFC_CIPHERTEXT);
    for split in [0usize, 1, 7, 63, 64, 65, 100, 114] {
        let mut cipher = Cipher::new(&rfc_material());
        let mut data = unhex(RFC_PLAINTEXT);
        let (first, second) = data.split_at_mut(split);
        cipher.apply_keystream(first);
        cipher.apply_keystream(second);
        assert_eq!(data, expected, "split at {}", split);
    }
}

#[test]
fn cipher_uneven_chunks() {
    let mut cipher = Cipher::new(&rfc_material());
    let mut data = unhex(RFC_PLAINTEXT);
    let mut start = 0;
    for size in [3usize, 61, 1, 0, 40, 9] {
        let end = (start + size).min(data.len());
        cipher.apply_keystream(&mut data[start..end]);
        start = end;
    }
    assert_eq!(start, 114);
    assert_eq!(data, unhex(RFC_CIPHERTEXT));
}

#[test]
fn cipher_remaining_at_last_counter() {
    let mut m = rfc_material();
    m.block_counter = u32::MAX;
    let c = Cipher::new(&m);
    assert_eq!(c.remaining(), 0);
    assert_eq!(c.position(), KEYSTREAM_END);
    m.block_counter = u32::MAX - 1;
    assert_eq!(Cipher::new(&m).remaining(), 64);
}

#[test]
fn cipher_last_usable_block() {
    let mut m = rfc_material();
    m.block_counter = u32::MAX - 1;
    let mut c = Cipher::new(&m);
    let mut buf = [0u8; 64];
    c.apply_keystream(&mut buf);
    assert_eq!(c.remaining(), 0);
    assert_ne!(buf, [0u8; 64]);
}

#[test]
fn round_trip_any_chunking() {
    let plaintext: Vec<u8> = (0..1000u32).map(|i| (i * 7 + 3) as u8).collect();
    let c = encrypt(b"secret", [5; 8], &plaintext);
    assert_eq!(c.len(), 16 + plaintext.len());
    for chunk in [1usize, 13, 64, 100, 4096] {
        assert_eq!(open_and_read(&c, b"secret", chunk), Ok(plaintext.clone()));
    }
}

#[test]
fn secret_and_wrong_password() {
    let plaintext = b"The quick brown fox jumps over the lazy dog".to_vec();
    let c = encrypt(b"secret", [0; 8], &plaintext);
    assert_eq!(&c[..16], b"Salted__\0\0\0\0\0\0\0\0");
    assert_ne!(&c[16..], &plaintext[..]);
    assert_eq!(open_and_read(&c, b"secret", 5), Ok(plaintext.clone()));
    let garbage = open_and_read(&c, b"wrong", 5).unwrap();
    assert_eq!(garbage.len(), plaintext.len());
    assert_ne!(garbage, plaintext);
}

#[test]
fn empty_body_decrypts_to_nothing() {
    let c = encrypt(b"pw", [3; 8], b"");
    assert_eq!(c.len(), 16);
    assert_eq!(open_and_read(&c, b"pw", 8), Ok(Vec::new()));
}
