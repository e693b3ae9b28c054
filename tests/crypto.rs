use zino_auth::crypto::{decrypt, encrypt, pad_key, CryptoError, NONCE_SIZE};
use zino_auth::secret_key::{checksum_from_config, SecretKey};

fn hex(b: &[u8]) -> String {
    b.iter().map(|x| format!("{:02x}", x)).collect()
}

#[test]
fn encrypt_then_decrypt_gives_plaintext() {
    let key = [7u8; 32];
    let plaintext = b"attack at dawn".to_vec();
    let sealed = encrypt(&plaintext, &key).unwrap();
    assert_ne!(sealed, plaintext);
    assert_eq!(sealed.len(), plaintext.len() + 16 + NONCE_SIZE);
    assert_eq!(decrypt(&sealed, &key).unwrap(), plaintext);
}

#[test]
fn encrypt_empty_plaintext_round_trips() {
    let key = [1u8; 32];
    let sealed = encrypt(&[], &key).unwrap();
    assert_eq!(decrypt(&sealed, &key).unwrap(), Vec::<u8>::new());
}

#[test]
fn two_encryptions_differ_and_both_decrypt() {
    let key = [9u8; 32];
    let plaintext = b"same message".to_vec();
    let a = encrypt(&plaintext, &key).unwrap();
    let b = encrypt(&plaintext, &key).unwrap();
    assert_ne!(a, b);
    assert_eq!(decrypt(&a, &key).unwrap(), plaintext);
    assert_eq!(decrypt(&b, &key).unwrap(), plaintext);
}

#[test]
fn decrypt_rejects_data_no_longer_than_nonce() {
    let key = [3u8; 32];
    assert_eq!(decrypt(&[], &key), Err(CryptoError::InvalidLength));
    assert_eq!(decrypt(&[0u8; 5], &key), Err(CryptoError::InvalidLength));
    assert_eq!(decrypt(&[0u8; 12], &key), Err(CryptoError::InvalidLength));
}

#[test]
fn decrypt_detects_tampering_and_wrong_key() {
    let key = [4u8; 32];
    let mut sealed = encrypt(b"payload", &key).unwrap();
    assert_eq!(decrypt(&sealed, &[5u8; 32]), Err(CryptoError::DecryptFailed));
    sealed[0] ^= 1;
    assert_eq!(decrypt(&sealed, &key), Err(CryptoError::DecryptFailed));
}

#[test]
fn short_key_is_zero_padded() {
    let short = b"short".to_vec();
    let mut padded = short.clone();
    padded.resize(32, 0);
    assert_eq!(pad_key(&short), padded);
    let long = [8u8; 40];
    assert_eq!(pad_key(&long), vec![8u8; 32]);
    let sealed = encrypt(b"hello", &short).unwrap();
    assert_eq!(decrypt(&sealed, &padded).unwrap(), b"hello".to_vec());
}

#[test]
fn sha256_known_digest() {
    // A missing configured checksum falls back to the digest of the package identity.
    assert_eq!(
        hex(&checksum_from_config(None, "abc")),
        "ba7816bf8f01cfea414140de5dae2223b00361a396177a9cb410ff61f20015ad"
    );
}

#[test]
fn key_derivation_is_deterministic_and_input_sensitive() {
    let a = SecretKey::derive(&[0x0bu8; 32]);
    let b = SecretKey::derive(&[0x0bu8; 32]);
    let c = SecretKey::derive(&[0x0cu8; 32]);
    assert_eq!(a.as_bytes().len(), 64);
    assert_eq!(a.as_bytes(), b.as_bytes());
    assert_ne!(a.as_bytes(), c.as_bytes());
    assert_ne!(a.as_bytes()[..32], [0x0bu8; 32]);
}
