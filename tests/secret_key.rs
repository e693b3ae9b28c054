use sha2::Digest;
use zino_auth::secret_key::{checksum_from_config, SecretKey, SecretKeyManager, KEY_DERIVATION_LABEL};

#[test]
fn configured_checksum_uses_first_32_bytes() {
    let config = "0123456789abcdef0123456789abcdefEXTRA";
    let c = checksum_from_config(Some(config), "app@1.0.0");
    assert_eq!(c, config.as_bytes()[..32].to_vec());
}

#[test]
fn short_or_missing_checksum_falls_back_to_package_digest() {
    let expected = sha2::Sha256::digest(b"app@1.0.0").to_vec();
    assert_eq!(checksum_from_config(Some("too short"), "app@1.0.0"), expected);
    assert_eq!(checksum_from_config(None, "app@1.0.0"), expected);
}

#[test]
fn secret_key_is_hkdf_of_checksum() {
    let checksum = [42u8; 32];
    let key = SecretKey::derive(&checksum);
    assert_eq!(key.as_bytes().len(), 64);
    let mut okm = [0u8; 64];
    hkdf::Hkdf::<sha2::Sha256>::new(None, &checksum)
        .expand(KEY_DERIVATION_LABEL.as_bytes(), &mut okm)
        .unwrap();
    assert_eq!(key.as_bytes(), &okm[..]);
    let other = SecretKey::derive(&[43u8; 32]);
    assert_ne!(key.as_bytes(), other.as_bytes());
}

#[test]
fn manager_initializes_once() {
    let mut manager = SecretKeyManager::new();
    assert!(!manager.is_initialized());
    manager.init(None, "app@1.0.0");
    assert!(manager.is_initialized());
    let expected = SecretKey::derive(&sha2::Sha256::digest(b"app@1.0.0"));
    assert_eq!(manager.secret_key().as_bytes(), expected.as_bytes());
}
