//! The process secret key: derived once at boot, read-only afterwards.
use crate::crypto::{hkdf_sha256, hkdf_sha256_of, sha256, sha256_of};
use crate::bytes::copy_range;
use vstd::prelude::*;
use vstd::string::StringSliceAdditionalSpecFns;

verus! {

/// Size in bytes of a configured checksum.
pub const CHECKSUM_SIZE: usize = 32;

/// Size in bytes of the secret key.
pub const SECRET_KEY_SIZE: usize = 64;

/// Context label that separates the secret key from other HKDF outputs.
pub const KEY_DERIVATION_LABEL: &'static str = "ZINO:APPLICATION;CHECKSUM:SHA256;HKDF:HMAC-SHA256";

/// The checksum that seeds the key: the first 32 bytes of the configured
/// value when it has that many, else the digest of the package identity.
pub open spec fn checksum_spec(config: Option<Seq<u8>>, package_identity: Seq<u8>) -> Seq<u8> {
    match config {
        Some(c) => if c.len() >= CHECKSUM_SIZE {
            c.subrange(0, CHECKSUM_SIZE as int)
        } else {
            sha256_of(package_identity)
        },
        None => sha256_of(package_identity),
    }
}

/// The secret key derived from `checksum`.
pub open spec fn secret_key_spec(checksum: Seq<u8>) -> Seq<u8> {
    hkdf_sha256_of(KEY_DERIVATION_LABEL.spec_bytes(), checksum)
}

/// The bytes of an optional string.
pub open spec fn opt_bytes(s: Option<&str>) -> Option<Seq<u8>> {
    match s {
        Some(c) => Some(c.spec_bytes()),
        None => None,
    }
}

/// The 64-byte process secret key.
pub struct SecretKey {
    bytes: Vec<u8>,
}

impl View for SecretKey {
    type V = Seq<u8>;

    closed spec fn view(&self) -> Seq<u8> {
        self.bytes@
    }
}

impl SecretKey {
    #[verifier::type_invariant]
    spec fn inv(self) -> bool {
        self.bytes@.len() == SECRET_KEY_SIZE
    }

    /// Derives the key from a 32-byte checksum by HKDF-SHA256 under the fixed label.
    pub fn derive(checksum: &[u8]) -> (r: SecretKey)
        ensures
            r@ == secret_key_spec(checksum@),
    {
        let bytes = hkdf_sha256(KEY_DERIVATION_LABEL.as_bytes(), checksum);
        SecretKey { bytes }
    }

    /// The key's bytes.
    pub fn as_bytes(&self) -> (r: &[u8])
        ensures
            r@ == self@,
            r@.len() == SECRET_KEY_SIZE,
    {
        proof {
            use_type_invariant(self);
        }
        self.bytes.as_slice()
    }
}

/// Picks the checksum that seeds the secret key from the configured value,
/// falling back to the SHA-256 digest of the package identity.
pub fn checksum_from_config(config: Option<&str>, package_identity: &str) -> (r: Vec<u8>)
    ensures
        r@ == checksum_spec(opt_bytes(config), package_identity.spec_bytes()),
        r@.len() == CHECKSUM_SIZE,
{
    if let Some(c) = config {
        let b = c.as_bytes();
        if b.len() >= CHECKSUM_SIZE {
            return copy_range(b, 0, CHECKSUM_SIZE);
        }
    }
    sha256(package_identity.as_bytes())
}

/// Owner of the write-once process secret key.
pub struct SecretKeyManager {
    key: Option<SecretKey>,
}

impl SecretKeyManager {
    /// The key, once `init` has run.
    pub closed spec fn key(&self) -> Option<Seq<u8>> {
        match self.key {
            Some(k) => Some(k@),
            None => None,
        }
    }

    /// A manager that holds no key yet.
    pub fn new() -> (r: SecretKeyManager)
        ensures
            r.key() is None,
    {
        SecretKeyManager { key: None }
    }

    /// Whether `init` has run.
    pub fn is_initialized(&self) -> (r: bool)
        ensures
            r == self.key() is Some,
    {
        self.key.is_some()
    }

    /// Derives and stores the secret key. It may run only once.
    pub fn init(&mut self, config_checksum: Option<&str>, package_identity: &str)
        requires
            old(self).key() is None,
        ensures
            final(self).key() == Some(
                secret_key_spec(
                    checksum_spec(opt_bytes(config_checksum), package_identity.spec_bytes()),
                ),
            ),
    {
        let checksum = checksum_from_config(config_checksum, package_identity);
        self.key = Some(SecretKey::derive(&checksum));
    }

    /// The secret key. It may be read only after `init`.
    pub fn secret_key(&self) -> (r: &SecretKey)
        requires
            self.key() is Some,
        ensures
            Some(r@) == self.key(),
    {
        self.key.as_ref().unwrap()
    }
}

} // verus!
