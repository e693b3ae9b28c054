//! Credential identity pairs: a public access key id and its secret.
use crate::bytes::copy_range;
use crate::crypto::random_bytes;
use crate::encoding::{base64url_encode, base64url_of};
use vstd::prelude::*;

verus! {

/// Number of random bytes behind a generated access key id.
pub const ACCESS_KEY_ID_ENTROPY: usize = 15;

/// Length in bytes of a generated secret access key; also the least length accepted.
pub const SECRET_ACCESS_KEY_SIZE: usize = 32;

/// A public, loggable access key identifier.
#[derive(Debug, PartialEq, Eq)]
pub struct AccessKeyId {
    id: String,
}

impl View for AccessKeyId {
    type V = Seq<char>;

    closed spec fn view(&self) -> Seq<char> {
        self.id@
    }
}

impl AccessKeyId {
    /// An id with the given text.
    pub fn new(id: &str) -> (r: AccessKeyId)
        ensures
            r@ == id@,
    {
        AccessKeyId { id: id.to_owned() }
    }

    /// Draws a fresh id: the base64url text of 15 random bytes.
    pub fn generate() -> (r: AccessKeyId)
        ensures
            exists|b: Seq<u8>| b.len() == ACCESS_KEY_ID_ENTROPY && r@ == base64url_of(b),
    {
        let b = random_bytes(ACCESS_KEY_ID_ENTROPY);
        AccessKeyId { id: base64url_encode(&b) }
    }

    /// The id's text.
    pub fn as_str(&self) -> (r: &str)
        ensures
            r@ == self@,
    {
        self.id.as_str()
    }
}

/// A secret access key: at least 32 bytes, never rendered in clear text.
pub struct SecretAccessKey {
    bytes: Vec<u8>,
}

impl View for SecretAccessKey {
    type V = Seq<u8>;

    closed spec fn view(&self) -> Seq<u8> {
        self.bytes@
    }
}

impl SecretAccessKey {
    #[verifier::type_invariant]
    spec fn inv(self) -> bool {
        self.bytes@.len() >= SECRET_ACCESS_KEY_SIZE
    }

    /// A secret with the given bytes; `None` when there are fewer than 32.
    pub fn new(bytes: &[u8]) -> (r: Option<SecretAccessKey>)
        ensures
            r is Some <==> bytes@.len() >= SECRET_ACCESS_KEY_SIZE,
            r matches Some(k) ==> k@ == bytes@,
    {
        if bytes.len() < SECRET_ACCESS_KEY_SIZE {
            return None;
        }
        Some(SecretAccessKey { bytes: copy_range(bytes, 0, bytes.len()) })
    }

    /// Draws 32 fresh random bytes.
    pub fn generate() -> (r: SecretAccessKey)
        ensures
            r@.len() == SECRET_ACCESS_KEY_SIZE,
    {
        SecretAccessKey { bytes: random_bytes(SECRET_ACCESS_KEY_SIZE) }
    }

    /// The secret's bytes.
    pub fn as_bytes(&self) -> (r: &[u8])
        ensures
            r@ == self@,
            r@.len() >= SECRET_ACCESS_KEY_SIZE,
    {
        proof {
            use_type_invariant(self);
        }
        self.bytes.as_slice()
    }

    /// The textual form, which never shows the secret.
    pub fn redacted(&self) -> (r: String)
        ensures
            r@ == "SecretAccessKey(***)"@,
    {
        String::from_str("SecretAccessKey(***)")
    }
}

/// Draws a fresh credential pair.
pub fn generate() -> (r: (AccessKeyId, SecretAccessKey))
    ensures
        exists|b: Seq<u8>| b.len() == ACCESS_KEY_ID_ENTROPY && r.0@ == base64url_of(b),
        r.1@.len() == SECRET_ACCESS_KEY_SIZE,
{
    (AccessKeyId::generate(), SecretAccessKey::generate())
}

} // verus!
