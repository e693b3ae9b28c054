//! Stateless primitives: hashing, key derivation, message authentication,
//! constant-time comparison, randomness and authenticated encryption.
use crate::bytes::{append_bytes, copy_range, recovers};
use aes_gcm_siv::aead::generic_array::GenericArray;
use aes_gcm_siv::aead::Aead;
use aes_gcm_siv::{Aes256GcmSiv, KeyInit};
use hmac::Mac;
use rand::Rng;
use sha2::Digest;
use subtle::ConstantTimeEq;
use vstd::prelude::*;

verus! {

/// Size in bytes of an encryption key.
pub const KEY_SIZE: usize = 32;

/// Size in bytes of the nonce appended to every ciphertext.
pub const NONCE_SIZE: usize = 12;

/// Size in bytes of the authentication tag that sealing adds.
pub const TAG_SIZE: usize = 16;

/// Longest plaintext that the cipher accepts.
pub const MAX_PLAINTEXT_LEN: u64 = 0x10_0000_0000;

/// Errors of the authenticated encryption primitives.
#[derive(Debug, Clone, Copy, PartialEq, Eq, Structural)]
pub enum CryptoError {
    /// The data is too short to hold a nonce and a sealed message.
    InvalidLength,
    /// The cipher refused to seal the plaintext.
    EncryptFailed,
    /// Authentication failed: the data was corrupted or tampered with.
    DecryptFailed,
}

/// SHA-256 digest of `data`.
pub uninterp spec fn sha256_of(data: Seq<u8>) -> Seq<u8>;

/// HKDF-SHA256 output key material (64 bytes, no salt) for `info` and `ikm`.
pub uninterp spec fn hkdf_sha256_of(info: Seq<u8>, ikm: Seq<u8>) -> Seq<u8>;

/// HMAC-SHA256 tag of `msg` under `key`.
pub uninterp spec fn hmac_sha256_of(key: Seq<u8>, msg: Seq<u8>) -> Seq<u8>;

/// AES-256-GCM-SIV ciphertext (tag appended) of `plaintext` under `key` and `nonce`.
pub uninterp spec fn aes_gcm_siv_seal_of(key: Seq<u8>, nonce: Seq<u8>, plaintext: Seq<u8>) -> Seq<u8>;

/// The key actually used by the cipher: `key` followed by zero bytes, cut to `KEY_SIZE`.
pub open spec fn padded_key(key: Seq<u8>) -> Seq<u8> {
    (key + Seq::new(KEY_SIZE as nat, |i: int| 0u8)).subrange(0, KEY_SIZE as int)
}

/// `data` is the sealing of `plaintext` under `key` with `nonce`, nonce appended.
pub open spec fn sealed_with(data: Seq<u8>, key: Seq<u8>, plaintext: Seq<u8>, nonce: Seq<u8>) -> bool {
    &&& nonce.len() == NONCE_SIZE
    &&& plaintext.len() <= MAX_PLAINTEXT_LEN
    &&& data == aes_gcm_siv_seal_of(padded_key(key), nonce, plaintext) + nonce
    &&& data.len() == plaintext.len() + TAG_SIZE + NONCE_SIZE
}

/// `data` is some output of `encrypt(plaintext, key)`.
pub open spec fn is_encryption_of(data: Seq<u8>, key: Seq<u8>, plaintext: Seq<u8>) -> bool {
    exists|nonce: Seq<u8>| sealed_with(data, key, plaintext, nonce)
}

/// Relies on `sha2::Sha256::digest`: the 32-byte digest of the input.
#[verifier::external_body]
pub(crate) fn sha256(data: &[u8]) -> (r: Vec<u8>)
    ensures
        r@ == sha256_of(data@),
        r@.len() == 32,
{
    sha2::Sha256::digest(data).to_vec()
}

/// Relies on `hkdf::Hkdf::<Sha256>::new` (no salt) and `expand` into 64 bytes,
/// which is within the output bound that `expand` accepts.
#[verifier::external_body]
pub(crate) fn hkdf_sha256(info: &[u8], input_key_material: &[u8]) -> (r: Vec<u8>)
    ensures
        r@ == hkdf_sha256_of(info@, input_key_material@),
        r@.len() == 64,
{
    let hkdf = hkdf::Hkdf::<sha2::Sha256>::new(None, input_key_material);
    let mut okm = [0u8; 64];
    hkdf.expand(info, &mut okm).expect("64 bytes is a valid output length");
    okm.to_vec()
}

/// Relies on `hmac::Hmac::<Sha256>`: `new_from_slice` takes a key of any length,
/// and `finalize` gives the 32-byte tag.
#[verifier::external_body]
pub(crate) fn hmac_sha256(key: &[u8], msg: &[u8]) -> (r: Vec<u8>)
    ensures
        r@ == hmac_sha256_of(key@, msg@),
        r@.len() == 32,
{
    let mut mac = <hmac::Hmac<sha2::Sha256> as Mac>::new_from_slice(key).expect("any key length");
    mac.update(msg);
    mac.finalize().into_bytes().to_vec()
}

/// Relies on `subtle::ConstantTimeEq` for byte slices: true exactly when the
/// slices have the same length and contents, compared in constant time.
#[verifier::external_body]
pub(crate) fn constant_time_eq(a: &[u8], b: &[u8]) -> (r: bool)
    ensures
        r == (a@ == b@),
{
    a.ct_eq(b).into()
}

/// Relies on `rand::thread_rng` and `Rng::fill`: `len` bytes from a
/// cryptographically secure generator.
#[verifier::external_body]
pub(crate) fn random_bytes(len: usize) -> (r: Vec<u8>)
    ensures
        r@.len() == len,
{
    let mut bytes = vec![0u8; len];
    rand::thread_rng().fill(&mut bytes[..]);
    bytes
}

/// Relies on `Aes256GcmSiv::encrypt`: it fails only on a plaintext longer
/// than `P_MAX`, and otherwise returns the ciphertext with a 16-byte tag.
#[verifier::external_body]
fn aes_gcm_siv_seal(key: &[u8], nonce: &[u8], plaintext: &[u8]) -> (r: Option<Vec<u8>>)
    requires
        key@.len() == KEY_SIZE,
        nonce@.len() == NONCE_SIZE,
    ensures
        r is Some <==> plaintext@.len() <= MAX_PLAINTEXT_LEN,
        r matches Some(c) ==> c@ == aes_gcm_siv_seal_of(key@, nonce@, plaintext@),
        r matches Some(c) ==> c@.len() == plaintext@.len() + TAG_SIZE,
{
    let cipher = Aes256GcmSiv::new(GenericArray::from_slice(key));
    cipher.encrypt(GenericArray::from_slice(nonce), plaintext).ok()
}

/// Relies on `Aes256GcmSiv::decrypt`: it opens what `encrypt` sealed under
/// the same key and nonce, and fails when authentication fails.
#[verifier::external_body]
fn aes_gcm_siv_open(key: &[u8], nonce: &[u8], ciphertext: &[u8]) -> (r: Option<Vec<u8>>)
    requires
        key@.len() == KEY_SIZE,
        nonce@.len() == NONCE_SIZE,
    ensures
        forall|p: Seq<u8>|
            p.len() <= MAX_PLAINTEXT_LEN ==> recovers(r, ciphertext@, #[trigger] aes_gcm_siv_seal_of(key@, nonce@, p), p),
{
    let cipher = Aes256GcmSiv::new(GenericArray::from_slice(key));
    cipher.decrypt(GenericArray::from_slice(nonce), ciphertext).ok()
}

/// Key derivation is deterministic: two derivations from the same info and
/// input key material give the same key.
pub proof fn lemma_hkdf_deterministic(info: Seq<u8>, ikm: Seq<u8>, a: Seq<u8>, b: Seq<u8>)
    requires
        a == hkdf_sha256_of(info, ikm),
        b == hkdf_sha256_of(info, ikm),
    ensures
        a == b,
{
}

/// The cipher key for `key`: zero-padded or cut to `KEY_SIZE` bytes.
pub fn pad_key(key: &[u8]) -> (r: Vec<u8>)
    ensures
        r@ == padded_key(key@),
{
    let mut r: Vec<u8> = Vec::with_capacity(KEY_SIZE);
    let mut i: usize = 0;
    while i < KEY_SIZE
        invariant
            i <= KEY_SIZE,
            r@ =~= padded_key(key@).subrange(0, i as int),
        decreases KEY_SIZE - i,
    {
        if i < key.len() {
            r.push(key[i]);
        } else {
            r.push(0u8);
        }
        i = i + 1;
        proof {
            assert(r@ =~= padded_key(key@).subrange(0, i as int));
        }
    }
    r
}

/// Encrypts `plaintext` under `key` with a fresh random nonce, which is
/// appended to the ciphertext.
pub fn encrypt(plaintext: &[u8], key: &[u8]) -> (r: Result<Vec<u8>, CryptoError>)
    ensures
        plaintext@.len() <= MAX_PLAINTEXT_LEN <==> r is Ok,
        r matches Ok(c) ==> is_encryption_of(c@, key@, plaintext@),
        r matches Err(e) ==> e == CryptoError::EncryptFailed,
{
    let cipher_key = pad_key(key);
    let nonce = random_bytes(NONCE_SIZE);
    match aes_gcm_siv_seal(&cipher_key, &nonce, plaintext) {
        Some(sealed) => {
            let mut data = sealed;
            append_bytes(&mut data, &nonce);
            assert(sealed_with(data@, key@, plaintext@, nonce@));
            Ok(data)
        },
        None => Err(CryptoError::EncryptFailed),
    }
}

/// Splits the trailing nonce from `data` and opens the rest under `key`.
pub fn decrypt(data: &[u8], key: &[u8]) -> (r: Result<Vec<u8>, CryptoError>)
    ensures
        data@.len() <= NONCE_SIZE <==> r == Err::<Vec<u8>, CryptoError>(CryptoError::InvalidLength),
        r matches Err(e) ==> e == CryptoError::InvalidLength || e == CryptoError::DecryptFailed,
        forall|p: Seq<u8>|
            #[trigger] is_encryption_of(data@, key@, p) ==> (r matches Ok(v) && v@ == p),
{
    if data.len() <= NONCE_SIZE {
        return Err(CryptoError::InvalidLength);
    }
    let cipher_key = pad_key(key);
    let split = data.len() - NONCE_SIZE;
    let ciphertext = copy_range(data, 0, split);
    let nonce = copy_range(data, split, data.len());
    let r = match aes_gcm_siv_open(&cipher_key, &nonce, &ciphertext) {
        Some(plaintext) => Ok(plaintext),
        None => Err(CryptoError::DecryptFailed),
    };
    proof {
        assert forall|p: Seq<u8>| #[trigger] is_encryption_of(data@, key@, p) implies (r matches Ok(
            v,
        ) && v@ == p) by {
            let n = choose|n: Seq<u8>| sealed_with(data@, key@, p, n);
            let s = aes_gcm_siv_seal_of(padded_key(key@), n, p);
            assert(s.len() == data@.len() - NONCE_SIZE);
            assert(ciphertext@ =~= s);
            assert(nonce@ =~= n);
        }
    }
    r
}

} // verus!
