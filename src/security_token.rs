//! Self-verifying, time-boxed bearer tokens sealed under the secret key.
use crate::bytes::{append_bytes, copy_range};
use crate::crypto::{decrypt, encrypt, is_encryption_of, MAX_PLAINTEXT_LEN};
use crate::encoding::{base64url_decode, base64url_encode, base64url_of, string_from_utf8};
use crate::secret_key::SecretKey;
use vstd::bytes::{
    lemma_auto_spec_u64_to_from_le_bytes, spec_u64_from_le_bytes, spec_u64_to_le_bytes,
    u64_from_le_bytes, u64_to_le_bytes,
};
use vstd::prelude::*;
use vstd::string::StringSliceAdditionalSpecFns;
use vstd::utf8::{decode_utf8, encode_utf8, encode_utf8_decode_utf8, encode_utf8_valid_utf8, valid_utf8};

verus! {

/// Size in bytes of the expiry field that starts a token payload.
pub const EXPIRY_SIZE: usize = 8;

/// Why a token was rejected.
#[derive(Debug, Clone, Copy, PartialEq, Eq, Structural)]
pub enum ParseSecurityTokenError {
    /// The token is not base64url text.
    InvalidEncoding,
    /// The sealed bytes did not open under the secret key.
    DecryptionFailed,
    /// The opened payload is not an expiry followed by a UTF-8 identifier.
    MalformedPayload,
    /// The token's lifetime has passed.
    Expired,
}

/// The payload sealed into a token: the expiry (8 bytes, little-endian)
/// followed by the UTF-8 bytes of the access key id.
pub open spec fn payload_spec(access_key_id: Seq<char>, expires_at: u64) -> Seq<u8> {
    spec_u64_to_le_bytes(expires_at) + encode_utf8(access_key_id)
}

/// The access key id and expiry that a payload holds, if it is well formed.
pub open spec fn parse_payload_spec(payload: Seq<u8>) -> Option<(Seq<char>, u64)> {
    if payload.len() >= EXPIRY_SIZE && valid_utf8(payload.subrange(EXPIRY_SIZE as int, payload.len() as int)) {
        Some(
            (
                decode_utf8(payload.subrange(EXPIRY_SIZE as int, payload.len() as int)),
                spec_u64_from_le_bytes(payload.subrange(0, EXPIRY_SIZE as int)),
            ),
        )
    } else {
        None
    }
}

/// What verification concludes from an opened payload at time `now`.
pub open spec fn verify_payload_spec(payload: Seq<u8>, now: u64) -> Result<Seq<char>, ParseSecurityTokenError> {
    match parse_payload_spec(payload) {
        None => Err(ParseSecurityTokenError::MalformedPayload),
        Some((id, expires_at)) => if now <= expires_at {
            Ok(id)
        } else {
            Err(ParseSecurityTokenError::Expired)
        },
    }
}

/// The executable result `r` is the spec result `s`.
pub open spec fn same_outcome(
    r: Result<String, ParseSecurityTokenError>,
    s: Result<Seq<char>, ParseSecurityTokenError>,
) -> bool {
    match r {
        Ok(id) => s == Ok::<Seq<char>, ParseSecurityTokenError>(id@),
        Err(e) => s == Err::<Seq<char>, ParseSecurityTokenError>(e),
    }
}

/// `token` is some token that `issue` makes for `access_key_id` and `expires_at` under `key`.
pub open spec fn is_token_for(token: Seq<char>, key: Seq<u8>, access_key_id: Seq<char>, expires_at: u64) -> bool {
    exists|sealed: Seq<u8>|
        token == base64url_of(sealed) && #[trigger] is_encryption_of(
            sealed,
            key,
            payload_spec(access_key_id, expires_at),
        )
}

/// An issued bearer token.
pub struct SecurityToken {
    /// The access key id the token stands for.
    pub access_key_id: String,
    /// Seconds since the Unix epoch after which the token is expired.
    pub expires_at: u64,
    /// The opaque wire form.
    pub token: String,
}

/// Builds the payload for `access_key_id` and `expires_at`.
pub fn encode_payload(access_key_id: &str, expires_at: u64) -> (r: Vec<u8>)
    ensures
        r@ == payload_spec(access_key_id@, expires_at),
{
    let mut r = u64_to_le_bytes(expires_at);
    append_bytes(&mut r, access_key_id.as_bytes());
    r
}

/// Checks an opened payload at time `now`: it must hold an expiry and a
/// UTF-8 access key id, and `now` must not be past the expiry.
pub fn verify_payload(payload: &[u8], now: u64) -> (r: Result<String, ParseSecurityTokenError>)
    ensures
        same_outcome(r, verify_payload_spec(payload@, now)),
{
    if payload.len() < EXPIRY_SIZE {
        return Err(ParseSecurityTokenError::MalformedPayload);
    }
    let expiry = copy_range(payload, 0, EXPIRY_SIZE);
    let expires_at = u64_from_le_bytes(&expiry);
    let id_bytes = copy_range(payload, EXPIRY_SIZE, payload.len());
    match string_from_utf8(id_bytes) {
        None => Err(ParseSecurityTokenError::MalformedPayload),
        Some(id) => {
            if now <= expires_at {
                Ok(id)
            } else {
                Err(ParseSecurityTokenError::Expired)
            }
        },
    }
}

impl SecurityToken {
    /// Issues a token for `access_key_id` that expires `ttl` seconds after `now`.
    pub fn issue(access_key_id: &str, ttl: u64, now: u64, key: &SecretKey) -> (r: SecurityToken)
        requires
            now + ttl <= u64::MAX,
            access_key_id.spec_bytes().len() + EXPIRY_SIZE <= MAX_PLAINTEXT_LEN,
        ensures
            r.access_key_id@ == access_key_id@,
            r.expires_at == now + ttl,
            is_token_for(r.token@, key@, access_key_id@, r.expires_at),
    {
        let expires_at = now + ttl;
        let payload = encode_payload(access_key_id, expires_at);
        proof {
            lemma_auto_spec_u64_to_from_le_bytes();
        }
        let sealed = match encrypt(&payload, key.as_bytes()) {
            Ok(c) => c,
            Err(_) => {
                // The payload is within the cipher's limit, so sealing succeeds.
                proof {
                    assert(false);
                }
                Vec::new()
            },
        };
        let token = base64url_encode(&sealed);
        SecurityToken { access_key_id: access_key_id.to_owned(), expires_at, token }
    }

    /// The wire form of the token.
    pub fn as_str(&self) -> (r: &str)
        ensures
            r@ == self.token@,
    {
        self.token.as_str()
    }

    /// Verifies a token's wire form under `key` at time `now` and returns the
    /// access key id it was issued for.
    pub fn verify(token: &str, key: &SecretKey, now: u64) -> (r: Result<String, ParseSecurityTokenError>)
        ensures
            forall|sealed: Seq<u8>, payload: Seq<u8>|
                token@ == base64url_of(sealed) && #[trigger] is_encryption_of(sealed, key@, payload)
                    ==> same_outcome(r, verify_payload_spec(payload, now)),
            r == Err::<String, ParseSecurityTokenError>(ParseSecurityTokenError::InvalidEncoding)
                ==> forall|b: Seq<u8>| token@ != #[trigger] base64url_of(b),
    {
        let sealed = match base64url_decode(token) {
            Some(b) => b,
            None => return Err(ParseSecurityTokenError::InvalidEncoding),
        };
        let payload = match decrypt(&sealed, key.as_bytes()) {
            Ok(p) => p,
            Err(_) => return Err(ParseSecurityTokenError::DecryptionFailed),
        };
        verify_payload(&payload, now)
    }
}

/// A payload built for an access key id and an expiry parses back to both;
/// verified at a time up to the expiry it yields the id, and later it is expired.
pub proof fn lemma_token_payload_round_trip(access_key_id: Seq<char>, expires_at: u64, now: u64)
    ensures
        parse_payload_spec(payload_spec(access_key_id, expires_at)) == Some((access_key_id, expires_at)),
        verify_payload_spec(payload_spec(access_key_id, expires_at), now) == if now <= expires_at {
            Ok::<Seq<char>, ParseSecurityTokenError>(access_key_id)
        } else {
            Err(ParseSecurityTokenError::Expired)
        },
{
    lemma_auto_spec_u64_to_from_le_bytes();
    encode_utf8_valid_utf8(access_key_id);
    encode_utf8_decode_utf8(access_key_id);
    let p = payload_spec(access_key_id, expires_at);
    let le = spec_u64_to_le_bytes(expires_at);
    assert(p.subrange(0, EXPIRY_SIZE as int) =~= le);
    assert(p.subrange(EXPIRY_SIZE as int, p.len() as int) =~= encode_utf8(access_key_id));
}

/// A token issued for an access key id with a given expiry verifies, under the
/// same key, to that id at any time up to the expiry, and as expired afterwards.
pub proof fn lemma_token_round_trip(
    token: Seq<char>,
    key: Seq<u8>,
    access_key_id: Seq<char>,
    expires_at: u64,
    now: u64,
)
    requires
        is_token_for(token, key, access_key_id, expires_at),
    ensures
        exists|sealed: Seq<u8>, payload: Seq<u8>|
            token == base64url_of(sealed) && #[trigger] is_encryption_of(sealed, key, payload)
                && verify_payload_spec(payload, now) == if now <= expires_at {
                Ok::<Seq<char>, ParseSecurityTokenError>(access_key_id)
            } else {
                Err(ParseSecurityTokenError::Expired)
            },
{
    lemma_token_payload_round_trip(access_key_id, expires_at, now);
}

} // verus!
