//! Credential issuance, signing and verification: symmetric primitives,
//! the process secret key, bearer security tokens, signed claim sets and
//! access-key request signing.

pub mod access_key;
pub mod bytes;
pub mod claim_entries;
pub mod credentials;
pub mod crypto;
pub mod encoding;
pub mod jwt_claims;
pub mod secret_key;
pub mod security_token;
pub mod session;
pub mod text;
