use base64::Engine;
use zino_auth::secret_key::SecretKey;
use zino_auth::security_token::{encode_payload, verify_payload, ParseSecurityTokenError, SecurityToken};

fn key() -> SecretKey {
    SecretKey::derive(&[11u8; 32])
}

#[test]
fn token_verifies_within_lifetime_and_expires_after() {
    let key = key();
    let t0: u64 = 1_700_000_000;
    let token = SecurityToken::issue("AKIDabc123", 300, t0, &key);
    assert_eq!(token.access_key_id, "AKIDabc123");
    assert_eq!(token.expires_at, t0 + 300);
    assert_eq!(SecurityToken::verify(token.as_str(), &key, t0 + 100), Ok("AKIDabc123".to_string()));
    assert_eq!(SecurityToken::verify(token.as_str(), &key, t0 + 300), Ok("AKIDabc123".to_string()));
    assert_eq!(
        SecurityToken::verify(token.as_str(), &key, t0 + 301),
        Err(ParseSecurityTokenError::Expired)
    );
}

#[test]
fn flipped_bit_fails_decryption() {
    let key = key();
    let t0: u64 = 1_700_000_000;
    let token = SecurityToken::issue("AKIDabc123", 300, t0, &key);
    let engine = base64::engine::general_purpose::URL_SAFE_NO_PAD;
    let sealed = engine.decode(token.as_str()).unwrap();
    for i in 0..sealed.len() {
        let mut tampered = sealed.clone();
        tampered[i] ^= 0x01;
        let text = engine.encode(&tampered);
        assert_eq!(
            SecurityToken::verify(&text, &key, t0 + 100),
            Err(ParseSecurityTokenError::DecryptionFailed)
        );
    }
}

#[test]
fn token_from_another_key_fails_decryption() {
    let t0: u64 = 1_700_000_000;
    let token = SecurityToken::issue("AKIDabc123", 300, t0, &key());
    let other = SecretKey::derive(&[12u8; 32]);
    assert_eq!(
        SecurityToken::verify(token.as_str(), &other, t0),
        Err(ParseSecurityTokenError::DecryptionFailed)
    );
}

#[test]
fn invalid_text_is_an_encoding_error() {
    assert_eq!(
        SecurityToken::verify("not base64!", &key(), 0),
        Err(ParseSecurityTokenError::InvalidEncoding)
    );
}

#[test]
fn payload_layout_and_checks() {
    let p = encode_payload("AK", 0x0102);
    assert_eq!(p, vec![0x02, 0x01, 0, 0, 0, 0, 0, 0, b'A', b'K']);
    assert_eq!(verify_payload(&p, 0x0102), Ok("AK".to_string()));
    assert_eq!(verify_payload(&p, 0x0103), Err(ParseSecurityTokenError::Expired));
    assert_eq!(verify_payload(&p[..7], 0), Err(ParseSecurityTokenError::MalformedPayload));
    let mut bad = p.clone();
    bad.push(0xff);
    assert_eq!(verify_payload(&bad, 0), Err(ParseSecurityTokenError::MalformedPayload));
}
