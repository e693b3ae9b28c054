use std::collections::HashMap;
use zino_auth::access_key::{generate, AccessKeyId, SecretAccessKey};
use base64::Engine;
use sha2::Digest;
use zino_auth::credentials::{
    canonical_request_exec, sign_request, Authentication, AuthorizationProvider, ClientCredentials,
    CredentialError,
};
use zino_auth::session::{SessionId, UserSession};

const NOW: u64 = 1_700_000_000;

struct MemoryProvider {
    keys: HashMap<String, Vec<u8>>,
}

impl AuthorizationProvider for MemoryProvider {
    fn fetch_secret_access_key(&self, access_key_id: &AccessKeyId) -> Option<SecretAccessKey> {
        self.keys.get(access_key_id.as_str()).and_then(|k| SecretAccessKey::new(k))
    }
}

fn secret() -> Vec<u8> {
    vec![0x5a; 32]
}

fn provider() -> MemoryProvider {
    let mut keys = HashMap::new();
    keys.insert("AKIDabc123".to_string(), secret());
    MemoryProvider { keys }
}

fn request_headers() -> Vec<(String, String)> {
    vec![
        ("host".to_string(), "example.com".to_string()),
        ("x-date".to_string(), NOW.to_string()),
        ("accept".to_string(), "*/*".to_string()),
    ]
}

fn sign(secret: &[u8], body: &[u8]) -> String {
    let names = vec!["host".to_string(), "x-date".to_string()];
    sign_request("GET", "/v1/items", &names, &request_headers(), body, secret).unwrap()
}

fn header(id: &str, signature: &str) -> String {
    format!("ZINO-HMAC-SHA256 Credential={id}, SignedHeaders=host;x-date, Signature={signature}")
}

#[test]
fn parse_reads_every_part() {
    let c = ClientCredentials::parse(&header("AKIDabc123", "c2ln"), "1700000000").unwrap();
    assert_eq!(c.scheme, "ZINO-HMAC-SHA256");
    assert_eq!(c.access_key_id, "AKIDabc123");
    assert_eq!(c.signed_headers, vec!["host".to_string(), "x-date".to_string()]);
    assert_eq!(c.signature, "c2ln");
    assert_eq!(c.timestamp, 1_700_000_000);
}

#[test]
fn parse_rejects_malformed_input() {
    let bad = [
        "",
        "ZINO-HMAC-SHA256",
        "ZINO-HMAC-SHA256 Credentials=AK, SignedHeaders=host, Signature=x",
        "ZINO-HMAC-SHA256 Credential=AK SignedHeaders=host, Signature=x",
        "ZINO-HMAC-SHA256 Credential=AK, SignedHeaders=host",
        "ZINO-HMAC-SHA256 Credential=AK, SignedHeaders=host; Signature=x",
    ];
    for h in bad {
        assert_eq!(ClientCredentials::parse(h, "1").err(), Some(CredentialError::MalformedHeader));
    }
    let good = header("AK", "x");
    assert_eq!(ClientCredentials::parse(&good, "").err(), Some(CredentialError::MalformedHeader));
    assert_eq!(ClientCredentials::parse(&good, "12a").err(), Some(CredentialError::MalformedHeader));
    assert_eq!(
        ClientCredentials::parse(&good, "18446744073709551616").err(),
        Some(CredentialError::MalformedHeader)
    );
    assert!(ClientCredentials::parse(&good, "18446744073709551615").is_ok());
}

#[test]
fn canonical_request_layout() {
    let names = vec!["host".to_string()];
    let text = canonical_request_exec("GET", "/a", &names, &request_headers(), b"").unwrap();
    let digest = base64::engine::general_purpose::URL_SAFE_NO_PAD.encode(sha2::Sha256::digest(b""));
    assert_eq!(text, format!("GET\n/a\nhost:example.com\n{digest}"));
    let missing = vec!["cookie".to_string()];
    assert!(canonical_request_exec("GET", "/a", &missing, &request_headers(), b"").is_none());
}

#[test]
fn canonical_request_sorts_signed_headers() {
    let unsorted = vec!["x-date".to_string(), "accept".to_string(), "host".to_string()];
    let text = canonical_request_exec("PUT", "/b", &unsorted, &request_headers(), b"x").unwrap();
    let digest = base64::engine::general_purpose::URL_SAFE_NO_PAD.encode(sha2::Sha256::digest(b"x"));
    assert_eq!(
        text,
        format!("PUT\n/b\naccept:*/*\nhost:example.com\nx-date:{NOW}\n{digest}")
    );
    let sorted = vec!["accept".to_string(), "host".to_string(), "x-date".to_string()];
    assert_eq!(canonical_request_exec("PUT", "/b", &sorted, &request_headers(), b"x").unwrap(), text);
}

#[test]
fn request_signature_is_hmac_of_canonical_request() {
    let names = vec!["host".to_string()];
    let sig = sign_request("GET", "/a", &names, &request_headers(), b"", b"Jefe").unwrap();
    let canonical = canonical_request_exec("GET", "/a", &names, &request_headers(), b"").unwrap();
    let mut mac = <hmac::Hmac<sha2::Sha256> as hmac::Mac>::new_from_slice(b"Jefe").unwrap();
    hmac::Mac::update(&mut mac, canonical.as_bytes());
    let expected = base64::engine::general_purpose::URL_SAFE_NO_PAD.encode(hmac::Mac::finalize(mac).into_bytes());
    assert_eq!(sig, expected);
    let missing = vec!["cookie".to_string()];
    assert!(sign_request("GET", "/a", &missing, &request_headers(), b"", b"Jefe").is_none());
}

#[test]
fn correctly_signed_request_verifies() {
    let body = b"{}";
    let c = ClientCredentials::parse(&header("AKIDabc123", &sign(&secret(), body)), &NOW.to_string()).unwrap();
    let r = Authentication::verify("GET", "/v1/items", &request_headers(), body, &c, &provider(), NOW + 30);
    assert_eq!(r.unwrap().as_str(), "AKIDabc123");
}

#[test]
fn wrong_secret_is_a_signature_mismatch() {
    let body = b"{}";
    let c = ClientCredentials::parse(&header("AKIDabc123", &sign(&[0x11; 32], body)), &NOW.to_string()).unwrap();
    let r = Authentication::verify("GET", "/v1/items", &request_headers(), body, &c, &provider(), NOW);
    assert_eq!(r.err(), Some(CredentialError::SignatureMismatch));
    let r = Authentication::verify("GET", "/v1/items", &request_headers(), b"changed", &c, &provider(), NOW);
    assert_eq!(r.err(), Some(CredentialError::SignatureMismatch));
}

#[test]
fn unknown_access_key_is_reported() {
    let c = ClientCredentials::parse(&header("AKIDother", &sign(&secret(), b"")), &NOW.to_string()).unwrap();
    let r = Authentication::verify("GET", "/v1/items", &request_headers(), b"", &c, &provider(), NOW);
    assert_eq!(r.err(), Some(CredentialError::UnknownAccessKey));
}

#[test]
fn timestamp_outside_replay_window_is_expired() {
    let c = ClientCredentials::parse(&header("AKIDabc123", &sign(&secret(), b"")), &NOW.to_string()).unwrap();
    let p = provider();
    let h = request_headers();
    assert!(Authentication::verify("GET", "/v1/items", &h, b"", &c, &p, NOW + 900).is_ok());
    assert!(Authentication::verify("GET", "/v1/items", &h, b"", &c, &p, NOW - 900).is_ok());
    assert_eq!(
        Authentication::verify("GET", "/v1/items", &h, b"", &c, &p, NOW + 901).err(),
        Some(CredentialError::Expired)
    );
    assert_eq!(
        Authentication::verify("GET", "/v1/items", &h, b"", &c, &p, NOW - 901).err(),
        Some(CredentialError::Expired)
    );
}

#[test]
fn generated_credentials() {
    let (id, secret) = generate();
    assert_eq!(id.as_str().len(), 20);
    assert_eq!(secret.as_bytes().len(), 32);
    assert_eq!(secret.redacted(), "SecretAccessKey(***)");
    assert!(SecretAccessKey::new(&[0u8; 31]).is_none());
    assert!(SecretAccessKey::new(&[0u8; 32]).is_some());
    let (other, _) = generate();
    assert_ne!(id, other);
}

#[test]
fn sessions_are_values() {
    let a = SessionId::generate();
    let b = SessionId::generate();
    assert_ne!(a, b);
    assert_eq!(a.as_str().len(), 22);
    let s = UserSession::new(SessionId::new("s-1"), "user-7", vec!["admin".to_string()], NOW);
    assert_eq!(s.session_id().as_str(), "s-1");
    assert_eq!(s.user_id(), "user-7");
    assert_eq!(s.roles(), &vec!["admin".to_string()]);
    assert_eq!(s.issued_at(), NOW);
}
