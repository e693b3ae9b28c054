use zino_auth::claim_entries::{encode_entries_exec, parse_entries_exec, ClaimEntry};
use zino_auth::jwt_claims::{
    default_time_tolerance, default_verification_options, verify_decoded, ClaimsError, JwtClaims,
    VerificationOptions,
};

const SECRET: &[u8] = b"a shared secret for signing claims";
const NOW: u64 = 1_700_000_000;

fn claims() -> JwtClaims {
    let mut c = JwtClaims::new("alice", 3600, NOW);
    assert!(c.add_claim("role", "admin"));
    assert!(c.add_claim("team", "core"));
    c
}

fn same(a: &JwtClaims, b: &JwtClaims) -> bool {
    a.subject == b.subject
        && a.issued_at == b.issued_at
        && a.expires_at == b.expires_at
        && a.data.len() == b.data.len()
        && a.data.iter().zip(b.data.iter()).all(|(x, y)| x.name == y.name && x.value == y.value)
}

#[test]
fn sign_then_verify_returns_same_claims() {
    let c = claims();
    let token = c.sign(SECRET);
    assert_eq!(token.split('.').count(), 3);
    let back = JwtClaims::verify(&token, SECRET, &default_verification_options(), NOW + 10).unwrap();
    assert!(same(&c, &back));
    assert_eq!(back.claim("role"), Some(&b"admin".to_vec()));
}

#[test]
fn altered_signature_is_a_mismatch() {
    let token = claims().sign(SECRET);
    let mut parts: Vec<String> = token.split('.').map(|s| s.to_string()).collect();
    let first = if parts[2].starts_with('A') { 'B' } else { 'A' };
    parts[2].replace_range(0..1, &first.to_string());
    let altered = parts.join(".");
    assert_eq!(
        JwtClaims::verify(&altered, SECRET, &default_verification_options(), NOW).err(),
        Some(ClaimsError::SignatureMismatch)
    );
    assert_eq!(
        JwtClaims::verify(&token, b"another secret", &default_verification_options(), NOW).err(),
        Some(ClaimsError::SignatureMismatch)
    );
}

#[test]
fn expiry_respects_tolerance() {
    let options = VerificationOptions { time_tolerance: 60, ..default_verification_options() };
    let c = JwtClaims::new("bob", 100, NOW);
    let token = c.sign(SECRET);
    assert!(JwtClaims::verify(&token, SECRET, &options, NOW + 110).is_ok());
    assert_eq!(
        JwtClaims::verify(&token, SECRET, &options, NOW + 220).err(),
        Some(ClaimsError::Expired)
    );
}

#[test]
fn future_issue_time_is_not_yet_valid() {
    let c = JwtClaims::new("carol", 1000, NOW + 500);
    let token = c.sign(SECRET);
    assert_eq!(
        JwtClaims::verify(&token, SECRET, &default_verification_options(), NOW).err(),
        Some(ClaimsError::NotYetValid)
    );
    assert!(JwtClaims::verify(&token, SECRET, &default_verification_options(), NOW + 450).is_ok());
}

#[test]
fn missing_required_claim_is_reported() {
    let mut options = default_verification_options();
    options.required_claims.push(b"tenant".to_vec());
    assert_eq!(
        JwtClaims::verify(&claims().sign(SECRET), SECRET, &options, NOW).err(),
        Some(ClaimsError::MissingClaim)
    );
}

#[test]
fn algorithm_outside_allowlist_is_unsupported() {
    let options = VerificationOptions { algorithms: vec![b"HS512".to_vec()], ..default_verification_options() };
    assert_eq!(
        JwtClaims::verify(&claims().sign(SECRET), SECRET, &options, NOW).err(),
        Some(ClaimsError::UnsupportedAlgorithm)
    );
}

#[test]
fn malformed_tokens_are_rejected() {
    let options = default_verification_options();
    assert_eq!(JwtClaims::verify("a.b", SECRET, &options, NOW).err(), Some(ClaimsError::Malformed));
    assert_eq!(JwtClaims::verify("a.b.c.d", SECRET, &options, NOW).err(), Some(ClaimsError::Malformed));
    assert_eq!(JwtClaims::verify("!.!.!", SECRET, &options, NOW).err(), Some(ClaimsError::Malformed));
    assert_eq!(verify_decoded(b"xyz", b"", true, &options, NOW).err(), Some(ClaimsError::Malformed));
}

#[test]
fn reserved_names_are_refused_as_custom_claims() {
    let mut c = JwtClaims::new("dave", 10, NOW);
    assert!(!c.add_claim("sub", "mallory"));
    assert!(!c.add_claim("exp", "0"));
    assert!(c.data.is_empty());
}

#[test]
fn default_policy_values() {
    assert_eq!(default_time_tolerance(), 60);
    let o = default_verification_options();
    assert_eq!(o.algorithms, vec![b"HS256".to_vec()]);
    assert_eq!(o.required_claims, vec![b"exp".to_vec(), b"iat".to_vec(), b"sub".to_vec()]);
}

#[test]
fn claim_entries_round_trip() {
    let es = vec![
        ClaimEntry { name: b"a".to_vec(), value: b"xyz".to_vec() },
        ClaimEntry { name: b"".to_vec(), value: vec![0, 1, 2] },
    ];
    let bytes = encode_entries_exec(&es);
    assert_eq!(bytes.len(), 4 * 8 + 1 + 3 + 3);
    assert_eq!(&bytes[..8], &[1, 0, 0, 0, 0, 0, 0, 0]);
    let back = parse_entries_exec(&bytes).unwrap();
    assert_eq!(back.len(), 2);
    assert_eq!(back[0].value, b"xyz".to_vec());
    assert_eq!(back[1].value, vec![0, 1, 2]);
    assert!(parse_entries_exec(&bytes[..bytes.len() - 1]).is_none());
}
