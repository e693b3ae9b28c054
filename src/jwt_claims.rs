//! Signed claim sets: subject, issue and expiry times and custom claims,
//! with a verification policy (algorithm allowlist, required claims and
//! clock-skew tolerance).
use crate::bytes::copy_range;
use crate::claim_entries::{
    encode_entries, encode_entries_exec, entries_view, fields_fit, lemma_entries_round_trip,
    parse_entries, parse_entries_exec, ClaimEntry,
};
use crate::crypto::{constant_time_eq, hmac_sha256, hmac_sha256_of};
use crate::encoding::{base64url_decode, base64url_encode, base64url_of, is_base64url_char, string_from_utf8};
use vstd::bytes::{
    lemma_auto_spec_u64_to_from_le_bytes, spec_u64_from_le_bytes, spec_u64_to_le_bytes,
    u64_from_le_bytes, u64_to_le_bytes,
};
use vstd::prelude::*;
use vstd::string::StringSliceAdditionalSpecFns;
use vstd::utf8::{decode_utf8, encode_utf8, encode_utf8_decode_utf8, encode_utf8_valid_utf8, valid_utf8};

verus! {

/// Default clock-skew allowance, in seconds.
pub const DEFAULT_TIME_TOLERANCE: u64 = 60;

/// Why a signed claim set was rejected.
#[derive(Debug, Clone, Copy, PartialEq, Eq, Structural)]
pub enum ClaimsError {
    /// The token or one of its parts does not have the expected structure.
    Malformed,
    /// The header names an algorithm that the policy does not allow.
    UnsupportedAlgorithm,
    /// The MAC does not match the one recomputed with the secret.
    SignatureMismatch,
    /// A claim that the policy requires is absent.
    MissingClaim,
    /// The expiry, plus the tolerance, lies before the current time.
    Expired,
    /// The issue time lies after the current time plus the tolerance.
    NotYetValid,
}

/// The name `sub`.
pub open spec fn sub_name() -> Seq<u8> {
    seq![0x73u8, 0x75u8, 0x62u8]
}

/// The name `iat`.
pub open spec fn iat_name() -> Seq<u8> {
    seq![0x69u8, 0x61u8, 0x74u8]
}

/// The name `exp`.
pub open spec fn exp_name() -> Seq<u8> {
    seq![0x65u8, 0x78u8, 0x70u8]
}

/// The name `alg`.
pub open spec fn alg_name() -> Seq<u8> {
    seq![0x61u8, 0x6cu8, 0x67u8]
}

/// The name `typ`.
pub open spec fn typ_name() -> Seq<u8> {
    seq![0x74u8, 0x79u8, 0x70u8]
}

/// The algorithm `HS256`, the one MAC this library computes.
pub open spec fn hs256() -> Seq<u8> {
    seq![0x48u8, 0x53u8, 0x32u8, 0x35u8, 0x36u8]
}

/// The type `JWT`.
pub open spec fn jwt_type() -> Seq<u8> {
    seq![0x4au8, 0x57u8, 0x54u8]
}

fn sub_name_exec() -> (r: Vec<u8>)
    ensures
        r@ == sub_name(),
{
    let r = vec![0x73u8, 0x75u8, 0x62u8];
    assert(r@ =~= sub_name());
    r
}

fn iat_name_exec() -> (r: Vec<u8>)
    ensures
        r@ == iat_name(),
{
    let r = vec![0x69u8, 0x61u8, 0x74u8];
    assert(r@ =~= iat_name());
    r
}

fn exp_name_exec() -> (r: Vec<u8>)
    ensures
        r@ == exp_name(),
{
    let r = vec![0x65u8, 0x78u8, 0x70u8];
    assert(r@ =~= exp_name());
    r
}

fn alg_name_exec() -> (r: Vec<u8>)
    ensures
        r@ == alg_name(),
{
    let r = vec![0x61u8, 0x6cu8, 0x67u8];
    assert(r@ =~= alg_name());
    r
}

/// A claim name reserved for the subject, issue time or expiry.
pub open spec fn is_reserved(name: Seq<u8>) -> bool {
    name == sub_name() || name == iat_name() || name == exp_name()
}

/// The value of the first entry named `name`.
pub open spec fn lookup(es: Seq<(Seq<u8>, Seq<u8>)>, name: Seq<u8>) -> Option<Seq<u8>>
    decreases es.len(),
{
    if es.len() == 0 {
        None
    } else if es[0].0 == name {
        Some(es[0].1)
    } else {
        lookup(es.skip(1), name)
    }
}

/// The entries whose names are not reserved, in order.
pub open spec fn custom_of(es: Seq<(Seq<u8>, Seq<u8>)>) -> Seq<(Seq<u8>, Seq<u8>)>
    decreases es.len(),
{
    if es.len() == 0 {
        Seq::empty()
    } else if is_reserved(es[0].0) {
        custom_of(es.skip(1))
    } else {
        seq![es[0]] + custom_of(es.skip(1))
    }
}

/// A claim set: subject, issue time, expiry (seconds since the Unix epoch)
/// and custom claims.
pub struct JwtClaims {
    /// The subject.
    pub subject: String,
    /// When the claims were issued.
    pub issued_at: u64,
    /// When the claims expire.
    pub expires_at: u64,
    /// Custom claims; none is named `sub`, `iat` or `exp`.
    pub data: Vec<ClaimEntry>,
}

/// The mathematical value of a claim set.
pub struct ClaimsModel {
    pub subject: Seq<char>,
    pub issued_at: u64,
    pub expires_at: u64,
    pub data: Seq<(Seq<u8>, Seq<u8>)>,
}

impl View for JwtClaims {
    type V = ClaimsModel;

    open spec fn view(&self) -> ClaimsModel {
        ClaimsModel {
            subject: self.subject@,
            issued_at: self.issued_at,
            expires_at: self.expires_at,
            data: entries_view(self.data@),
        }
    }
}

/// No custom claim takes a reserved name, and every field fits its length prefix.
pub open spec fn claims_wf(c: ClaimsModel) -> bool {
    &&& forall|i: int| 0 <= i < c.data.len() ==> !is_reserved(#[trigger] c.data[i].0)
    &&& fields_fit(c.data)
    &&& encode_utf8(c.subject).len() <= u64::MAX
}

/// The claim map that a claim set is carried as.
pub open spec fn claims_entries(c: ClaimsModel) -> Seq<(Seq<u8>, Seq<u8>)> {
    seq![
        (sub_name(), encode_utf8(c.subject)),
        (iat_name(), spec_u64_to_le_bytes(c.issued_at)),
        (exp_name(), spec_u64_to_le_bytes(c.expires_at)),
    ] + c.data
}

/// The header claim map: algorithm `HS256`, type `JWT`.
pub open spec fn header_entries() -> Seq<(Seq<u8>, Seq<u8>)> {
    seq![(alg_name(), hs256()), (typ_name(), jwt_type())]
}

/// Verification policy.
pub struct VerificationOptions {
    /// Algorithms accepted in a header.
    pub algorithms: Vec<Vec<u8>>,
    /// Claim names that must be present.
    pub required_claims: Vec<Vec<u8>>,
    /// Clock-skew allowance in seconds.
    pub time_tolerance: u64,
}

/// `s` is one of the sequences in `v`.
pub open spec fn seq_contains(v: Seq<Vec<u8>>, s: Seq<u8>) -> bool {
    exists|i: int| 0 <= i < v.len() && #[trigger] v[i]@ == s
}

/// Every required name has an entry.
pub open spec fn has_required(es: Seq<(Seq<u8>, Seq<u8>)>, required: Seq<Vec<u8>>) -> bool {
    forall|i: int| 0 <= i < required.len() ==> lookup(es, #[trigger] required[i]@) is Some
}

/// The claim set held by a payload's entries, when its reserved claims are well formed.
pub open spec fn claims_of(es: Seq<(Seq<u8>, Seq<u8>)>) -> Option<ClaimsModel> {
    match (lookup(es, sub_name()), lookup(es, iat_name()), lookup(es, exp_name())) {
        (Some(sub), Some(iat), Some(exp)) => if valid_utf8(sub) && iat.len() == 8 && exp.len() == 8 {
            Some(
                ClaimsModel {
                    subject: decode_utf8(sub),
                    issued_at: spec_u64_from_le_bytes(iat),
                    expires_at: spec_u64_from_le_bytes(exp),
                    data: custom_of(es),
                },
            )
        } else {
            None
        },
        _ => None,
    }
}

/// What verification concludes from a decoded header and payload, whether
/// the MAC matched, the policy, and the time `now`.
pub open spec fn verify_decoded_spec(
    header: Seq<u8>,
    payload: Seq<u8>,
    mac_matches: bool,
    algorithms: Seq<Vec<u8>>,
    required: Seq<Vec<u8>>,
    tolerance: u64,
    now: u64,
) -> Result<ClaimsModel, ClaimsError> {
    match parse_entries(header) {
        None => Err(ClaimsError::Malformed),
        Some(h) => match lookup(h, alg_name()) {
            None => Err(ClaimsError::Malformed),
            Some(alg) => if alg != hs256() || !seq_contains(algorithms, alg) {
                Err(ClaimsError::UnsupportedAlgorithm)
            } else if !mac_matches {
                Err(ClaimsError::SignatureMismatch)
            } else {
                match parse_entries(payload) {
                    None => Err(ClaimsError::Malformed),
                    Some(es) => if !has_required(es, required) {
                        Err(ClaimsError::MissingClaim)
                    } else {
                        match claims_of(es) {
                            None => Err(ClaimsError::Malformed),
                            Some(c) => if now > c.expires_at + tolerance {
                                Err(ClaimsError::Expired)
                            } else if c.issued_at > now + tolerance {
                                Err(ClaimsError::NotYetValid)
                            } else {
                                Ok(c)
                            },
                        }
                    },
                }
            },
        },
    }
}

/// Compares two byte strings.
pub fn bytes_eq(a: &[u8], b: &[u8]) -> (r: bool)
    ensures
        r == (a@ == b@),
{
    if a.len() != b.len() {
        return false;
    }
    let mut i: usize = 0;
    while i < a.len()
        invariant
            i <= a@.len() == b@.len(),
            a@.subrange(0, i as int) == b@.subrange(0, i as int),
        decreases a@.len() - i,
    {
        if a[i] != b[i] {
            assert(a@.subrange(0, i as int + 1)[i as int] != b@.subrange(0, i as int + 1)[i as int]);
            return false;
        }
        i = i + 1;
        assert(a@.subrange(0, i as int) =~= b@.subrange(0, i as int));
    }
    assert(a@ =~= a@.subrange(0, i as int));
    assert(b@ =~= b@.subrange(0, i as int));
    true
}

/// The value of the first entry named `name`.
pub fn lookup_exec<'a>(es: &'a Vec<ClaimEntry>, name: &[u8]) -> (r: Option<&'a Vec<u8>>)
    ensures
        match lookup(entries_view(es@), name@) {
            None => r is None,
            Some(v) => r matches Some(x) && x@ == v,
        },
{
    let ghost v = entries_view(es@);
    let mut i: usize = 0;
    proof {
        assert(v.skip(0) =~= v);
    }
    while i < es.len()
        invariant
            i <= es@.len(),
            v == entries_view(es@),
            lookup(v, name@) == lookup(v.skip(i as int), name@),
        decreases es@.len() - i,
    {
        assert(v.skip(i as int)[0] == v[i as int]);
        if bytes_eq(&es[i].name, name) {
            return Some(&es[i].value);
        }
        assert(v.skip(i as int).skip(1) =~= v.skip(i as int + 1));
        i = i + 1;
    }
    None
}

/// A copy of an entry.
fn copy_entry(e: &ClaimEntry) -> (r: ClaimEntry)
    ensures
        r@ == e@,
{
    ClaimEntry { name: copy_range(&e.name, 0, e.name.len()), value: copy_range(&e.value, 0, e.value.len()) }
}

/// Whether `name` is reserved for the subject, issue time or expiry.
fn is_reserved_exec(name: &[u8]) -> (r: bool)
    ensures
        r == is_reserved(name@),
{
    let sub = sub_name_exec();
    let iat = iat_name_exec();
    let exp = exp_name_exec();
    bytes_eq(name, &sub) || bytes_eq(name, &iat) || bytes_eq(name, &exp)
}

/// The entries whose names are not reserved, in order.
pub fn custom_of_exec(es: &Vec<ClaimEntry>) -> (r: Vec<ClaimEntry>)
    ensures
        entries_view(r@) == custom_of(entries_view(es@)),
{
    let ghost v = entries_view(es@);
    let mut acc: Vec<ClaimEntry> = Vec::new();
    let mut i: usize = 0;
    proof {
        assert(v.skip(0) =~= v);
        assert(entries_view(acc@) + custom_of(v) =~= custom_of(v));
    }
    while i < es.len()
        invariant
            i <= es@.len(),
            v == entries_view(es@),
            custom_of(v) == entries_view(acc@) + custom_of(v.skip(i as int)),
        decreases es@.len() - i,
    {
        let ghost before = entries_view(acc@);
        assert(v.skip(i as int)[0] == v[i as int]);
        assert(v.skip(i as int).skip(1) =~= v.skip(i as int + 1));
        if !is_reserved_exec(&es[i].name) {
            let e = copy_entry(&es[i]);
            acc.push(e);
            proof {
                assert(entries_view(acc@) =~= before.push(v[i as int]));
                assert(before + (seq![v[i as int]] + custom_of(v.skip(i as int + 1))) =~= entries_view(
                    acc@,
                ) + custom_of(v.skip(i as int + 1)));
            }
        }
        i = i + 1;
    }
    proof {
        assert(v.skip(i as int) =~= Seq::<(Seq<u8>, Seq<u8>)>::empty());
        assert(entries_view(acc@) + Seq::empty() =~= entries_view(acc@));
    }
    acc
}

/// Whether `s` is one of the sequences in `v`.
pub fn contains_bytes(v: &Vec<Vec<u8>>, s: &[u8]) -> (r: bool)
    ensures
        r == seq_contains(v@, s@),
{
    let mut i: usize = 0;
    while i < v.len()
        invariant
            i <= v@.len(),
            forall|j: int| 0 <= j < i ==> v@[j]@ != s@,
        decreases v@.len() - i,
    {
        if bytes_eq(&v[i], s) {
            return true;
        }
        i = i + 1;
    }
    false
}

/// Whether every required name has an entry.
pub fn has_required_exec(es: &Vec<ClaimEntry>, required: &Vec<Vec<u8>>) -> (r: bool)
    ensures
        r == has_required(entries_view(es@), required@),
{
    let mut i: usize = 0;
    while i < required.len()
        invariant
            i <= required@.len(),
            forall|j: int| 0 <= j < i ==> lookup(entries_view(es@), #[trigger] required@[j]@) is Some,
        decreases required@.len() - i,
    {
        if lookup_exec(es, &required[i]).is_none() {
            return false;
        }
        i = i + 1;
    }
    true
}

/// The executable result `r` is the spec result `s`.
pub open spec fn same_claims_outcome(r: Result<JwtClaims, ClaimsError>, s: Result<ClaimsModel, ClaimsError>) -> bool {
    match r {
        Ok(c) => s == Ok::<ClaimsModel, ClaimsError>(c@),
        Err(e) => s == Err::<ClaimsModel, ClaimsError>(e),
    }
}

/// Decides on a decoded header and payload: the header must name an allowed
/// algorithm, the MAC must have matched, the required claims must be present,
/// and the current time must lie within the claims' validity, widened by the
/// tolerance on both sides.
pub fn verify_decoded(
    header: &[u8],
    payload: &[u8],
    mac_matches: bool,
    options: &VerificationOptions,
    now: u64,
) -> (r: Result<JwtClaims, ClaimsError>)
    ensures
        same_claims_outcome(
            r,
            verify_decoded_spec(
                header@,
                payload@,
                mac_matches,
                options.algorithms@,
                options.required_claims@,
                options.time_tolerance,
                now,
            ),
        ),
{
    let h = match parse_entries_exec(header) {
        Some(h) => h,
        None => return Err(ClaimsError::Malformed),
    };
    let alg_key = alg_name_exec();
    let alg = match lookup_exec(&h, &alg_key) {
        Some(a) => a,
        None => return Err(ClaimsError::Malformed),
    };
    let supported = vec![0x48u8, 0x53u8, 0x32u8, 0x35u8, 0x36u8];
    assert(supported@ =~= hs256());
    if !bytes_eq(alg, &supported) || !contains_bytes(&options.algorithms, alg) {
        return Err(ClaimsError::UnsupportedAlgorithm);
    }
    if !mac_matches {
        return Err(ClaimsError::SignatureMismatch);
    }
    let es = match parse_entries_exec(payload) {
        Some(es) => es,
        None => return Err(ClaimsError::Malformed),
    };
    if !has_required_exec(&es, &options.required_claims) {
        return Err(ClaimsError::MissingClaim);
    }
    let sub_key = sub_name_exec();
    let iat_key = iat_name_exec();
    let exp_key = exp_name_exec();
    let sub = lookup_exec(&es, &sub_key);
    let iat = lookup_exec(&es, &iat_key);
    let exp = lookup_exec(&es, &exp_key);
    let (sub, iat, exp) = match (sub, iat, exp) {
        (Some(s), Some(i), Some(e)) => (s, i, e),
        _ => return Err(ClaimsError::Malformed),
    };
    if iat.len() != 8 || exp.len() != 8 {
        return Err(ClaimsError::Malformed);
    }
    let sub_bytes = copy_range(sub, 0, sub.len());
    assert(sub_bytes@ =~= sub@);
    let subject = match string_from_utf8(sub_bytes) {
        Some(s) => s,
        None => return Err(ClaimsError::Malformed),
    };
    let issued_at = u64_from_le_bytes(iat);
    let expires_at = u64_from_le_bytes(exp);
    let data = custom_of_exec(&es);
    let tolerance = options.time_tolerance;
    if now as u128 > expires_at as u128 + tolerance as u128 {
        return Err(ClaimsError::Expired);
    }
    if issued_at as u128 > now as u128 + tolerance as u128 {
        return Err(ClaimsError::NotYetValid);
    }
    let claims = JwtClaims { subject, issued_at, expires_at, data };
    assert(claims@ == claims_of(entries_view(es@)).unwrap());
    Ok(claims)
}

proof fn lemma_custom_of_plain(d: Seq<(Seq<u8>, Seq<u8>)>)
    requires
        forall|i: int| 0 <= i < d.len() ==> !is_reserved(#[trigger] d[i].0),
    ensures
        custom_of(d) == d,
    decreases d.len(),
{
    if d.len() > 0 {
        let t = d.skip(1);
        assert forall|i: int| 0 <= i < t.len() implies !is_reserved(#[trigger] t[i].0) by {
            assert(t[i] == d[i + 1]);
        }
        lemma_custom_of_plain(t);
        assert(!is_reserved(d[0].0));
        assert(seq![d[0]] + t =~= d);
    }
}

proof fn lemma_names_distinct()
    ensures
        sub_name() != iat_name(),
        sub_name() != exp_name(),
        iat_name() != exp_name(),
        alg_name() != typ_name(),
{
    assert(sub_name()[0] != iat_name()[0]);
    assert(sub_name()[0] != exp_name()[0]);
    assert(iat_name()[0] != exp_name()[0]);
    assert(alg_name()[0] != typ_name()[0]);
}

/// The reserved claims of a claim set are found in its claim map, and its
/// custom claims are the rest.
proof fn lemma_claims_entries(c: ClaimsModel)
    requires
        claims_wf(c),
    ensures
        lookup(claims_entries(c), sub_name()) == Some(encode_utf8(c.subject)),
        lookup(claims_entries(c), iat_name()) == Some(spec_u64_to_le_bytes(c.issued_at)),
        lookup(claims_entries(c), exp_name()) == Some(spec_u64_to_le_bytes(c.expires_at)),
        custom_of(claims_entries(c)) == c.data,
        claims_of(claims_entries(c)) == Some(c),
{
    lemma_names_distinct();
    lemma_auto_spec_u64_to_from_le_bytes();
    encode_utf8_valid_utf8(c.subject);
    encode_utf8_decode_utf8(c.subject);
    let es = claims_entries(c);
    let s1 = es.skip(1);
    let s2 = s1.skip(1);
    let s3 = s2.skip(1);
    assert(s3 =~= c.data);
    assert(s1[0] == es[1]);
    assert(s2[0] == es[2]);
    lemma_custom_of_plain(c.data);
    assert(is_reserved(es[0].0));
    assert(is_reserved(s1[0].0));
    assert(is_reserved(s2[0].0));
    assert(custom_of(es) == custom_of(s1));
    assert(custom_of(s1) == custom_of(s2));
    assert(custom_of(s2) == custom_of(s3));
    assert(lookup(es, iat_name()) == lookup(s1, iat_name()));
    assert(lookup(es, exp_name()) == lookup(s1, exp_name()));
    assert(lookup(s1, exp_name()) == lookup(s2, exp_name()));
}

/// The claim map of a well-formed claim set fits its length prefixes.
proof fn lemma_claims_entries_fit(c: ClaimsModel)
    requires
        claims_wf(c),
    ensures
        fields_fit(claims_entries(c)),
{
    lemma_auto_spec_u64_to_from_le_bytes();
    let es = claims_entries(c);
    assert forall|i: int| 0 <= i < es.len() implies #[trigger] es[i].0.len() <= u64::MAX && es[i].1.len()
        <= u64::MAX by {
        if i >= 3 {
            assert(es[i] == c.data[i - 3]);
        }
    }
}

/// The header of a signed claim set names `HS256`.
proof fn lemma_header()
    ensures
        parse_entries(encode_entries(header_entries())) == Some(header_entries()),
        lookup(header_entries(), alg_name()) == Some(hs256()),
{
    lemma_entries_round_trip(header_entries());
}

/// A claim set encoded as a signed token's header and payload, checked with
/// a matching MAC under a policy that allows `HS256` and asks only for
/// claims it has, verifies to the same claim set, unless the current time
/// lies outside its validity widened by the tolerance: then it is `Expired`
/// when past the expiry and `NotYetValid` when before the issue time. With a
/// MAC that does not match, it is a `SignatureMismatch`.
pub proof fn lemma_claims_round_trip(
    c: ClaimsModel,
    mac_matches: bool,
    algorithms: Seq<Vec<u8>>,
    required: Seq<Vec<u8>>,
    tolerance: u64,
    now: u64,
)
    requires
        claims_wf(c),
        seq_contains(algorithms, hs256()),
        has_required(claims_entries(c), required),
    ensures
        verify_decoded_spec(
            encode_entries(header_entries()),
            encode_entries(claims_entries(c)),
            mac_matches,
            algorithms,
            required,
            tolerance,
            now,
        ) == if !mac_matches {
            Err(ClaimsError::SignatureMismatch)
        } else if now > c.expires_at + tolerance {
            Err(ClaimsError::Expired)
        } else if c.issued_at > now + tolerance {
            Err(ClaimsError::NotYetValid)
        } else {
            Ok::<ClaimsModel, ClaimsError>(c)
        },
{
    lemma_header();
    lemma_claims_entries(c);
    lemma_claims_entries_fit(c);
    lemma_entries_round_trip(claims_entries(c));
}

/// `s` holds no `.`.
pub open spec fn no_dot(s: Seq<char>) -> bool {
    forall|i: int| 0 <= i < s.len() ==> #[trigger] s[i] != '.'
}

/// `t` is the three segments `a`, `b`, `c`, joined by `.`.
pub open spec fn is_split3(t: Seq<char>, a: Seq<char>, b: Seq<char>, c: Seq<char>) -> bool {
    &&& t == a + seq!['.'] + b + seq!['.'] + c
    &&& no_dot(a)
    &&& no_dot(b)
    &&& no_dot(c)
}

/// The text over which a token's MAC is computed.
pub open spec fn signing_input(header: Seq<u8>, payload: Seq<u8>) -> Seq<char> {
    base64url_of(header) + seq!['.'] + base64url_of(payload)
}

/// The MAC of a token's header and payload under `secret`.
pub open spec fn token_mac(header: Seq<u8>, payload: Seq<u8>, secret: Seq<u8>) -> Seq<u8> {
    hmac_sha256_of(secret, encode_utf8(signing_input(header, payload)))
}

/// The token for a header and payload under `secret`.
pub open spec fn signed_token(header: Seq<u8>, payload: Seq<u8>, secret: Seq<u8>) -> Seq<char> {
    signing_input(header, payload) + seq!['.'] + base64url_of(token_mac(header, payload, secret))
}

/// The first `.` at or after `from`, if any.
fn find_dot(t: &str, from: usize) -> (r: Option<usize>)
    requires
        from <= t@.len(),
    ensures
        match r {
            Some(i) => from <= i < t@.len() && t@[i as int] == '.' && no_dot(t@.subrange(from as int, i as int)),
            None => no_dot(t@.subrange(from as int, t@.len() as int)),
        },
{
    let n = t.unicode_len();
    let mut i: usize = from;
    while i < n
        invariant
            from <= i <= n == t@.len(),
            no_dot(t@.subrange(from as int, i as int)),
        decreases n - i,
    {
        if t.get_char(i) == '.' {
            return Some(i);
        }
        i = i + 1;
        assert forall|j: int| 0 <= j < i - from implies #[trigger] t@.subrange(from as int, i as int)[j]
            != '.' by {
            if j < i - 1 - from {
                assert(t@.subrange(from as int, i as int)[j] == t@.subrange(from as int, i - 1)[j]);
            }
        }
    }
    None
}

proof fn lemma_no_dot_base64(s: Seq<char>)
    requires
        forall|i: int| 0 <= i < s.len() ==> is_base64url_char(#[trigger] s[i]),
    ensures
        no_dot(s),
{
    assert forall|i: int| 0 <= i < s.len() implies #[trigger] s[i] != '.' by {
        assert(is_base64url_char(s[i]));
    }
}

/// Where the segments of a split on `.` lie.
proof fn lemma_split3_positions(t: Seq<char>, a: Seq<char>, b: Seq<char>, c: Seq<char>)
    requires
        is_split3(t, a, b, c),
    ensures
        t[a.len() as int] == '.',
        t[a.len() + 1 + b.len() as int] == '.',
        t.subrange(0, a.len() as int) == a,
        t.subrange(a.len() + 1 as int, a.len() + 1 + b.len() as int) == b,
        t.subrange(a.len() + 2 + b.len() as int, t.len() as int) == c,
{
    let la = a.len() as int;
    let lb = b.len() as int;
    assert(t.subrange(0, la) =~= a);
    assert(t.subrange(la + 1, la + 1 + lb) =~= b);
    assert(t.subrange(la + 2 + lb, t.len() as int) =~= c);
}

impl JwtClaims {
    /// A claim set for `subject`, issued at `now` and expiring `ttl` seconds later.
    pub fn new(subject: &str, ttl: u64, now: u64) -> (r: JwtClaims)
        requires
            now + ttl <= u64::MAX,
        ensures
            r@.subject == subject@,
            r@.issued_at == now,
            r@.expires_at == now + ttl,
            r@.data.len() == 0,
            claims_wf(r@),
    {
        let r = JwtClaims { subject: subject.to_owned(), issued_at: now, expires_at: now + ttl, data: Vec::new() };
        assert(entries_view(r.data@) =~= Seq::<(Seq<u8>, Seq<u8>)>::empty());
        let len = subject.as_bytes().len();
        assert(encode_utf8(subject@).len() == len as int);
        r
    }

    /// Adds a custom claim. A reserved name (`sub`, `iat`, `exp`) is refused,
    /// and the claims are left as they were.
    pub fn add_claim(&mut self, name: &str, value: &str) -> (r: bool)
        ensures
            r == !is_reserved(name.spec_bytes()),
            r ==> final(self)@ == (ClaimsModel {
                data: old(self)@.data.push((name.spec_bytes(), value.spec_bytes())),
                ..old(self)@
            }),
            !r ==> final(self)@ == old(self)@,
            claims_wf(old(self)@) ==> claims_wf(final(self)@),
    {
        let n = name.as_bytes();
        if is_reserved_exec(n) {
            return false;
        }
        let e = ClaimEntry { name: copy_range(n, 0, n.len()), value: copy_range(value.as_bytes(), 0, value.as_bytes().len()) };
        assert(e.name@ =~= name.spec_bytes());
        assert(e.value@ =~= value.spec_bytes());
        let ghost before = self.data@;
        self.data.push(e);
        assert(entries_view(self.data@) =~= entries_view(before).push(e@));
        proof {
            let d = entries_view(self.data@);
            assert(forall|i: int| 0 <= i < d.len() - 1 ==> d[i] == entries_view(before)[i]);
        }
        true
    }

    /// The value of the custom claim `name`, if present.
    pub fn claim(&self, name: &str) -> (r: Option<&Vec<u8>>)
        ensures
            match lookup(self@.data, name.spec_bytes()) {
                None => r is None,
                Some(v) => r matches Some(x) && x@ == v,
            },
    {
        lookup_exec(&self.data, name.as_bytes())
    }

    /// The claim map this claim set is carried as.
    pub fn entries(&self) -> (r: Vec<ClaimEntry>)
        ensures
            entries_view(r@) == claims_entries(self@),
    {
        let subject = self.subject.as_str();
        let sub_bytes = subject.as_bytes();
        assert(sub_bytes@ == encode_utf8(self.subject@));
        let mut r: Vec<ClaimEntry> = Vec::new();
        let sub_value = copy_range(sub_bytes, 0, sub_bytes.len());
        assert(sub_value@ =~= encode_utf8(self.subject@));
        r.push(ClaimEntry { name: sub_name_exec(), value: sub_value });
        r.push(ClaimEntry { name: iat_name_exec(), value: u64_to_le_bytes(self.issued_at) });
        r.push(ClaimEntry { name: exp_name_exec(), value: u64_to_le_bytes(self.expires_at) });
        let ghost head = entries_view(r@);
        assert(head =~= seq![
            (sub_name(), encode_utf8(self.subject@)),
            (iat_name(), spec_u64_to_le_bytes(self.issued_at)),
            (exp_name(), spec_u64_to_le_bytes(self.expires_at)),
        ]);
        let mut i: usize = 0;
        while i < self.data.len()
            invariant
                i <= self@.data.len(),
                entries_view(r@) == head + self@.data.take(i as int),
            decreases self@.data.len() - i,
        {
            let e = copy_entry(&self.data[i]);
            let ghost before = entries_view(r@);
            r.push(e);
            assert(entries_view(r@) =~= before.push(e@));
            assert(self@.data.take(i as int + 1) =~= self@.data.take(i as int).push(self@.data[i as int]));
            assert(head + self@.data.take(i as int + 1) =~= before.push(e@));
            i = i + 1;
        }
        assert(self@.data.take(i as int) =~= self@.data);
        r
    }

    /// Signs the claims with `secret`: the base64url header, payload and MAC
    /// of the first two, joined by `.`.
    pub fn sign(&self, secret: &[u8]) -> (r: String)
        ensures
            r@ == signed_token(
                encode_entries(header_entries()),
                encode_entries(claims_entries(self@)),
                secret@,
            ),
            is_split3(
                r@,
                base64url_of(encode_entries(header_entries())),
                base64url_of(encode_entries(claims_entries(self@))),
                base64url_of(
                    token_mac(encode_entries(header_entries()), encode_entries(claims_entries(self@)), secret@),
                ),
            ),
    {
        let header = encode_entries_exec(&header_entries_exec());
        let payload = encode_entries_exec(&self.entries());
        let h64 = base64url_encode(&header);
        let p64 = base64url_encode(&payload);
        let input = h64.concat(".").concat(p64.as_str());
        let mac = hmac_sha256(secret, input.as_str().as_bytes());
        let m64 = base64url_encode(&mac);
        proof {
            reveal_strlit(".");
            assert("."@ =~= seq!['.']);
            lemma_no_dot_base64(h64@);
            lemma_no_dot_base64(p64@);
            lemma_no_dot_base64(m64@);
        }
        input.concat(".").concat(m64.as_str())
    }

    /// Verifies a signed token with `secret` under `options` at time `now`.
    pub fn verify(token: &str, secret: &[u8], options: &VerificationOptions, now: u64) -> (r: Result<JwtClaims, ClaimsError>)
        ensures
            forall|h: Seq<u8>, p: Seq<u8>, m: Seq<u8>|
                #[trigger] is_split3(token@, base64url_of(h), base64url_of(p), base64url_of(m)) ==> same_claims_outcome(
                    r,
                    verify_decoded_spec(
                        h,
                        p,
                        m == token_mac(h, p, secret@),
                        options.algorithms@,
                        options.required_claims@,
                        options.time_tolerance,
                        now,
                    ),
                ),
    {
        let n = token.unicode_len();
        let d1 = match find_dot(token, 0) {
            Some(i) => i,
            None => {
                proof {
                    assert forall|h: Seq<u8>, p: Seq<u8>, m: Seq<u8>|
                        #[trigger] is_split3(token@, base64url_of(h), base64url_of(p), base64url_of(m)) implies false by {
                        lemma_split3_positions(token@, base64url_of(h), base64url_of(p), base64url_of(m));
                        let la = base64url_of(h).len() as int;
                        assert(token@.subrange(0, token@.len() as int)[la] == '.');
                    }
                }
                return Err(ClaimsError::Malformed);
            },
        };
        let d2 = match find_dot(token, d1 + 1) {
            Some(i) => i,
            None => {
                proof {
                    assert forall|h: Seq<u8>, p: Seq<u8>, m: Seq<u8>|
                        #[trigger] is_split3(token@, base64url_of(h), base64url_of(p), base64url_of(m)) implies false by {
                        lemma_split3_positions(token@, base64url_of(h), base64url_of(p), base64url_of(m));
                        let la = base64url_of(h).len() as int;
                        let lb = base64url_of(p).len() as int;
                        if la < d1 {
                            assert(token@.subrange(0, d1 as int)[la] == '.');
                        } else if la > d1 {
                            assert(token@.subrange(0, la)[d1 as int] == '.');
                        }
                        assert(token@.subrange(d1 + 1, token@.len() as int)[lb] == '.');
                    }
                }
                return Err(ClaimsError::Malformed);
            },
        };
        if find_dot(token, d2 + 1).is_some() {
            return Err(ClaimsError::Malformed);
        }
        let a = token.substring_char(0, d1);
        let b = token.substring_char(d1 + 1, d2);
        let c = token.substring_char(d2 + 1, n);
        let input = token.substring_char(0, d2);
        proof {
            assert(token@ =~= a@ + seq!['.'] + b@ + seq!['.'] + c@);
            assert(input@ =~= a@ + seq!['.'] + b@);
            assert forall|h: Seq<u8>, p: Seq<u8>, m: Seq<u8>|
                #[trigger] is_split3(token@, base64url_of(h), base64url_of(p), base64url_of(m)) implies a@
                == base64url_of(h) && b@ == base64url_of(p) && c@ == base64url_of(m) by {
                lemma_split3_positions(token@, base64url_of(h), base64url_of(p), base64url_of(m));
                let la = base64url_of(h).len() as int;
                if la < d1 {
                    assert(token@.subrange(0, d1 as int)[la] == '.');
                } else if la > d1 {
                    assert(token@.subrange(0, la)[d1 as int] == '.');
                }
                let lb = base64url_of(p).len() as int;
                if la + 1 + lb < d2 {
                    assert(token@.subrange(d1 + 1, d2 as int)[lb] == '.');
                } else if la + 1 + lb > d2 {
                    assert(token@.subrange(la + 1, la + 1 + lb)[d2 - d1 - 1] == '.');
                }
            }
        }
        let header = match base64url_decode(a) {
            Some(x) => x,
            None => return Err(ClaimsError::Malformed),
        };
        let payload = match base64url_decode(b) {
            Some(x) => x,
            None => return Err(ClaimsError::Malformed),
        };
        let mac = match base64url_decode(c) {
            Some(x) => x,
            None => return Err(ClaimsError::Malformed),
        };
        let expected = hmac_sha256(secret, input.as_bytes());
        let mac_matches = constant_time_eq(&mac, &expected);
        verify_decoded(&header, &payload, mac_matches, options, now)
    }
}

/// The header claim map.
fn header_entries_exec() -> (r: Vec<ClaimEntry>)
    ensures
        entries_view(r@) == header_entries(),
{
    let typ = vec![0x74u8, 0x79u8, 0x70u8];
    let alg = vec![0x48u8, 0x53u8, 0x32u8, 0x35u8, 0x36u8];
    let jwt = vec![0x4au8, 0x57u8, 0x54u8];
    assert(typ@ =~= typ_name());
    assert(alg@ =~= hs256());
    assert(jwt@ =~= jwt_type());
    let r = vec![ClaimEntry { name: alg_name_exec(), value: alg }, ClaimEntry { name: typ, value: jwt }];
    assert(entries_view(r@) =~= header_entries());
    r
}

/// The default clock-skew allowance.
pub fn default_time_tolerance() -> (r: u64)
    ensures
        r == DEFAULT_TIME_TOLERANCE,
{
    DEFAULT_TIME_TOLERANCE
}

/// The default policy: `HS256` only; `exp`, `iat` and `sub` required; the
/// default tolerance.
pub fn default_verification_options() -> (r: VerificationOptions)
    ensures
        r.algorithms@.len() == 1,
        r.algorithms@[0]@ == hs256(),
        r.required_claims@.len() == 3,
        r.required_claims@[0]@ == exp_name(),
        r.required_claims@[1]@ == iat_name(),
        r.required_claims@[2]@ == sub_name(),
        r.time_tolerance == DEFAULT_TIME_TOLERANCE,
{
    let alg = vec![0x48u8, 0x53u8, 0x32u8, 0x35u8, 0x36u8];
    assert(alg@ =~= hs256());
    VerificationOptions {
        algorithms: vec![alg],
        required_claims: vec![exp_name_exec(), iat_name_exec(), sub_name_exec()],
        time_tolerance: DEFAULT_TIME_TOLERANCE,
    }
}

} // verus!
