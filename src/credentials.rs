//! Signed requests: the credential header, the canonical request, and its
//! verification against a secret fetched from a pluggable provider.
use crate::access_key::{AccessKeyId, SecretAccessKey};
use crate::crypto::{constant_time_eq, hmac_sha256, hmac_sha256_of, sha256, sha256_of};
use crate::encoding::{base64url_encode, base64url_of};
use crate::text::{
    all_digits, decimal_value, find_char, has_at, index_of, lacks, lemma_index_of, lemma_index_of_at,
    parse_decimal, sort_strings, sort_strings_exec, split_exec, split_on, texts,
};
use vstd::prelude::*;
use vstd::utf8::{encode_utf8, encode_utf8_decode_utf8};

verus! {

/// Largest distance, in seconds, between a request's timestamp and the
/// current time that is accepted.
pub const REPLAY_WINDOW: u64 = 900;

/// Why a signed request was rejected.
#[derive(Debug, Clone, Copy, PartialEq, Eq, Structural)]
pub enum CredentialError {
    /// The credential header or the timestamp does not have the expected form,
    /// or a signed header is absent from the request.
    MalformedHeader,
    /// The provider knows no secret for the access key id.
    UnknownAccessKey,
    /// The signature does not match the one computed with the secret.
    SignatureMismatch,
    /// The timestamp lies outside the replay window around the current time.
    Expired,
}

/// The credential header for the given parts.
pub open spec fn authorization_header(
    scheme: Seq<char>,
    access_key_id: Seq<char>,
    signed_headers: Seq<char>,
    signature: Seq<char>,
) -> Seq<char> {
    scheme + " Credential="@ + access_key_id + ", SignedHeaders="@ + signed_headers + ", Signature="@
        + signature
}

/// Parts that can be read back from their header: the scheme holds no
/// space, and the id and the header list hold no comma.
pub open spec fn header_parts_wf(scheme: Seq<char>, access_key_id: Seq<char>, signed_headers: Seq<char>) -> bool {
    lacks(scheme, ' ') && lacks(access_key_id, ',') && lacks(signed_headers, ',')
}

/// A parsed credential header with its request timestamp.
pub struct ClientCredentials {
    /// The signing scheme.
    pub scheme: String,
    /// The access key id that signed the request.
    pub access_key_id: String,
    /// The names of the signed headers, as the signer listed them.
    pub signed_headers: Vec<String>,
    /// The request signature.
    pub signature: String,
    /// The request time, in seconds since the Unix epoch.
    pub timestamp: u64,
}

/// `c` holds the parts of `header` and the value of `timestamp`.
pub open spec fn credentials_of(
    c: ClientCredentials,
    header: Seq<char>,
    timestamp: Seq<char>,
    names: Seq<char>,
) -> bool {
    &&& header_parts_wf(c.scheme@, c.access_key_id@, names)
    &&& header == authorization_header(c.scheme@, c.access_key_id@, names, c.signature@)
    &&& texts(c.signed_headers@) == split_on(names, ';')
    &&& all_digits(timestamp) && timestamp.len() > 0
    &&& c.timestamp == decimal_value(timestamp)
}

/// `c` holds the parts of `header`, for some list of signed header names,
/// and the value of `timestamp`.
pub open spec fn parsed_from(c: ClientCredentials, header: Seq<char>, timestamp: Seq<char>) -> bool {
    exists|names: Seq<char>| #[trigger] credentials_of(c, header, timestamp, names)
}

proof fn lemma_literals()
    ensures
        " Credential="@.len() == 12 && " Credential="@[0] == ' ',
        ", SignedHeaders="@.len() == 16 && ", SignedHeaders="@[0] == ',',
        ", Signature="@.len() == 12 && ", Signature="@[0] == ',',
{
    reveal_strlit(" Credential=");
    reveal_strlit(", SignedHeaders=");
    reveal_strlit(", Signature=");
}

/// Where the parts of a credential header lie.
proof fn lemma_header_positions(
    scheme: Seq<char>,
    id: Seq<char>,
    names: Seq<char>,
    sig: Seq<char>,
)
    requires
        header_parts_wf(scheme, id, names),
    ensures
        ({
            let h = authorization_header(scheme, id, names, sig);
            let p1 = scheme.len() as int;
            let s2 = p1 + 12;
            let p2 = s2 + id.len();
            let s3 = p2 + 16;
            let p3 = s3 + names.len();
            let s4 = p3 + 12;
            &&& s4 <= h.len()
            &&& index_of(h.skip(0), ' ') == p1
            &&& h.subrange(0, p1) == scheme
            &&& h.subrange(p1, s2) == " Credential="@
            &&& s2 + index_of(h.skip(s2), ',') == p2
            &&& h.subrange(s2, p2) == id
            &&& h.subrange(p2, s3) == ", SignedHeaders="@
            &&& s3 + index_of(h.skip(s3), ',') == p3
            &&& h.subrange(s3, p3) == names
            &&& h.subrange(p3, s4) == ", Signature="@
            &&& h.subrange(s4, h.len() as int) == sig
        }),
{
    lemma_literals();
    let h = authorization_header(scheme, id, names, sig);
    let p1 = scheme.len() as int;
    let s2 = p1 + 12;
    let p2 = s2 + id.len();
    let s3 = p2 + 16;
    let p3 = s3 + names.len();
    let s4 = p3 + 12;
    assert(h.subrange(0, p1) =~= scheme);
    assert(h.subrange(p1, s2) =~= " Credential="@);
    assert(h.subrange(s2, p2) =~= id);
    assert(h.subrange(p2, s3) =~= ", SignedHeaders="@);
    assert(h.subrange(s3, p3) =~= names);
    assert(h.subrange(p3, s4) =~= ", Signature="@);
    assert(h.subrange(s4, h.len() as int) =~= sig);
    assert(h.skip(0) =~= h);
    assert(h.skip(0).subrange(0, p1) =~= scheme);
    lemma_index_of_at(h.skip(0), ' ', p1);
    assert(h.skip(s2).subrange(0, p2 - s2) =~= id);
    assert(h.skip(s2)[p2 - s2] == h[p2]);
    lemma_index_of_at(h.skip(s2), ',', p2 - s2);
    assert(h.skip(s3).subrange(0, p3 - s3) =~= names);
    assert(h.skip(s3)[p3 - s3] == h[p3]);
    lemma_index_of_at(h.skip(s3), ',', p3 - s3);
}

impl ClientCredentials {
    /// Parses `Scheme Credential=<id>, SignedHeaders=<h1;h2;...>, Signature=<sig>`
    /// and a decimal timestamp.
    pub fn parse(header: &str, timestamp: &str) -> (r: Result<ClientCredentials, CredentialError>)
        ensures
            forall|scheme: Seq<char>, id: Seq<char>, names: Seq<char>, sig: Seq<char>|
                header_parts_wf(scheme, id, names) && header@ == #[trigger] authorization_header(
                    scheme,
                    id,
                    names,
                    sig,
                ) && timestamp@.len() > 0 && all_digits(timestamp@) && decimal_value(timestamp@)
                    <= u64::MAX ==> (r matches Ok(c) && c.scheme@ == scheme && c.access_key_id@ == id
                    && c.signature@ == sig && texts(c.signed_headers@) == split_on(names, ';')
                    && c.timestamp == decimal_value(timestamp@)),
            r matches Ok(c) ==> parsed_from(c, header@, timestamp@),
            r matches Err(e) ==> e == CredentialError::MalformedHeader,
    {
        let n = header.unicode_len();
        let p1 = find_char(header, ' ', 0);
        proof {
            lemma_index_of(header@.skip(0), ' ');
            lemma_literals();
        }
        if p1 >= n || !has_at(header, p1, " Credential=") {
            proof {
                assert forall|scheme: Seq<char>, id: Seq<char>, names: Seq<char>, sig: Seq<char>|
                    header_parts_wf(scheme, id, names) && header@ == #[trigger] authorization_header(
                        scheme,
                        id,
                        names,
                        sig,
                    ) implies false by {
                    lemma_header_positions(scheme, id, names, sig);
                }
            }
            return Err(CredentialError::MalformedHeader);
        }
        let s2 = p1 + 12;
        let p2 = find_char(header, ',', s2);
        proof {
            lemma_index_of(header@.skip(s2 as int), ',');
        }
        if p2 >= n || !has_at(header, p2, ", SignedHeaders=") {
            proof {
                assert forall|scheme: Seq<char>, id: Seq<char>, names: Seq<char>, sig: Seq<char>|
                    header_parts_wf(scheme, id, names) && header@ == #[trigger] authorization_header(
                        scheme,
                        id,
                        names,
                        sig,
                    ) implies false by {
                    lemma_header_positions(scheme, id, names, sig);
                }
            }
            return Err(CredentialError::MalformedHeader);
        }
        let s3 = p2 + 16;
        let p3 = find_char(header, ',', s3);
        proof {
            lemma_index_of(header@.skip(s3 as int), ',');
        }
        if p3 >= n || !has_at(header, p3, ", Signature=") {
            proof {
                assert forall|scheme: Seq<char>, id: Seq<char>, names: Seq<char>, sig: Seq<char>|
                    header_parts_wf(scheme, id, names) && header@ == #[trigger] authorization_header(
                        scheme,
                        id,
                        names,
                        sig,
                    ) implies false by {
                    lemma_header_positions(scheme, id, names, sig);
                }
            }
            return Err(CredentialError::MalformedHeader);
        }
        let s4 = p3 + 12;
        let ts = match parse_decimal(timestamp) {
            Some(t) => t,
            None => return Err(CredentialError::MalformedHeader),
        };
        let scheme = header.substring_char(0, p1);
        let id = header.substring_char(s2, p2);
        let names = header.substring_char(s3, p3);
        let sig = header.substring_char(s4, n);
        let c = ClientCredentials {
            scheme: scheme.to_owned(),
            access_key_id: id.to_owned(),
            signed_headers: split_exec(names, ';'),
            signature: sig.to_owned(),
            timestamp: ts,
        };
        proof {
            let h = header@;
            assert(h.skip(0).subrange(0, p1 as int) =~= scheme@);
            assert(h.skip(s2 as int).subrange(0, p2 - s2) =~= id@);
            assert(h.skip(s3 as int).subrange(0, p3 - s3) =~= names@);
            assert(h =~= authorization_header(scheme@, id@, names@, sig@));
            assert(texts(c.signed_headers@) =~= split_on(names@, ';'));
            assert(credentials_of(c, header@, timestamp@, names@));
            assert(parsed_from(c, header@, timestamp@));
            assert forall|scheme2: Seq<char>, id2: Seq<char>, names2: Seq<char>, sig2: Seq<char>|
                header_parts_wf(scheme2, id2, names2) && header@ == #[trigger] authorization_header(
                    scheme2,
                    id2,
                    names2,
                    sig2,
                ) implies scheme2 == scheme@ && id2 == id@ && names2 == names@ && sig2 == sig@ by {
                lemma_header_positions(scheme2, id2, names2, sig2);
            }
        }
        Ok(c)
    }
}

/// The value of the first header named `name`.
pub open spec fn header_value(headers: Seq<(Seq<char>, Seq<char>)>, name: Seq<char>) -> Option<Seq<char>>
    decreases headers.len(),
{
    if headers.len() == 0 {
        None
    } else if headers[0].0 == name {
        Some(headers[0].1)
    } else {
        header_value(headers.skip(1), name)
    }
}

/// The texts of a list of name/value pairs.
pub open spec fn headers_view(v: Seq<(String, String)>) -> Seq<(Seq<char>, Seq<char>)> {
    v.map_values(|p: (String, String)| (p.0@, p.1@))
}

/// The signed headers' lines, `name:value` each followed by a newline, when
/// every one of them is present.
pub open spec fn header_lines(names: Seq<Seq<char>>, headers: Seq<(Seq<char>, Seq<char>)>) -> Option<Seq<char>>
    decreases names.len(),
{
    if names.len() == 0 {
        Some(Seq::empty())
    } else {
        match (header_lines(names.drop_last(), headers), header_value(headers, names.last())) {
            (Some(lines), Some(v)) => Some(lines + names.last() + ":"@ + v + "\n"@),
            _ => None,
        }
    }
}

/// The canonical request: method, URI, the signed headers' lines in
/// lexicographic order of their names, and the base64url digest of the
/// body, the first two each followed by a newline.
pub open spec fn canonical_request(
    method: Seq<char>,
    uri: Seq<char>,
    names: Seq<Seq<char>>,
    headers: Seq<(Seq<char>, Seq<char>)>,
    body: Seq<u8>,
) -> Option<Seq<char>> {
    match header_lines(sort_strings(names), headers) {
        None => None,
        Some(lines) => Some(method + "\n"@ + uri + "\n"@ + lines + base64url_of(sha256_of(body))),
    }
}

/// The signature of a canonical request under `secret`.
pub open spec fn request_signature(canonical: Seq<char>, secret: Seq<u8>) -> Seq<char> {
    base64url_of(hmac_sha256_of(secret, encode_utf8(canonical)))
}

/// `a` and `b` lie within the replay window of each other.
pub open spec fn within_window(a: u64, b: u64) -> bool {
    if a >= b {
        a - b <= REPLAY_WINDOW
    } else {
        b - a <= REPLAY_WINDOW
    }
}

/// What verification concludes for a canonical request, the secret the
/// provider gave (if any), and the current time.
pub open spec fn verify_spec(
    canonical: Option<Seq<char>>,
    secret: Option<Seq<u8>>,
    access_key_id: Seq<char>,
    signature: Seq<char>,
    timestamp: u64,
    now: u64,
) -> Result<Seq<char>, CredentialError> {
    match canonical {
        None => Err(CredentialError::MalformedHeader),
        Some(text) => match secret {
            None => Err(CredentialError::UnknownAccessKey),
            Some(k) => if request_signature(text, k) != signature {
                Err(CredentialError::SignatureMismatch)
            } else if !within_window(timestamp, now) {
                Err(CredentialError::Expired)
            } else {
                Ok(access_key_id)
            },
        },
    }
}

/// The value of the first header named `name`.
pub fn header_value_exec<'a>(headers: &'a Vec<(String, String)>, name: &str) -> (r: Option<&'a String>)
    ensures
        match header_value(headers_view(headers@), name@) {
            None => r is None,
            Some(v) => r matches Some(x) && x@ == v,
        },
{
    let ghost v = headers_view(headers@);
    let mut i: usize = 0;
    proof {
        assert(v.skip(0) =~= v);
    }
    while i < headers.len()
        invariant
            i <= headers@.len(),
            v == headers_view(headers@),
            header_value(v, name@) == header_value(v.skip(i as int), name@),
        decreases headers@.len() - i,
    {
        assert(v.skip(i as int)[0] == v[i as int]);
        if headers[i].0.eq(&name.to_owned()) {
            return Some(&headers[i].1);
        }
        assert(v.skip(i as int).skip(1) =~= v.skip(i as int + 1));
        i = i + 1;
    }
    None
}

/// Builds the canonical request; `None` when a signed header is absent.
pub fn canonical_request_exec(
    method: &str,
    uri: &str,
    names: &Vec<String>,
    headers: &Vec<(String, String)>,
    body: &[u8],
) -> (r: Option<String>)
    ensures
        match canonical_request(method@, uri@, texts(names@), headers_view(headers@), body@) {
            None => r is None,
            Some(t) => r matches Some(s) && s@ == t,
        },
{
    let sorted = sort_strings_exec(names);
    let ghost nv = texts(sorted@);
    let mut lines = String::new();
    let mut i: usize = 0;
    proof {
        assert(nv.take(0) =~= Seq::<Seq<char>>::empty());
    }
    while i < sorted.len()
        invariant
            i <= sorted@.len(),
            nv == texts(sorted@),
            nv == sort_strings(texts(names@)),
            header_lines(nv.take(i as int), headers_view(headers@)) == Some(lines@),
        decreases sorted@.len() - i,
    {
        let name = &sorted[i];
        assert(nv.take(i as int + 1).drop_last() =~= nv.take(i as int));
        assert(nv.take(i as int + 1).last() == name@);
        match header_value_exec(headers, name.as_str()) {
            None => {
                proof {
                    lemma_header_lines_prefix(nv, headers_view(headers@), i as int + 1);
                }
                return None;
            },
            Some(v) => {
                lines.append(name.as_str());
                lines.append(":");
                lines.append(v.as_str());
                lines.append("\n");
            },
        }
        i = i + 1;
    }
    assert(nv.take(i as int) =~= nv);
    let digest = base64url_encode(&sha256(body));
    let mut text = String::from_str(method);
    text.append("\n");
    text.append(uri);
    text.append("\n");
    text.append(lines.as_str());
    text.append(digest.as_str());
    Some(text)
}

/// Headers' lines for a list of names are absent when those of a prefix are.
proof fn lemma_header_lines_prefix(names: Seq<Seq<char>>, headers: Seq<(Seq<char>, Seq<char>)>, k: int)
    requires
        0 <= k <= names.len(),
        header_lines(names.take(k), headers) is None,
    ensures
        header_lines(names, headers) is None,
    decreases names.len() - k,
{
    if k < names.len() {
        assert(names.take(k + 1).drop_last() =~= names.take(k));
        lemma_header_lines_prefix(names, headers, k + 1);
    } else {
        assert(names.take(k) =~= names);
    }
}

/// The executable result `r` is the spec result `s`.
pub open spec fn same_id_outcome(r: Result<AccessKeyId, CredentialError>, s: Result<Seq<char>, CredentialError>) -> bool {
    match r {
        Ok(id) => s == Ok::<Seq<char>, CredentialError>(id@),
        Err(e) => s == Err::<Seq<char>, CredentialError>(e),
    }
}

/// Whether `a` and `b` lie within the replay window of each other.
pub fn within_window_exec(a: u64, b: u64) -> (r: bool)
    ensures
        r == within_window(a, b),
{
    if a >= b {
        a - b <= REPLAY_WINDOW
    } else {
        b - a <= REPLAY_WINDOW
    }
}

/// Supplies the secret access key for an access key id; backed by a
/// database, configuration or an in-memory map outside this library.
pub trait AuthorizationProvider {
    /// The secret for `access_key_id`, if one is known.
    fn fetch_secret_access_key(&self, access_key_id: &AccessKeyId) -> Option<SecretAccessKey>;
}

/// Signs a request as a client does: the base64url HMAC-SHA256, under
/// `secret`, of the canonical request; `None` when a signed header is absent.
pub fn sign_request(
    method: &str,
    uri: &str,
    names: &Vec<String>,
    headers: &Vec<(String, String)>,
    body: &[u8],
    secret: &[u8],
) -> (r: Option<String>)
    ensures
        match canonical_request(method@, uri@, texts(names@), headers_view(headers@), body@) {
            None => r is None,
            Some(t) => r matches Some(s) && s@ == request_signature(t, secret@),
        },
{
    let canonical = canonical_request_exec(method, uri, names, headers, body)?;
    let mac = hmac_sha256(secret, canonical.as_str().as_bytes());
    Some(base64url_encode(&mac))
}

/// Verification of signed requests.
pub struct Authentication;

impl Authentication {
    /// Verifies a signed request against the secret that the provider gave:
    /// the signed headers must be present, the secret known, the signature
    /// equal to the recomputed one (compared in constant time), and the
    /// timestamp within the replay window of `now`.
    pub fn verify_with_secret(
        method: &str,
        uri: &str,
        headers: &Vec<(String, String)>,
        body: &[u8],
        credentials: &ClientCredentials,
        secret: Option<&SecretAccessKey>,
        now: u64,
    ) -> (r: Result<AccessKeyId, CredentialError>)
        ensures
            same_id_outcome(
                r,
                verify_spec(
                    canonical_request(
                        method@,
                        uri@,
                        texts(credentials.signed_headers@),
                        headers_view(headers@),
                        body@,
                    ),
                    match secret {
                        Some(k) => Some(k@),
                        None => None,
                    },
                    credentials.access_key_id@,
                    credentials.signature@,
                    credentials.timestamp,
                    now,
                ),
            ),
    {
        let canonical = match canonical_request_exec(method, uri, &credentials.signed_headers, headers, body) {
            Some(t) => t,
            None => return Err(CredentialError::MalformedHeader),
        };
        let key = match secret {
            Some(k) => k,
            None => return Err(CredentialError::UnknownAccessKey),
        };
        let mac = hmac_sha256(key.as_bytes(), canonical.as_str().as_bytes());
        let expected = base64url_encode(&mac);
        let matches = constant_time_eq(expected.as_str().as_bytes(), credentials.signature.as_str().as_bytes());
        proof {
            encode_utf8_decode_utf8(expected@);
            encode_utf8_decode_utf8(credentials.signature@);
        }
        if !matches {
            return Err(CredentialError::SignatureMismatch);
        }
        if !within_window_exec(credentials.timestamp, now) {
            return Err(CredentialError::Expired);
        }
        Ok(AccessKeyId::new(credentials.access_key_id.as_str()))
    }

    /// Verifies a signed request, fetching the secret from `provider`.
    /// Whatever the provider returns, the outcome is what
    /// `verify_with_secret` gives for it.
    pub fn verify<P: AuthorizationProvider>(
        method: &str,
        uri: &str,
        headers: &Vec<(String, String)>,
        body: &[u8],
        credentials: &ClientCredentials,
        provider: &P,
        now: u64,
    ) -> (r: Result<AccessKeyId, CredentialError>)
        ensures
            exists|secret: Option<Seq<u8>>|
                same_id_outcome(
                    r,
                    verify_spec(
                        canonical_request(
                            method@,
                            uri@,
                            texts(credentials.signed_headers@),
                            headers_view(headers@),
                            body@,
                        ),
                        secret,
                        credentials.access_key_id@,
                        credentials.signature@,
                        credentials.timestamp,
                        now,
                    ),
                ),
    {
        let id = AccessKeyId::new(credentials.access_key_id.as_str());
        let secret = provider.fetch_secret_access_key(&id);
        let r = match &secret {
            Some(k) => Self::verify_with_secret(method, uri, headers, body, credentials, Some(k), now),
            None => Self::verify_with_secret(method, uri, headers, body, credentials, None, now),
        };
        proof {
            let s = match secret {
                Some(k) => Some(k@),
                None => None,
            };
            assert(same_id_outcome(
                r,
                verify_spec(
                    canonical_request(
                        method@,
                        uri@,
                        texts(credentials.signed_headers@),
                        headers_view(headers@),
                        body@,
                    ),
                    s,
                    credentials.access_key_id@,
                    credentials.signature@,
                    credentials.timestamp,
                    now,
                ),
            ));
        }
        r
    }
}

/// A request signed with the secret the provider holds for its access key,
/// with all signed headers present and a timestamp within the replay window,
/// verifies to that access key id. Signed with a different text than the
/// expected signature it is a `SignatureMismatch`; with no secret known it is
/// an `UnknownAccessKey`; with a timestamp outside the window it is `Expired`.
pub proof fn lemma_signed_request(
    canonical: Seq<char>,
    secret: Seq<u8>,
    access_key_id: Seq<char>,
    signature: Seq<char>,
    timestamp: u64,
    now: u64,
)
    ensures
        verify_spec(Some(canonical), None, access_key_id, signature, timestamp, now) == Err::<
            Seq<char>,
            CredentialError,
        >(CredentialError::UnknownAccessKey),
        signature == request_signature(canonical, secret) ==> verify_spec(
            Some(canonical),
            Some(secret),
            access_key_id,
            signature,
            timestamp,
            now,
        ) == if within_window(timestamp, now) {
            Ok::<Seq<char>, CredentialError>(access_key_id)
        } else {
            Err(CredentialError::Expired)
        },
        signature != request_signature(canonical, secret) ==> verify_spec(
            Some(canonical),
            Some(secret),
            access_key_id,
            signature,
            timestamp,
            now,
        ) == Err::<Seq<char>, CredentialError>(CredentialError::SignatureMismatch),
{
}

} // verus!
