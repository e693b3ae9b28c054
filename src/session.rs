//! Stateless session identity, built after a successful verification.
use crate::crypto::random_bytes;
use crate::encoding::{base64url_encode, base64url_of};
use vstd::prelude::*;

verus! {

/// Number of random bytes behind a session id.
pub const SESSION_ID_ENTROPY: usize = 16;

/// An opaque random session identifier.
#[derive(Debug, PartialEq, Eq)]
pub struct SessionId {
    id: String,
}

impl View for SessionId {
    type V = Seq<char>;

    closed spec fn view(&self) -> Seq<char> {
        self.id@
    }
}

impl SessionId {
    /// Draws a fresh id: the base64url text of 16 random bytes.
    pub fn generate() -> (r: SessionId)
        ensures
            exists|b: Seq<u8>| b.len() == SESSION_ID_ENTROPY && r@ == base64url_of(b),
    {
        let b = random_bytes(SESSION_ID_ENTROPY);
        SessionId { id: base64url_encode(&b) }
    }

    /// An id with the given text.
    pub fn new(id: &str) -> (r: SessionId)
        ensures
            r@ == id@,
    {
        SessionId { id: id.to_owned() }
    }

    /// The id's text.
    pub fn as_str(&self) -> (r: &str)
        ensures
            r@ == self@,
    {
        self.id.as_str()
    }
}

/// An authenticated user's session: an immutable value.
pub struct UserSession {
    session_id: SessionId,
    user_id: String,
    roles: Vec<String>,
    issued_at: u64,
}

impl UserSession {
    /// The session's id.
    pub closed spec fn spec_session_id(&self) -> Seq<char> {
        self.session_id@
    }

    /// The user's id.
    pub closed spec fn spec_user_id(&self) -> Seq<char> {
        self.user_id@
    }

    /// The user's roles.
    pub closed spec fn spec_roles(&self) -> Seq<Seq<char>> {
        self.roles@.map_values(|s: String| s@)
    }

    /// When the session was created.
    pub closed spec fn spec_issued_at(&self) -> u64 {
        self.issued_at
    }

    /// A session for `user_id` with `roles`, created at `issued_at`.
    pub fn new(session_id: SessionId, user_id: &str, roles: Vec<String>, issued_at: u64) -> (r: UserSession)
        ensures
            r.spec_session_id() == session_id@,
            r.spec_user_id() == user_id@,
            r.spec_roles() == roles@.map_values(|s: String| s@),
            r.spec_issued_at() == issued_at,
    {
        UserSession { session_id, user_id: user_id.to_owned(), roles, issued_at }
    }

    /// The session's id.
    pub fn session_id(&self) -> (r: &SessionId)
        ensures
            r@ == self.spec_session_id(),
    {
        &self.session_id
    }

    /// The user's id.
    pub fn user_id(&self) -> (r: &str)
        ensures
            r@ == self.spec_user_id(),
    {
        self.user_id.as_str()
    }

    /// The user's roles.
    pub fn roles(&self) -> (r: &Vec<String>)
        ensures
            r@.map_values(|s: String| s@) == self.spec_roles(),
    {
        &self.roles
    }

    /// When the session was created.
    pub fn issued_at(&self) -> (r: u64)
        ensures
            r == self.spec_issued_at(),
    {
        self.issued_at
    }
}

} // verus!
