use vstd::prelude::*;
use crate::message::SessionId;

verus! {

#[derive(Clone, Copy, Debug, PartialEq, Eq, Structural)]
pub enum AuthError {
    /// The greeting does not name a session.
    Malformed,
}

/// The value of the UUID written in `s`, if `s` is one in a form that the
/// `uuid` crate reads (simple, hyphenated, urn or braced).
pub uninterp spec fn uuid_value(s: Seq<char>) -> Option<u128>;

/// Relies on `uuid::Uuid::parse_str`, for the UUID's value as a `u128`
/// (`Uuid::as_u128`); the outcome depends on the text alone.
#[verifier::external_body]
fn parse_uuid(s: &str) -> (r: Option<u128>)
    ensures
        r == uuid_value(s@),
{
    match uuid::Uuid::parse_str(s) {
        Ok(u) => Some(u.as_u128()),
        Err(_) => None,
    }
}

/// The session that a parsed greeting names.
pub fn session_of(parsed: Option<u128>) -> (r: Result<SessionId, AuthError>)
    ensures
        match parsed {
            Some(v) => r == Ok::<SessionId, AuthError>(SessionId { value: v }),
            None => r == Err::<SessionId, AuthError>(AuthError::Malformed),
        },
{
    match parsed {
        Some(v) => Ok(SessionId::new(v)),
        None => Err(AuthError::Malformed),
    }
}

/// Reads the session a client names in its greeting: a UUID in text.
pub fn authenticate(greeting: &str) -> (r: Result<SessionId, AuthError>)
    ensures
        match uuid_value(greeting@) {
            Some(v) => r == Ok::<SessionId, AuthError>(SessionId { value: v }),
            None => r == Err::<SessionId, AuthError>(AuthError::Malformed),
        },
{
    session_of(parse_uuid(greeting))
}

} // verus!
