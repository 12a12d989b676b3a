//! The error taxonomy of the authentication subsystem.
//!
//! Client errors name a condition the caller can fix; the two server
//! errors (`StorageError`, `HashFormatError`) stand for unexpected
//! failures of the backing stores or of a stored credential record.

use vstd::prelude::*;

verus! {

/// Which fields of a registration request failed validation.
///
/// Every flag that is set names a violated field.
#[derive(Debug, PartialEq, Eq, Clone, Copy)]
pub struct FieldViolations {
    /// The user name is empty, too long, or contains control characters.
    pub name: bool,
    /// The email address does not satisfy the email grammar.
    pub email: bool,
    /// The password is shorter than 10 or longer than 256 bytes once trimmed.
    pub password: bool,
}

/// Everything a fallible operation of this crate can report.
#[derive(Debug, PartialEq, Eq)]
pub enum AuthError {
    /// An email or user id does not map to any user.
    UserNotFound,
    /// The password does not match the stored credential record.
    InvalidCredentials,
    /// A session id does not map to any live session.
    InvalidSession,
    /// An operation required a session but the request carried none.
    NotLoggedIn,
    /// The session header was present but not of the form `Bearer <token>`.
    MalformedSessionHeader,
    /// A reset token does not map to any outstanding reset request.
    TokenNotFound,
    /// One or more fields of a registration request are invalid.
    ValidationError(FieldViolations),
    /// The user has no passkeys, so a passkey ceremony cannot start.
    NoPasskeysRegistered,
    /// A WebAuthn ceremony step failed to verify.
    WebauthnProtocolError,
    /// Required session data under the given path is absent.
    MissingData(String),
    /// The backing store rejected or could not perform an operation.
    StorageError,
    /// A stored password hash is not a well-formed hash string.
    HashFormatError,
}

/// What a session-data backend's error type must be able to express.
pub trait Error: Sized {
    /// The request carried no session at all.
    fn no_session() -> Self;

    /// The session exists but holds no data under `path`.
    fn missing_data(path: &str) -> Self;
}

impl Error for AuthError {
    fn no_session() -> (r: Self)
        ensures
            r is NotLoggedIn,
    {
        AuthError::NotLoggedIn
    }

    fn missing_data(path: &str) -> (r: Self)
        ensures
            r matches AuthError::MissingData(p) && p@ == path@,
    {
        AuthError::MissingData(path.to_owned())
    }
}

} // verus!
