//! Validated passwords and the credential verifier.
//!
//! A password is acceptable when its trimmed form is between 10 and 256
//! bytes long. Hashing and verification are done by the `argon2` crate
//! (a memory-hard KDF) behind trusted wrappers; the verifier's verdict
//! on a password and a hash string is named [`argon2_check`].

use argon2::password_hash::rand_core::OsRng;
use argon2::password_hash::SaltString;
use argon2::{Argon2, PasswordHash, PasswordHasher, PasswordVerifier};
use vstd::prelude::*;

use crate::errors::{AuthError, FieldViolations};
use crate::strutil::{trim, trim_spec, utf8_len};

verus! {

/// What argon2 decides about a password and a stored hash string:
/// `None` when the hash string cannot be used (malformed, or carrying
/// parameters the verifier rejects), otherwise `Some` of the match
/// verdict. The verdict is a function of the two strings alone.
pub uninterp spec fn argon2_check(pw: Seq<char>, hash: Seq<char>) -> Option<bool>;

/// Relies on argon2's `PasswordHasher::hash_password` with a fresh
/// random salt: whatever hash string it produces verifies against the
/// password that was hashed.
#[verifier::external_body]
fn argon2_hash(pw: &str) -> (r: Result<String, AuthError>)
    ensures
        r matches Ok(h) ==> argon2_check(pw@, h@) == Some(true),
        r matches Err(e) ==> e is StorageError,
{
    let salt = SaltString::generate(&mut OsRng);
    match Argon2::default().hash_password(pw.as_bytes(), &salt) {
        Ok(h) => Ok(h.to_string()),
        Err(_) => Err(AuthError::StorageError),
    }
}

/// Relies on argon2's `PasswordVerifier::verify_password` and on
/// `PasswordHash::new`: parsing rejects a malformed hash string, and
/// the verdict on a parsed hash is recomputed deterministically from
/// the password and the hash string's own salt and parameters.
#[verifier::external_body]
fn argon2_verify(pw: &str, hash: &str) -> (r: Result<bool, AuthError>)
    ensures
        r matches Ok(b) ==> argon2_check(pw@, hash@) == Some(b),
        r is Err ==> argon2_check(pw@, hash@) is None,
        r matches Err(e) ==> e is HashFormatError,
{
    let parsed = match PasswordHash::new(hash) {
        Ok(p) => p,
        Err(_) => return Err(AuthError::HashFormatError),
    };
    match Argon2::default().verify_password(pw.as_bytes(), &parsed) {
        Ok(()) => Ok(true),
        Err(argon2::password_hash::Error::Password) => Ok(false),
        Err(_) => Err(AuthError::HashFormatError),
    }
}

/// Whether a raw password is acceptable: its trimmed form is at least
/// 10 and at most 256 bytes long. (A whitespace-only string trims to
/// nothing and so is rejected.)
pub open spec fn password_ok(s: Seq<char>) -> bool {
    10 <= utf8_len(trim_spec(s)) <= 256
}

/// A password that satisfied [`password_ok`] when it was parsed; it
/// holds the trimmed form.
///
/// The type derives neither `Debug` nor `PartialEq`, so the plaintext
/// is neither logged by formatting nor compared directly.
#[derive(Clone)]
pub struct Password(String);

impl View for Password {
    type V = Seq<char>;

    closed spec fn view(&self) -> Seq<char> {
        self.0@
    }
}

impl Password {
    /// Accepts exactly the strings of [`password_ok`] and keeps their
    /// trimmed form.
    pub fn new(s: &str) -> (r: Result<Password, AuthError>)
        ensures
            password_ok(s@) ==> (r matches Ok(p) && p@ == trim_spec(s@)),
            !password_ok(s@) ==> r == Err::<Password, AuthError>(
                AuthError::ValidationError(
                    FieldViolations { name: false, email: false, password: true },
                ),
            ),
    {
        let trimmed = trim(s);
        let n = trimmed.len();
        if n < 10 || n > 256 {
            Err(
                AuthError::ValidationError(
                    FieldViolations { name: false, email: false, password: true },
                ),
            )
        } else {
            Ok(Password(trimmed.to_owned()))
        }
    }

    /// The plaintext as a string slice, for handing to the hasher.
    pub fn expose(&self) -> (r: &str)
        ensures
            r@ == self@,
    {
        self.0.as_str()
    }

    /// Hashes the password with a fresh random salt.
    ///
    /// Every hash string this returns verifies against the password;
    /// nothing more is promised of it, as the salt is random.
    pub fn hash(&self) -> (r: Result<String, AuthError>)
        ensures
            r matches Ok(h) ==> argon2_check(self@, h@) == Some(true),
            r matches Err(e) ==> e is StorageError,
    {
        argon2_hash(self.0.as_str())
    }

    /// Verifies the password against a stored hash string.
    ///
    /// A mismatch is `Ok(false)`; `Err` is kept for a hash string the
    /// verifier cannot use at all.
    pub fn match_hash(&self, hash: &str) -> (r: Result<bool, AuthError>)
        ensures
            r matches Ok(b) ==> argon2_check(self@, hash@) == Some(b),
            r matches Err(e) ==> e is HashFormatError && argon2_check(self@, hash@) is None,
            argon2_check(self@, hash@) is Some ==> r == Ok::<bool, AuthError>(
                argon2_check(self@, hash@).unwrap(),
            ),
    {
        argon2_verify(self.0.as_str(), hash)
    }
}

/// A string of nothing but whitespace is never an acceptable password:
/// it trims to nothing, far below the 10-byte minimum.
pub proof fn lemma_whitespace_only_password_rejected(s: Seq<char>)
    requires
        forall|i: int|
            0 <= i < s.len() ==> crate::strutil::is_unicode_whitespace(#[trigger] s[i]),
    ensures
        !password_ok(s),
{
    crate::strutil::lemma_trim_all_whitespace(s);
}

/// A string of fewer than 10 bytes is never an acceptable password:
/// trimming cannot lengthen it.
pub proof fn lemma_short_password_rejected(s: Seq<char>)
    requires
        utf8_len(s) < 10,
    ensures
        !password_ok(s),
{
    crate::strutil::lemma_utf8_len_trim(s);
}

/// Sixty-four characters of four-byte scalars are an acceptable
/// password: none of them is whitespace, so nothing trims away, and
/// they encode to exactly 256 bytes.
pub proof fn lemma_wide_password_accepted(s: Seq<char>)
    requires
        s.len() == 64,
        forall|i: int| 0 <= i < s.len() ==> ((#[trigger] s[i]) as u32) >= 0x10000,
    ensures
        password_ok(s),
{
    assert(!crate::strutil::is_unicode_whitespace(s[0]));
    assert(!crate::strutil::is_unicode_whitespace(s.last()));
    crate::strutil::lemma_trim_no_whitespace_ends(s);
    crate::strutil::lemma_utf8_len_wide(s);
}

impl core::str::FromStr for Password {
    type Err = AuthError;

    fn from_str(s: &str) -> Result<Password, AuthError> {
        Password::new(s)
    }
}

} // verus!
