//! Validated email addresses.
//!
//! Acceptance is decided by the `validator` crate's HTML5 email check;
//! the contracts name its verdict [`email_ok`] and state the rejections
//! that its grammar plainly forces.

use vstd::prelude::*;

use crate::errors::{AuthError, FieldViolations};

verus! {

/// Whether `validator::validate_email` accepts the string: the common
/// email grammar (`local-part@domain`, HTML5 form).
pub uninterp spec fn email_ok(s: Seq<char>) -> bool;

/// Relies on `validator::validate_email`: the verdict is a function of
/// the characters alone; the empty string, a string without `@`, a
/// string whose local part is empty, and a string whose domain part is
/// empty are all rejected.
#[verifier::external_body]
fn validate_email_str(s: &str) -> (r: bool)
    ensures
        r == email_ok(s@),
        s@.len() == 0 ==> !r,
        (forall|i: int| 0 <= i < s@.len() ==> s@[i] != '@') ==> !r,
        s@.len() > 0 && s@[0] == '@' ==> !r,
        s@.len() > 0 && s@[s@.len() - 1] == '@' ==> !r,
{
    validator::validate_email(s)
}

/// An email address that satisfied [`email_ok`] when it was parsed.
///
/// Parsing is the only public way to build one from raw input; values
/// read back from the durable store are wrapped as they are, as the
/// store only ever receives parsed addresses.
#[derive(Clone, Debug, PartialEq, Eq)]
pub struct EMail(String);

impl View for EMail {
    type V = Seq<char>;

    closed spec fn view(&self) -> Seq<char> {
        self.0@
    }
}

impl EMail {
    /// Accepts exactly the strings of the email grammar. The last four
    /// clauses surface the grammar's plain rejections: the empty
    /// string, a string without `@`, and a string whose local part or
    /// domain part is empty never pass.
    pub fn new(s: &str) -> (r: Result<EMail, AuthError>)
        ensures
            email_ok(s@) ==> (r matches Ok(e) && e@ == s@),
            !email_ok(s@) ==> r == Err::<EMail, AuthError>(
                AuthError::ValidationError(
                    FieldViolations { name: false, email: true, password: false },
                ),
            ),
            s@.len() == 0 ==> r is Err,
            (forall|i: int| 0 <= i < s@.len() ==> s@[i] != '@') ==> r is Err,
            s@.len() > 0 && s@[0] == '@' ==> r is Err,
            s@.len() > 0 && s@[s@.len() - 1] == '@' ==> r is Err,
    {
        if validate_email_str(s) {
            Ok(EMail(s.to_owned()))
        } else {
            Err(
                AuthError::ValidationError(
                    FieldViolations { name: false, email: true, password: false },
                ),
            )
        }
    }

    /// The address as the plain string it holds.
    pub fn as_string(&self) -> (r: &String)
        ensures
            r@ == self@,
    {
        &self.0
    }

    /// The address as a string slice.
    pub fn as_str(&self) -> (r: &str)
        ensures
            r@ == self@,
    {
        self.0.as_str()
    }

    /// Unwraps the address into the plain string it holds.
    pub fn into_inner(self) -> (r: String)
        ensures
            r@ == self@,
    {
        self.0
    }

    /// Wraps an address that the durable store handed back.
    pub fn from_stored(s: String) -> (r: EMail)
        ensures
            r@ == s@,
    {
        EMail(s)
    }
}

impl core::str::FromStr for EMail {
    type Err = AuthError;

    fn from_str(s: &str) -> Result<EMail, AuthError> {
        EMail::new(s)
    }
}

} // verus!
