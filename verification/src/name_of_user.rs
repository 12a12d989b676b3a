//! Validated user names: trimmed, non-empty, bounded, free of control
//! characters.

use vstd::prelude::*;

use crate::errors::{AuthError, FieldViolations};
use crate::strutil::{chars_vec, is_control_char, trim, trim_spec, utf8_len};

verus! {

/// Whether a raw name is acceptable: after trimming it is non-empty, at
/// most 265 bytes long, and contains no control character.
pub open spec fn name_ok(s: Seq<char>) -> bool {
    let t = trim_spec(s);
    &&& t.len() > 0
    &&& utf8_len(t) <= 265
    &&& forall|i: int| 0 <= i < t.len() ==> !is_control_char(#[trigger] t[i])
}

/// A user name that satisfied [`name_ok`] when it was parsed; it holds
/// the trimmed form.
#[derive(Clone, Debug, PartialEq, Eq)]
pub struct NameOfUser(String);

impl View for NameOfUser {
    type V = Seq<char>;

    closed spec fn view(&self) -> Seq<char> {
        self.0@
    }
}

impl NameOfUser {
    /// Accepts exactly the strings of [`name_ok`] and keeps their
    /// trimmed form.
    pub fn new(s: &str) -> (r: Result<NameOfUser, AuthError>)
        ensures
            name_ok(s@) ==> (r matches Ok(n) && n@ == trim_spec(s@)),
            !name_ok(s@) ==> r == Err::<NameOfUser, AuthError>(
                AuthError::ValidationError(
                    FieldViolations { name: true, email: false, password: false },
                ),
            ),
    {
        let trimmed = trim(s);
        if trimmed.is_empty() || trimmed.len() > 265 {
            return Err(
                AuthError::ValidationError(
                    FieldViolations { name: true, email: false, password: false },
                ),
            );
        }
        let cs = chars_vec(trimmed);
        let n = cs.len();
        let mut i: usize = 0;
        while i < n
            invariant
                n == cs.len(),
                cs@ == trim_spec(s@),
                i <= n,
                forall|j: int| 0 <= j < i ==> !is_control_char(#[trigger] cs@[j]),
            decreases n - i,
        {
            let c = cs[i];
            if c <= '\u{1f}' || ('\u{7f}' <= c && c <= '\u{9f}') {
                return Err(
                    AuthError::ValidationError(
                        FieldViolations { name: true, email: false, password: false },
                    ),
                );
            }
            i += 1;
        }
        Ok(NameOfUser(trimmed.to_owned()))
    }

    /// The name as a string slice.
    pub fn as_str(&self) -> (r: &str)
        ensures
            r@ == self@,
    {
        self.0.as_str()
    }

    /// Unwraps the name into the plain string it holds.
    pub fn into_inner(self) -> (r: String)
        ensures
            r@ == self@,
    {
        self.0
    }
}

impl core::str::FromStr for NameOfUser {
    type Err = AuthError;

    fn from_str(s: &str) -> Result<NameOfUser, AuthError> {
        NameOfUser::new(s)
    }
}

} // verus!
