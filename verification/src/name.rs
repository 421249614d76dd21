//! The package name: a validated string consumed by the composite types of
//! this crate.

use vstd::prelude::*;
use vstd::string::StrSliceExecFns;

use crate::chars::{alnum_char, chars_of, is_alnum_char};
use crate::error::Error;

verus! {

/// True of the characters a package name may hold: letters, digits, and
/// `@`, `.`, `_`, `+`, `-`.
pub open spec fn is_name_char(c: char) -> bool {
    is_alnum_char(c) || c == '@' || c == '.' || c == '_' || c == '+' || c == '-'
}

/// A valid package name: non-empty, starting with a letter, a digit, `@`,
/// `_` or `+`, with every character in the name class.
pub open spec fn name_valid(s: Seq<char>) -> bool {
    s.len() > 0 && (is_alnum_char(s[0]) || s[0] == '@' || s[0] == '_' || s[0] == '+')
        && forall|i: int| 0 <= i < s.len() ==> is_name_char(#[trigger] s[i])
}

/// Executable test for [`is_name_char`].
fn name_char(c: char) -> (r: bool)
    ensures
        r == is_name_char(c),
{
    alnum_char(c) || c == '@' || c == '.' || c == '_' || c == '+' || c == '-'
}

/// The name of a package.
#[derive(Debug, PartialEq, Eq)]
pub struct Name {
    inner: String,
}

impl Name {
    #[verifier::type_invariant]
    spec fn type_inv(self) -> bool {
        name_valid(self.inner@)
    }

    /// Validates a package name.
    pub fn new(name: String) -> (r: Result<Self, Error>)
        ensures
            (match r {
                Ok(n) => name_valid(name@) && n@ == name@,
                Err(e) => !name_valid(name@) && e == Error::InvalidName,
            }),
    {
        let v = chars_of(name.as_str());
        if v.len() == 0 {
            return Err(Error::InvalidName);
        }
        let c0 = v[0];
        if !(alnum_char(c0) || c0 == '@' || c0 == '_' || c0 == '+') {
            return Err(Error::InvalidName);
        }
        let mut i: usize = 0;
        while i < v.len()
            invariant
                i <= v@.len(),
                v@ == name@,
                forall|k: int| 0 <= k < i ==> is_name_char(#[trigger] v@[k]),
            decreases v@.len() - i,
        {
            if !name_char(v[i]) {
                return Err(Error::InvalidName);
            }
            i = i + 1;
        }
        Ok(Name { inner: name })
    }

    /// The name text.
    pub fn as_str(&self) -> (r: &str)
        ensures
            r@ == self@,
    {
        self.inner.as_str()
    }
}

impl View for Name {
    type V = Seq<char>;

    closed spec fn view(&self) -> Seq<char> {
        self.inner@
    }
}

} // verus!
