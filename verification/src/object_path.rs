//! Hierarchical object-path strings, wire signature `o`.
//!
//! A path is `/` alone, or a `/`-led sequence of non-empty elements made of
//! ASCII letters, digits and underscores, with no trailing separator.  The
//! predicate is checked on construction and again on decode.

use crate::error::Error;
use vstd::prelude::*;
use vstd::string::*;

verus! {

/// A character allowed inside a path element.
pub open spec fn is_path_elem_char(c: char) -> bool {
    ('a' <= c && c <= 'z') || ('A' <= c && c <= 'Z') || ('0' <= c && c <= '9') || c == '_'
}

/// Well-formedness of an object-path string.
pub open spec fn is_valid_path(s: Seq<char>) -> bool {
    &&& s.len() >= 1
    &&& s[0] == '/'
    &&& forall|i: int| 1 <= i < s.len() ==> is_path_elem_char(#[trigger] s[i]) || s[i] == '/'
    &&& forall|i: int| 1 <= i < s.len() ==> (#[trigger] s[i] == '/' ==> s[i - 1] != '/')
    &&& (s.len() == 1 || s[s.len() - 1] != '/')
}

/// Whether a character may appear inside a path element.
pub fn path_elem_char(c: char) -> (r: bool)
    ensures
        r == is_path_elem_char(c),
{
    ('a' <= c && c <= 'z') || ('A' <= c && c <= 'Z') || ('0' <= c && c <= '9') || c == '_'
}

/// Checks the object-path predicate on a string.
#[verifier::loop_isolation(false)]
pub fn path_is_valid(s: &str) -> (r: bool)
    ensures
        r == is_valid_path(s@),
{
    let n = s.unicode_len();
    if n == 0 {
        return false;
    }
    if s.get_char(0) != '/' {
        return false;
    }
    let mut i: usize = 1;
    while i < n
        invariant
            1 <= i <= n,
            forall|k: int| 1 <= k < i ==> is_path_elem_char(#[trigger] s@[k]) || s@[k] == '/',
            forall|k: int| 1 <= k < i ==> (#[trigger] s@[k] == '/' ==> s@[k - 1] != '/'),
        decreases n - i,
    {
        let c = s.get_char(i);
        if !path_elem_char(c) && c != '/' {
            return false;
        }
        if c == '/' && s.get_char(i - 1) == '/' {
            return false;
        }
        i += 1;
    }
    if n > 1 && s.get_char(n - 1) == '/' {
        return false;
    }
    true
}

/// Wrapper type for strings that satisfy the object-path predicate; its
/// wire signature is `o`.
#[derive(Debug, PartialEq, Eq)]
pub struct ObjectPath {
    inner: String,
}

impl View for ObjectPath {
    type V = Seq<char>;

    closed spec fn view(&self) -> Seq<char> {
        self.inner@
    }
}

impl ObjectPath {
    /// The contained string always satisfies the path predicate.
    pub open spec fn wf(self) -> bool {
        is_valid_path(self@)
    }

    /// Validates `s` and wraps it.  Returns the string that failed when the
    /// predicate does not hold.
    pub fn new(s: &str) -> (r: Result<ObjectPath, Error>)
        ensures
            is_valid_path(s@) <==> r is Ok,
            r is Ok ==> r->Ok_0@ == s@ && r->Ok_0.wf(),
            r is Err ==> r->Err_0@ == crate::error::ErrorV::ValidationFailure(s@),
    {
        if path_is_valid(s) {
            Ok(ObjectPath { inner: s.to_owned() })
        } else {
            Err(Error::ValidationFailure(s.to_owned()))
        }
    }

    /// The path as a plain string slice.
    pub fn as_str(&self) -> (r: &str)
        ensures
            r@ == self@,
    {
        self.inner.as_str()
    }
}

} // verus!
