use vstd::prelude::*;
use vstd::string::StrSliceExecFns;

verus! {

/// A symbol domain: a compile-time marker that selects the validation
/// policy governing which contents may become symbols of that domain.
///
/// Implementing this trait for a marker type `V` makes `Symbol<V>` a
/// distinct symbol type: `Symbol<V1>` and `Symbol<V2>` are incompatible
/// types even when they wrap identical content.
pub trait Validator {
    /// The domain's own error type, reported when content is rejected.
    type Err;

    /// The contents this domain accepts.
    spec fn accepts(s: Seq<char>) -> bool;

    /// Checks `s` against the domain's policy, before any interning
    /// decision is made. Returns `Ok` exactly on accepted content.
    fn validate_symbol(s: &str) -> (r: Result<(), Self::Err>)
        ensures
            r is Ok <==> Self::accepts(s@),
    ;
}

/// A domain that accepts arbitrary content.
#[derive(Debug, Hash, PartialEq, Eq, PartialOrd, Ord)]
pub struct AnyString;

impl Validator for AnyString {
    type Err = ();

    open spec fn accepts(s: Seq<char>) -> bool {
        true
    }

    fn validate_symbol(s: &str) -> (r: Result<(), ()>) {
        Ok(())
    }
}

/// The error of [`AlphaNumString`]: the content holds a character that is
/// not an ASCII letter or digit.
#[derive(Clone, Copy, Debug, PartialEq, Eq)]
pub struct NotAlphaNumeric;

/// A character counted as alphanumeric by [`AlphaNumString`]: an ASCII
/// letter or digit.
pub open spec fn is_alphanumeric_char(c: char) -> bool {
    ||| 'a' <= c <= 'z'
    ||| 'A' <= c <= 'Z'
    ||| '0' <= c <= '9'
}

/// A domain that accepts only content made of ASCII letters and digits.
#[derive(Debug, Hash, PartialEq, Eq, PartialOrd, Ord)]
pub struct AlphaNumString;

impl Validator for AlphaNumString {
    type Err = NotAlphaNumeric;

    open spec fn accepts(s: Seq<char>) -> bool {
        forall|i: int| 0 <= i < s.len() ==> is_alphanumeric_char(#[trigger] s[i])
    }

    fn validate_symbol(s: &str) -> (r: Result<(), NotAlphaNumeric>) {
        let n = s.unicode_len();
        let mut i: usize = 0;
        while i < n
            invariant
                n == s@.len(),
                i <= n,
                forall|j: int| 0 <= j < i ==> is_alphanumeric_char(#[trigger] s@[j]),
            decreases n - i,
        {
            let c = s.get_char(i);
            if !(('a' <= c && c <= 'z') || ('A' <= c && c <= 'Z') || ('0' <= c && c <= '9')) {
                return Err(NotAlphaNumeric);
            }
            i = i + 1;
        }
        Ok(())
    }
}

} // verus!
