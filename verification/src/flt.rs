//! The error type and input validation for parsing floating values.
//!
//! The decimal float grammar itself is the host platform's and is not
//! reproduced here; what this module owns is the validation owed before raw
//! bytes may be handed to it: the bytes must be 7-bit ASCII, never assumed
//! to be.

use vstd::prelude::*;

verus! {

/// The kind of failure met while parsing a floating value.
#[derive(Debug, Clone, Copy, PartialEq, Eq, Structural)]
pub enum FloatErrorKind {
    /// The bytes were valid ASCII but not a well-formed decimal float.
    FloatErrorKind,
    /// A byte outside 7-bit ASCII was found before parsing began.
    InvalidAsciiInput,
}

/// An error returned when parsing a floating value from an ASCII byte slice
/// fails. Its view is the `FloatErrorKind` it carries.
#[derive(Debug, Clone, Copy, PartialEq, Eq, Structural)]
pub struct ParseFloatError {
    kind: FloatErrorKind,
}

impl View for ParseFloatError {
    type V = FloatErrorKind;

    closed spec fn view(&self) -> FloatErrorKind {
        self.kind
    }
}

impl ParseFloatError {
    /// An error of the given kind.
    pub fn new(kind: FloatErrorKind) -> (r: ParseFloatError)
        ensures
            r@ == kind,
    {
        ParseFloatError { kind }
    }

    /// The kind of failure this error reports.
    pub fn kind(&self) -> (k: FloatErrorKind)
        ensures
            k == self@,
    {
        self.kind
    }

    /// A short description of the failure.
    pub fn description(&self) -> (r: &'static str)
        ensures
            r@ == "failed to parse float"@,
    {
        "failed to parse float"
    }
}

/// Every byte of `s` is 7-bit ASCII.
pub open spec fn spec_all_ascii(s: Seq<u8>) -> bool {
    forall|i: int| 0 <= i < s.len() ==> s[i] < 128
}

/// Checks that every byte of `s` is 7-bit ASCII: the validation that must
/// succeed before the bytes may be handed to the platform's decimal float
/// grammar.
pub fn check_ascii(s: &[u8]) -> (r: Result<(), ParseFloatError>)
    ensures
        r is Ok <==> spec_all_ascii(s@),
        (match r {
            Ok(u) => true,
            Err(e) => e@ == FloatErrorKind::InvalidAsciiInput,
        }),
{
    let n: usize = s.len();
    let mut i: usize = 0;
    while i < n
        invariant
            0 <= i <= n,
            n == s@.len(),
            forall|j: int| 0 <= j < i ==> s@[j] < 128,
        decreases n - i,
    {
        if s[i] >= 128 {
            return Err(ParseFloatError { kind: FloatErrorKind::InvalidAsciiInput });
        }
        i = i + 1;
    }
    Ok(())
}

} // verus!
