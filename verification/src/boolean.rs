//! Parsing `bool` from ASCII bytes.

use vstd::prelude::*;

use crate::base::FromAscii;

verus! {

/// The exact byte sequence `true`, the only spelling accepted for `true`.
pub open spec fn spec_true_bytes() -> Seq<u8> {
    seq![116u8, 114u8, 117u8, 101u8]
}

/// The exact byte sequence `false`, the only spelling accepted for `false`.
pub open spec fn spec_false_bytes() -> Seq<u8> {
    seq![102u8, 97u8, 108u8, 115u8, 101u8]
}

/// An error returned when parsing a `bool` from an ASCII byte slice fails.
#[derive(Debug, Clone, Copy, PartialEq, Eq, Structural)]
pub struct ParseBoolError {
    kind: BoolErrorKind,
}

#[derive(Debug, Clone, Copy, PartialEq, Eq, Structural)]
enum BoolErrorKind {
    BoolErrorKind,
}

impl ParseBoolError {
    /// A short description of the failure.
    pub fn description(&self) -> (r: &'static str)
        ensures
            r@ == "failed to parse bool"@,
    {
        "failed to parse bool"
    }
}

impl FromAscii for bool {
    type Err = ParseBoolError;

    /// Accepts exactly the byte sequences `true` and `false`: no case
    /// folding, no surrounding whitespace, no partial matches. Every other
    /// input fails.
    fn from_ascii(s: &[u8]) -> (r: Result<bool, ParseBoolError>)
        ensures
            s@ == spec_true_bytes() ==> r == Ok::<bool, ParseBoolError>(true),
            s@ == spec_false_bytes() ==> r == Ok::<bool, ParseBoolError>(false),
            r is Err <==> (s@ != spec_true_bytes() && s@ != spec_false_bytes()),
    {
        if s.len() == 4 && s[0] == 116u8 && s[1] == 114u8 && s[2] == 117u8 && s[3] == 101u8 {
            proof {
                assert(s@ =~= spec_true_bytes());
            }
            Ok(true)
        } else if s.len() == 5 && s[0] == 102u8 && s[1] == 97u8 && s[2] == 108u8 && s[3] == 115u8
            && s[4] == 101u8 {
            proof {
                assert(s@ =~= spec_false_bytes());
            }
            Ok(false)
        } else {
            Err(ParseBoolError { kind: BoolErrorKind::BoolErrorKind })
        }
    }
}

} // verus!
