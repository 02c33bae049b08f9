//! The `FromAscii` conversion trait.

use vstd::prelude::*;

verus! {

/// A trait to abstract the idea of creating a new instance of a type from an
/// ASCII byte slice.
///
/// It is a near clone of the standard `FromStr` trait, except that the input
/// is a raw byte slice rather than a `str`, so a caller can parse a field of
/// a binary buffer without validating it as text first. Each implementation
/// states exactly which byte sequences it accepts and what it returns on
/// them; parsing is a pure function of the bytes.
pub trait FromAscii: Sized {
    /// The associated error which can be returned from parsing.
    type Err;

    /// Parses the byte slice `s` to return a value of this type.
    ///
    /// If parsing succeeds, the value is returned inside `Ok`; otherwise,
    /// when the bytes are ill-formed for this type, an error specific to the
    /// implementation is returned inside `Err`.
    fn from_ascii(s: &[u8]) -> Result<Self, Self::Err>;
}

} // verus!
