//! Parsing of primitive values directly from ASCII byte slices.
//!
//! This crate provides two traits: `FromAscii`, which creates instances of a
//! type from an ASCII byte slice (`&[u8]`), and `FromAsciiRadix`, which
//! creates integral values interpreted under a given radix (2 to 36).
//! Every parse is a pure function of the bytes it is given: the contracts
//! pin the result, success and error alike, to a mathematical description
//! of the input.

pub mod base;
pub mod boolean;
pub mod flt;
pub mod num;

pub use base::FromAscii;
pub use boolean::ParseBoolError;
pub use flt::{FloatErrorKind, ParseFloatError, check_ascii};
pub use num::{FromAsciiRadix, IntErrorKind, ParseIntError, dec_to_digit};
