//! Errors of the H.265 parsers.

use vstd::prelude::*;
use crate::text::{digits, digits_text};

verus! {

/// Errors of the H.265 parsers.
#[derive(Debug, Clone, Copy, PartialEq, Eq, Structural)]
pub enum Error {
    DataTooShort,
    InvalidForbiddenZeroBit,
    /// A stream entry does not begin with a start code (its first four bytes).
    InvalidStartCode(u32),
    /// An access unit delimiter holds a `pic_type` above 2.
    InvalidPicType(u8),
    /// An access unit delimiter's byte does not end with the stop bit and
    /// four zero bits.
    InvalidTrailingBits,
}

impl Error {
    /// The text of the error.
    pub open spec fn text(self) -> Seq<char> {
        match self {
            Error::DataTooShort => "Data too short"@,
            Error::InvalidForbiddenZeroBit => "Invalid forbidden_zero_bit value"@,
            Error::InvalidStartCode(v) => "Invalid start code: got 0x"@ + digits(v as nat, 16, 8),
            Error::InvalidPicType(v) => "Invalid pic_type: "@ + digits(v as nat, 10, 1),
            Error::InvalidTrailingBits => "Invalid trailing bits"@,
        }
    }

    /// A human-readable description of the error.
    pub fn message(&self) -> (r: String)
        ensures
            r@ == self.text(),
    {
        match self {
            Error::DataTooShort => String::from_str("Data too short"),
            Error::InvalidForbiddenZeroBit => String::from_str("Invalid forbidden_zero_bit value"),
            Error::InvalidStartCode(v) => digits_text("Invalid start code: got 0x", *v as u64, 16, 8),
            Error::InvalidPicType(v) => digits_text("Invalid pic_type: ", *v as u64, 10, 1),
            Error::InvalidTrailingBits => String::from_str("Invalid trailing bits"),
        }
    }
}

} // verus!
