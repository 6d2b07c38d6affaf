//! Errors of the ADTS parser.

use vstd::prelude::*;
use crate::text::{digits, digits_text};

verus! {

/// Errors of the ADTS parser.
#[derive(Debug, Clone, Copy, PartialEq, Eq, Structural)]
pub enum Error {
    DataTooShort,
    /// The first twelve bits are not `0xFFF`.
    InvalidSyncword(u16),
    /// The two layer bits are not `00`.
    InvalidLayer(u8),
}

impl Error {
    /// The text of the error.
    pub open spec fn text(self) -> Seq<char> {
        match self {
            Error::DataTooShort => "ADTS data too short"@,
            Error::InvalidSyncword(v) => "Invalid Syncword: expected 0xFFF, got 0x"@ + digits(v as nat, 16, 3),
            Error::InvalidLayer(v) => "Invalid Layer: expected 0b00, got 0b"@ + digits(v as nat, 2, 2),
        }
    }

    /// A human-readable description of the error.
    pub fn message(&self) -> (r: String)
        ensures
            r@ == self.text(),
    {
        match self {
            Error::DataTooShort => String::from_str("ADTS data too short"),
            Error::InvalidSyncword(v) => digits_text("Invalid Syncword: expected 0xFFF, got 0x", *v as u64, 16, 3),
            Error::InvalidLayer(v) => digits_text("Invalid Layer: expected 0b00, got 0b", *v as u64, 2, 2),
        }
    }
}

} // verus!
