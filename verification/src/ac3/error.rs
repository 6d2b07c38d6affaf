//! Errors of the AC-3 parser.

use vstd::prelude::*;
use crate::text::{digits, digits_text};

verus! {

/// Errors of the AC-3 parser.
#[derive(Debug, Clone, Copy, PartialEq, Eq)]
pub enum Error {
    DataTooShort,
    InvalidSyncword(u16),
    InvalidFrameSize,
    InvalidAcmod(u8),
    /// An internal inconsistency, with a description.
    InvalidState(&'static str),
    /// An error of the bit reader.
    Bitstream(crate::bitstream::Error),
}

impl Error {
    /// The text of the error.
    pub open spec fn text(self) -> Seq<char> {
        match self {
            Error::DataTooShort => "AC-3 data too short"@,
            Error::InvalidSyncword(v) => "Invalid syncword: expected 0x0B77, got 0x"@ + digits(v as nat, 16, 4),
            Error::InvalidFrameSize => "Invalid frame size"@,
            Error::InvalidAcmod(v) => "Invalid acmod: "@ + digits(v as nat, 10, 1),
            Error::InvalidState(m) => "Invalid state: "@ + m@,
            Error::Bitstream(e) => "Bitstream error: "@ + e.text(),
        }
    }

    /// A human-readable description of the error.
    pub fn message(&self) -> (r: String)
        ensures
            r@ == self.text(),
    {
        match self {
            Error::DataTooShort => String::from_str("AC-3 data too short"),
            Error::InvalidSyncword(v) => digits_text("Invalid syncword: expected 0x0B77, got 0x", *v as u64, 16, 4),
            Error::InvalidFrameSize => String::from_str("Invalid frame size"),
            Error::InvalidAcmod(v) => digits_text("Invalid acmod: ", *v as u64, 10, 1),
            Error::InvalidState(m) => {
                let mut s = String::from_str("Invalid state: ");
                s.append(m);
                s
            },
            Error::Bitstream(e) => {
                let mut s = String::from_str("Bitstream error: ");
                let t = e.message();
                s.append(t.as_str());
                s
            },
        }
    }
}

} // verus!
