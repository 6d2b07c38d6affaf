//! Errors of sample encryption.

use vstd::prelude::*;
use crate::text::{digits, digits_text, push_digits};

verus! {

/// Errors of sample encryption.
#[derive(Debug, Clone, Copy, PartialEq, Eq, Structural)]
pub enum Error {
    /// The subsample sizes do not add up to the buffer length.
    SubsampleByteMismatch { expected: usize, actual: usize },
    SencEntryTooLarge(usize),
    /// A NAL length prefix or body runs past the end of the sample.
    TruncatedNal,
    /// A NAL length prefix of zero.
    ZeroLengthNal,
    /// An avcC length size other than 1, 2 or 4.
    InvalidLengthSize(u8),
    /// The slice header of a VCL NAL unit could not be parsed.
    SliceHeaderParseFailed,
    NoMoov,
    NoEncryptableTrack,
    NoMoof,
    NoMdatAfterMoof,
    MissingAvcc,
    MissingSampleSize,
    SampleOutOfBounds { end: usize, mdat_len: usize },
    SaioFixupFailed,
}

impl Error {
    /// The text of the error.
    pub open spec fn text(self) -> Seq<char> {
        match self {
            Error::SubsampleByteMismatch { expected, actual } => "subsample byte total ("@ + digits(actual as nat, 10, 1) + ") does not match buffer length ("@ + digits(expected as nat, 10, 1) + ")"@,
            Error::SencEntryTooLarge(n) => "senc entry size "@ + digits(n as nat, 10, 1) + " exceeds the saiz u8 limit"@,
            Error::TruncatedNal => "NAL length prefix or body truncated"@,
            Error::ZeroLengthNal => "encountered a zero-length NAL unit"@,
            Error::InvalidLengthSize(v) => "invalid avcC length size "@ + digits(v as nat, 10, 1) + " (expected 1, 2, or 4)"@,
            Error::SliceHeaderParseFailed => "failed to parse a VCL NAL slice header (need valid SPS/PPS)"@,
            Error::NoMoov => "moov box not found"@,
            Error::NoEncryptableTrack => "moov has no encryptable track"@,
            Error::NoMoof => "moof box not found"@,
            Error::NoMdatAfterMoof => "moof not followed by mdat in media segment"@,
            Error::MissingAvcc => "AVC track missing avcC configuration"@,
            Error::MissingSampleSize => "could not determine trun sample size"@,
            Error::SampleOutOfBounds { end, mdat_len } => "sample end "@ + digits(end as nat, 10, 1) + " exceeds mdat length "@ + digits(mdat_len as nat, 10, 1),
            Error::SaioFixupFailed => "saio offset fixup could not locate senc"@,
        }
    }

    /// A human-readable description of the error.
    pub fn message(&self) -> (r: String)
        ensures
            r@ == self.text(),
    {
        match self {
            Error::SubsampleByteMismatch { expected, actual } => {
                let mut s = digits_text("subsample byte total (", *actual as u64, 10, 1);
                s.append(") does not match buffer length (");
                push_digits(&mut s, *expected as u64, 10, 1);
                s.append(")");
                s
            },
            Error::SencEntryTooLarge(n) => {
                let mut s = digits_text("senc entry size ", *n as u64, 10, 1);
                s.append(" exceeds the saiz u8 limit");
                s
            },
            Error::TruncatedNal => String::from_str("NAL length prefix or body truncated"),
            Error::ZeroLengthNal => String::from_str("encountered a zero-length NAL unit"),
            Error::InvalidLengthSize(v) => {
                let mut s = digits_text("invalid avcC length size ", *v as u64, 10, 1);
                s.append(" (expected 1, 2, or 4)");
                s
            },
            Error::SliceHeaderParseFailed => String::from_str("failed to parse a VCL NAL slice header (need valid SPS/PPS)"),
            Error::NoMoov => String::from_str("moov box not found"),
            Error::NoEncryptableTrack => String::from_str("moov has no encryptable track"),
            Error::NoMoof => String::from_str("moof box not found"),
            Error::NoMdatAfterMoof => String::from_str("moof not followed by mdat in media segment"),
            Error::MissingAvcc => String::from_str("AVC track missing avcC configuration"),
            Error::MissingSampleSize => String::from_str("could not determine trun sample size"),
            Error::SampleOutOfBounds { end, mdat_len } => {
                let mut s = digits_text("sample end ", *end as u64, 10, 1);
                s.append(" exceeds mdat length ");
                push_digits(&mut s, *mdat_len as u64, 10, 1);
                s
            },
            Error::SaioFixupFailed => String::from_str("saio offset fixup could not locate senc"),
        }
    }
}

} // verus!
