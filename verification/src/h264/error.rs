//! Errors of the H.264 parsers and serializers.

use vstd::prelude::*;
use crate::text::{digits, digits_text};
use crate::h264::slice_header::SliceType;

verus! {

/// Errors of the H.264 parsers and serializers. Every bit-reader error
/// (input exhausted, over-long Exp-Golomb code) is reported as `DataTooShort`.
#[derive(Debug, Clone, Copy, PartialEq, Eq, Structural)]
pub enum Error {
    InvalidForbiddenZeroBit,
    InvalidStartCode(u32),
    DataTooShort,
    InvalidReservedData(u32),
    InvalidPicOrderCntType(u32),
    InvalidSliceGroupMapType(u32),
    MissingHighProfileData,
    InvalidNalUnitType(u8),
    InvalidPrimaryPicType(u8),
    InvalidSliceType(SliceType),
    InvalidModificationOfPicNumsIdc(u32),
    InvalidMemoryManagementControlOp(u32),
    InvalidBitDepthAuxMinus8(u32),
    InvalidAuxFormatIdc(u32),
}

impl Error {
    /// The text of the error.
    pub open spec fn text(self) -> Seq<char> {
        match self {
            Error::InvalidForbiddenZeroBit => "Invalid Forbidden Zero Bit: expected 0, got 1"@,
            Error::InvalidStartCode(v) => "Invalid Start Code: expected 0x00_00_01 or 0x00_00_00_01, got 0x"@ + digits(v as nat, 16, 8),
            Error::DataTooShort => "Annex.B format data too short"@,
            Error::InvalidReservedData(v) => "Invalid Reserved Zero 2 Bits: expected 0b00, got "@ + digits(v as nat, 16, 8),
            Error::InvalidPicOrderCntType(v) => "Invalid pic_order_cnt_type: expected 0-2, got "@ + digits(v as nat, 10, 1),
            Error::InvalidSliceGroupMapType(v) => "Invalid Slice Group Map Type: expected 0-6, got "@ + digits(v as nat, 10, 1),
            Error::MissingHighProfileData => "Missing high profile data(chroma_format_idc)"@,
            Error::InvalidNalUnitType(v) => "Invalid NAL unit type: "@ + digits(v as nat, 10, 1),
            Error::InvalidPrimaryPicType(v) => "Invalid Primary Pic Type: "@ + digits(v as nat, 10, 1),
            Error::InvalidSliceType(t) => "Invalid Slice Type: "@ + slice_type_name(t),
            Error::InvalidModificationOfPicNumsIdc(v) => "Invalid modification_of_pic_nums_idc: "@ + digits(v as nat, 10, 1),
            Error::InvalidMemoryManagementControlOp(v) => "Invalid memory_management_control_operation: "@ + digits(v as nat, 10, 1),
            Error::InvalidBitDepthAuxMinus8(v) => "Invalid Bit Depth Aux Minus8: "@ + digits(v as nat, 10, 1),
            Error::InvalidAuxFormatIdc(v) => "Invalid Aux Format Idc: "@ + digits(v as nat, 10, 1),
        }
    }

    /// A human-readable description of the error.
    pub fn message(&self) -> (r: String)
        ensures
            r@ == self.text(),
    {
        match self {
            Error::InvalidForbiddenZeroBit => String::from_str("Invalid Forbidden Zero Bit: expected 0, got 1"),
            Error::InvalidStartCode(v) => digits_text("Invalid Start Code: expected 0x00_00_01 or 0x00_00_00_01, got 0x", *v as u64, 16, 8),
            Error::DataTooShort => String::from_str("Annex.B format data too short"),
            Error::InvalidReservedData(v) => digits_text("Invalid Reserved Zero 2 Bits: expected 0b00, got ", *v as u64, 16, 8),
            Error::InvalidPicOrderCntType(v) => digits_text("Invalid pic_order_cnt_type: expected 0-2, got ", *v as u64, 10, 1),
            Error::InvalidSliceGroupMapType(v) => digits_text("Invalid Slice Group Map Type: expected 0-6, got ", *v as u64, 10, 1),
            Error::MissingHighProfileData => String::from_str("Missing high profile data(chroma_format_idc)"),
            Error::InvalidNalUnitType(v) => digits_text("Invalid NAL unit type: ", *v as u64, 10, 1),
            Error::InvalidPrimaryPicType(v) => digits_text("Invalid Primary Pic Type: ", *v as u64, 10, 1),
            Error::InvalidSliceType(t) => {
                let mut s = String::from_str("Invalid Slice Type: ");
                s.append(slice_type_str(*t));
                s
            },
            Error::InvalidModificationOfPicNumsIdc(v) => digits_text("Invalid modification_of_pic_nums_idc: ", *v as u64, 10, 1),
            Error::InvalidMemoryManagementControlOp(v) => digits_text("Invalid memory_management_control_operation: ", *v as u64, 10, 1),
            Error::InvalidBitDepthAuxMinus8(v) => digits_text("Invalid Bit Depth Aux Minus8: ", *v as u64, 10, 1),
            Error::InvalidAuxFormatIdc(v) => digits_text("Invalid Aux Format Idc: ", *v as u64, 10, 1),
        }
    }
}

/// The name of a slice type.
pub open spec fn slice_type_name(t: SliceType) -> Seq<char> {
    match t {
        SliceType::P => "P"@,
        SliceType::B => "B"@,
        SliceType::I => "I"@,
        SliceType::SP => "SP"@,
        SliceType::SI => "SI"@,
    }
}

/// The name of a slice type, as text.
fn slice_type_str(t: SliceType) -> (r: &'static str)
    ensures
        r@ == slice_type_name(t),
{
    match t {
        SliceType::P => "P",
        SliceType::B => "B",
        SliceType::I => "I",
        SliceType::SP => "SP",
        SliceType::SI => "SI",
    }
}

} // verus!
