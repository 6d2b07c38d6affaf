//! H.265 NAL unit: a two-byte header (`forbidden_zero_bit`,
//! `nal_unit_type`, `nuh_layer_id`, `nuh_temporal_id_plus1`) followed by the
//! payload, and the emulation prevention bytes of the payload.

use vstd::prelude::*;
use crate::bytes::{copy_range, extend};
use crate::h265::error::Error;
use crate::h264::nal::remove_epb_spec;

verus! {

/// NAL unit type (6 bits).
#[derive(Debug, Clone, Copy, PartialEq, Eq, Structural)]
pub enum NalUnitType {
    TrailN,
    TrailR,
    TsaN,
    TsaR,
    StsaN,
    StsaR,
    RadlN,
    RadlR,
    RaslN,
    RaslR,
    RsvVclN10,
    RsvVclR11,
    RsvVclN12,
    RsvVclR13,
    RsvVclN14,
    RsvVclR15,
    BlaWLp,
    BlaWRadl,
    BlaNLp,
    IdrWRadl,
    IdrNLp,
    CraNut,
    RsvIrapVcl22,
    RsvIrapVcl23,
    RsvVcl24,
    RsvVcl25,
    RsvVcl26,
    RsvVcl27,
    RsvVcl28,
    RsvVcl29,
    RsvVcl30,
    RsvVcl31,
    VpsNut,
    SpsNut,
    PpsNut,
    AudNut,
    EosNut,
    EobNut,
    FdNut,
    PrefixSeiNut,
    SuffixSeiNut,
    RsvNvcl41,
    RsvNvcl42,
    RsvNvcl43,
    RsvNvcl44,
    RsvNvcl45,
    RsvNvcl46,
    RsvNvcl47,
    /// 48..=63 (and any value that does not fit in six bits)
    Unspecified(u8),
}

/// The NAL unit type that a value denotes.
pub open spec fn nal_unit_type_of(value: u8) -> NalUnitType {
    if value == 0 {
        NalUnitType::TrailN
    } else if value == 1 {
        NalUnitType::TrailR
    } else if value == 2 {
        NalUnitType::TsaN
    } else if value == 3 {
        NalUnitType::TsaR
    } else if value == 4 {
        NalUnitType::StsaN
    } else if value == 5 {
        NalUnitType::StsaR
    } else if value == 6 {
        NalUnitType::RadlN
    } else if value == 7 {
        NalUnitType::RadlR
    } else if value == 8 {
        NalUnitType::RaslN
    } else if value == 9 {
        NalUnitType::RaslR
    } else if value == 10 {
        NalUnitType::RsvVclN10
    } else if value == 11 {
        NalUnitType::RsvVclR11
    } else if value == 12 {
        NalUnitType::RsvVclN12
    } else if value == 13 {
        NalUnitType::RsvVclR13
    } else if value == 14 {
        NalUnitType::RsvVclN14
    } else if value == 15 {
        NalUnitType::RsvVclR15
    } else if value == 16 {
        NalUnitType::BlaWLp
    } else if value == 17 {
        NalUnitType::BlaWRadl
    } else if value == 18 {
        NalUnitType::BlaNLp
    } else if value == 19 {
        NalUnitType::IdrWRadl
    } else if value == 20 {
        NalUnitType::IdrNLp
    } else if value == 21 {
        NalUnitType::CraNut
    } else if value == 22 {
        NalUnitType::RsvIrapVcl22
    } else if value == 23 {
        NalUnitType::RsvIrapVcl23
    } else if value == 24 {
        NalUnitType::RsvVcl24
    } else if value == 25 {
        NalUnitType::RsvVcl25
    } else if value == 26 {
        NalUnitType::RsvVcl26
    } else if value == 27 {
        NalUnitType::RsvVcl27
    } else if value == 28 {
        NalUnitType::RsvVcl28
    } else if value == 29 {
        NalUnitType::RsvVcl29
    } else if value == 30 {
        NalUnitType::RsvVcl30
    } else if value == 31 {
        NalUnitType::RsvVcl31
    } else if value == 32 {
        NalUnitType::VpsNut
    } else if value == 33 {
        NalUnitType::SpsNut
    } else if value == 34 {
        NalUnitType::PpsNut
    } else if value == 35 {
        NalUnitType::AudNut
    } else if value == 36 {
        NalUnitType::EosNut
    } else if value == 37 {
        NalUnitType::EobNut
    } else if value == 38 {
        NalUnitType::FdNut
    } else if value == 39 {
        NalUnitType::PrefixSeiNut
    } else if value == 40 {
        NalUnitType::SuffixSeiNut
    } else if value == 41 {
        NalUnitType::RsvNvcl41
    } else if value == 42 {
        NalUnitType::RsvNvcl42
    } else if value == 43 {
        NalUnitType::RsvNvcl43
    } else if value == 44 {
        NalUnitType::RsvNvcl44
    } else if value == 45 {
        NalUnitType::RsvNvcl45
    } else if value == 46 {
        NalUnitType::RsvNvcl46
    } else if value == 47 {
        NalUnitType::RsvNvcl47
    } else {
        NalUnitType::Unspecified(value)
    }
}

/// The value of a NAL unit type.
pub open spec fn nal_unit_type_value(t: NalUnitType) -> u8 {
    match t {
        NalUnitType::TrailN => 0,
        NalUnitType::TrailR => 1,
        NalUnitType::TsaN => 2,
        NalUnitType::TsaR => 3,
        NalUnitType::StsaN => 4,
        NalUnitType::StsaR => 5,
        NalUnitType::RadlN => 6,
        NalUnitType::RadlR => 7,
        NalUnitType::RaslN => 8,
        NalUnitType::RaslR => 9,
        NalUnitType::RsvVclN10 => 10,
        NalUnitType::RsvVclR11 => 11,
        NalUnitType::RsvVclN12 => 12,
        NalUnitType::RsvVclR13 => 13,
        NalUnitType::RsvVclN14 => 14,
        NalUnitType::RsvVclR15 => 15,
        NalUnitType::BlaWLp => 16,
        NalUnitType::BlaWRadl => 17,
        NalUnitType::BlaNLp => 18,
        NalUnitType::IdrWRadl => 19,
        NalUnitType::IdrNLp => 20,
        NalUnitType::CraNut => 21,
        NalUnitType::RsvIrapVcl22 => 22,
        NalUnitType::RsvIrapVcl23 => 23,
        NalUnitType::RsvVcl24 => 24,
        NalUnitType::RsvVcl25 => 25,
        NalUnitType::RsvVcl26 => 26,
        NalUnitType::RsvVcl27 => 27,
        NalUnitType::RsvVcl28 => 28,
        NalUnitType::RsvVcl29 => 29,
        NalUnitType::RsvVcl30 => 30,
        NalUnitType::RsvVcl31 => 31,
        NalUnitType::VpsNut => 32,
        NalUnitType::SpsNut => 33,
        NalUnitType::PpsNut => 34,
        NalUnitType::AudNut => 35,
        NalUnitType::EosNut => 36,
        NalUnitType::EobNut => 37,
        NalUnitType::FdNut => 38,
        NalUnitType::PrefixSeiNut => 39,
        NalUnitType::SuffixSeiNut => 40,
        NalUnitType::RsvNvcl41 => 41,
        NalUnitType::RsvNvcl42 => 42,
        NalUnitType::RsvNvcl43 => 43,
        NalUnitType::RsvNvcl44 => 44,
        NalUnitType::RsvNvcl45 => 45,
        NalUnitType::RsvNvcl46 => 46,
        NalUnitType::RsvNvcl47 => 47,
        NalUnitType::Unspecified(v) => v,
    }
}

impl NalUnitType {
    /// The NAL unit type of a value.
    pub fn from_u8(value: u8) -> (r: NalUnitType)
        ensures
            r == nal_unit_type_of(value),
    {
        match value {
            0 => NalUnitType::TrailN,
            1 => NalUnitType::TrailR,
            2 => NalUnitType::TsaN,
            3 => NalUnitType::TsaR,
            4 => NalUnitType::StsaN,
            5 => NalUnitType::StsaR,
            6 => NalUnitType::RadlN,
            7 => NalUnitType::RadlR,
            8 => NalUnitType::RaslN,
            9 => NalUnitType::RaslR,
            10 => NalUnitType::RsvVclN10,
            11 => NalUnitType::RsvVclR11,
            12 => NalUnitType::RsvVclN12,
            13 => NalUnitType::RsvVclR13,
            14 => NalUnitType::RsvVclN14,
            15 => NalUnitType::RsvVclR15,
            16 => NalUnitType::BlaWLp,
            17 => NalUnitType::BlaWRadl,
            18 => NalUnitType::BlaNLp,
            19 => NalUnitType::IdrWRadl,
            20 => NalUnitType::IdrNLp,
            21 => NalUnitType::CraNut,
            22 => NalUnitType::RsvIrapVcl22,
            23 => NalUnitType::RsvIrapVcl23,
            24 => NalUnitType::RsvVcl24,
            25 => NalUnitType::RsvVcl25,
            26 => NalUnitType::RsvVcl26,
            27 => NalUnitType::RsvVcl27,
            28 => NalUnitType::RsvVcl28,
            29 => NalUnitType::RsvVcl29,
            30 => NalUnitType::RsvVcl30,
            31 => NalUnitType::RsvVcl31,
            32 => NalUnitType::VpsNut,
            33 => NalUnitType::SpsNut,
            34 => NalUnitType::PpsNut,
            35 => NalUnitType::AudNut,
            36 => NalUnitType::EosNut,
            37 => NalUnitType::EobNut,
            38 => NalUnitType::FdNut,
            39 => NalUnitType::PrefixSeiNut,
            40 => NalUnitType::SuffixSeiNut,
            41 => NalUnitType::RsvNvcl41,
            42 => NalUnitType::RsvNvcl42,
            43 => NalUnitType::RsvNvcl43,
            44 => NalUnitType::RsvNvcl44,
            45 => NalUnitType::RsvNvcl45,
            46 => NalUnitType::RsvNvcl46,
            47 => NalUnitType::RsvNvcl47,
            _ => NalUnitType::Unspecified(value),
        }
    }

    /// The value of this NAL unit type.
    pub fn to_u8(&self) -> (r: u8)
        ensures
            r == nal_unit_type_value(*self),
    {
        match self {
            NalUnitType::TrailN => 0,
            NalUnitType::TrailR => 1,
            NalUnitType::TsaN => 2,
            NalUnitType::TsaR => 3,
            NalUnitType::StsaN => 4,
            NalUnitType::StsaR => 5,
            NalUnitType::RadlN => 6,
            NalUnitType::RadlR => 7,
            NalUnitType::RaslN => 8,
            NalUnitType::RaslR => 9,
            NalUnitType::RsvVclN10 => 10,
            NalUnitType::RsvVclR11 => 11,
            NalUnitType::RsvVclN12 => 12,
            NalUnitType::RsvVclR13 => 13,
            NalUnitType::RsvVclN14 => 14,
            NalUnitType::RsvVclR15 => 15,
            NalUnitType::BlaWLp => 16,
            NalUnitType::BlaWRadl => 17,
            NalUnitType::BlaNLp => 18,
            NalUnitType::IdrWRadl => 19,
            NalUnitType::IdrNLp => 20,
            NalUnitType::CraNut => 21,
            NalUnitType::RsvIrapVcl22 => 22,
            NalUnitType::RsvIrapVcl23 => 23,
            NalUnitType::RsvVcl24 => 24,
            NalUnitType::RsvVcl25 => 25,
            NalUnitType::RsvVcl26 => 26,
            NalUnitType::RsvVcl27 => 27,
            NalUnitType::RsvVcl28 => 28,
            NalUnitType::RsvVcl29 => 29,
            NalUnitType::RsvVcl30 => 30,
            NalUnitType::RsvVcl31 => 31,
            NalUnitType::VpsNut => 32,
            NalUnitType::SpsNut => 33,
            NalUnitType::PpsNut => 34,
            NalUnitType::AudNut => 35,
            NalUnitType::EosNut => 36,
            NalUnitType::EobNut => 37,
            NalUnitType::FdNut => 38,
            NalUnitType::PrefixSeiNut => 39,
            NalUnitType::SuffixSeiNut => 40,
            NalUnitType::RsvNvcl41 => 41,
            NalUnitType::RsvNvcl42 => 42,
            NalUnitType::RsvNvcl43 => 43,
            NalUnitType::RsvNvcl44 => 44,
            NalUnitType::RsvNvcl45 => 45,
            NalUnitType::RsvNvcl46 => 46,
            NalUnitType::RsvNvcl47 => 47,
            NalUnitType::Unspecified(v) => *v,
        }
    }
}

/// Every value names a type whose value it is.
pub proof fn lemma_nal_unit_type_roundtrip(value: u8)
    ensures
        nal_unit_type_value(nal_unit_type_of(value)) == value,
{
}

/// The NAL unit types of H.265 Table 7-1, value by value: `TRAIL_N` 0,
/// `TRAIL_R` 1, `TSA_N` 2, `TSA_R` 3, `STSA_N` 4, `STSA_R` 5, `RADL_N` 6,
/// `RADL_R` 7, `RASL_N` 8, `RASL_R` 9, reserved VCL types 10 to 15,
/// `BLA_W_LP` 16, `BLA_W_RADL` 17, `BLA_N_LP` 18, `IDR_W_RADL` 19,
/// `IDR_N_LP` 20, `CRA_NUT` 21, reserved IRAP types 22 and 23, reserved
/// VCL types 24 to 31, `VPS_NUT` 32, `SPS_NUT` 33, `PPS_NUT` 34,
/// `AUD_NUT` 35, `EOS_NUT` 36, `EOB_NUT` 37, `FD_NUT` 38,
/// `PREFIX_SEI_NUT` 39, `SUFFIX_SEI_NUT` 40, reserved non-VCL types 41 to
/// 47, unspecified types from 48: every value names its type and no
/// other, and every type is written as its value.
pub proof fn lemma_nal_unit_type_table(value: u8)
    ensures
        ({
        &&& (nal_unit_type_of(value) == NalUnitType::TrailN <==> value == 0)
        &&& (nal_unit_type_of(value) == NalUnitType::TrailR <==> value == 1)
        &&& (nal_unit_type_of(value) == NalUnitType::TsaN <==> value == 2)
        &&& (nal_unit_type_of(value) == NalUnitType::TsaR <==> value == 3)
        &&& (nal_unit_type_of(value) == NalUnitType::StsaN <==> value == 4)
        &&& (nal_unit_type_of(value) == NalUnitType::StsaR <==> value == 5)
        &&& (nal_unit_type_of(value) == NalUnitType::RadlN <==> value == 6)
        &&& (nal_unit_type_of(value) == NalUnitType::RadlR <==> value == 7)
        &&& (nal_unit_type_of(value) == NalUnitType::RaslN <==> value == 8)
        &&& (nal_unit_type_of(value) == NalUnitType::RaslR <==> value == 9)
        &&& (nal_unit_type_of(value) == NalUnitType::RsvVclN10 <==> value == 10)
        &&& (nal_unit_type_of(value) == NalUnitType::RsvVclR11 <==> value == 11)
        &&& (nal_unit_type_of(value) == NalUnitType::RsvVclN12 <==> value == 12)
        &&& (nal_unit_type_of(value) == NalUnitType::RsvVclR13 <==> value == 13)
        &&& (nal_unit_type_of(value) == NalUnitType::RsvVclN14 <==> value == 14)
        &&& (nal_unit_type_of(value) == NalUnitType::RsvVclR15 <==> value == 15)
        &&& (nal_unit_type_of(value) == NalUnitType::BlaWLp <==> value == 16)
        &&& (nal_unit_type_of(value) == NalUnitType::BlaWRadl <==> value == 17)
        &&& (nal_unit_type_of(value) == NalUnitType::BlaNLp <==> value == 18)
        &&& (nal_unit_type_of(value) == NalUnitType::IdrWRadl <==> value == 19)
        &&& (nal_unit_type_of(value) == NalUnitType::IdrNLp <==> value == 20)
        &&& (nal_unit_type_of(value) == NalUnitType::CraNut <==> value == 21)
        &&& (nal_unit_type_of(value) == NalUnitType::RsvIrapVcl22 <==> value == 22)
        &&& (nal_unit_type_of(value) == NalUnitType::RsvIrapVcl23 <==> value == 23)
        &&& (nal_unit_type_of(value) == NalUnitType::RsvVcl24 <==> value == 24)
        &&& (nal_unit_type_of(value) == NalUnitType::RsvVcl25 <==> value == 25)
        &&& (nal_unit_type_of(value) == NalUnitType::RsvVcl26 <==> value == 26)
        &&& (nal_unit_type_of(value) == NalUnitType::RsvVcl27 <==> value == 27)
        &&& (nal_unit_type_of(value) == NalUnitType::RsvVcl28 <==> value == 28)
        &&& (nal_unit_type_of(value) == NalUnitType::RsvVcl29 <==> value == 29)
        &&& (nal_unit_type_of(value) == NalUnitType::RsvVcl30 <==> value == 30)
        &&& (nal_unit_type_of(value) == NalUnitType::RsvVcl31 <==> value == 31)
        &&& (nal_unit_type_of(value) == NalUnitType::VpsNut <==> value == 32)
        &&& (nal_unit_type_of(value) == NalUnitType::SpsNut <==> value == 33)
        &&& (nal_unit_type_of(value) == NalUnitType::PpsNut <==> value == 34)
        &&& (nal_unit_type_of(value) == NalUnitType::AudNut <==> value == 35)
        &&& (nal_unit_type_of(value) == NalUnitType::EosNut <==> value == 36)
        &&& (nal_unit_type_of(value) == NalUnitType::EobNut <==> value == 37)
        &&& (nal_unit_type_of(value) == NalUnitType::FdNut <==> value == 38)
        &&& (nal_unit_type_of(value) == NalUnitType::PrefixSeiNut <==> value == 39)
        &&& (nal_unit_type_of(value) == NalUnitType::SuffixSeiNut <==> value == 40)
        &&& (nal_unit_type_of(value) == NalUnitType::RsvNvcl41 <==> value == 41)
        &&& (nal_unit_type_of(value) == NalUnitType::RsvNvcl42 <==> value == 42)
        &&& (nal_unit_type_of(value) == NalUnitType::RsvNvcl43 <==> value == 43)
        &&& (nal_unit_type_of(value) == NalUnitType::RsvNvcl44 <==> value == 44)
        &&& (nal_unit_type_of(value) == NalUnitType::RsvNvcl45 <==> value == 45)
        &&& (nal_unit_type_of(value) == NalUnitType::RsvNvcl46 <==> value == 46)
        &&& (nal_unit_type_of(value) == NalUnitType::RsvNvcl47 <==> value == 47)
        &&& (value >= 48 <==> nal_unit_type_of(value) == NalUnitType::Unspecified(value))
        }),
        nal_unit_type_value(NalUnitType::TrailN) == 0,
        nal_unit_type_value(NalUnitType::TrailR) == 1,
        nal_unit_type_value(NalUnitType::TsaN) == 2,
        nal_unit_type_value(NalUnitType::TsaR) == 3,
        nal_unit_type_value(NalUnitType::StsaN) == 4,
        nal_unit_type_value(NalUnitType::StsaR) == 5,
        nal_unit_type_value(NalUnitType::RadlN) == 6,
        nal_unit_type_value(NalUnitType::RadlR) == 7,
        nal_unit_type_value(NalUnitType::RaslN) == 8,
        nal_unit_type_value(NalUnitType::RaslR) == 9,
        nal_unit_type_value(NalUnitType::RsvVclN10) == 10,
        nal_unit_type_value(NalUnitType::RsvVclR11) == 11,
        nal_unit_type_value(NalUnitType::RsvVclN12) == 12,
        nal_unit_type_value(NalUnitType::RsvVclR13) == 13,
        nal_unit_type_value(NalUnitType::RsvVclN14) == 14,
        nal_unit_type_value(NalUnitType::RsvVclR15) == 15,
        nal_unit_type_value(NalUnitType::BlaWLp) == 16,
        nal_unit_type_value(NalUnitType::BlaWRadl) == 17,
        nal_unit_type_value(NalUnitType::BlaNLp) == 18,
        nal_unit_type_value(NalUnitType::IdrWRadl) == 19,
        nal_unit_type_value(NalUnitType::IdrNLp) == 20,
        nal_unit_type_value(NalUnitType::CraNut) == 21,
        nal_unit_type_value(NalUnitType::RsvIrapVcl22) == 22,
        nal_unit_type_value(NalUnitType::RsvIrapVcl23) == 23,
        nal_unit_type_value(NalUnitType::RsvVcl24) == 24,
        nal_unit_type_value(NalUnitType::RsvVcl25) == 25,
        nal_unit_type_value(NalUnitType::RsvVcl26) == 26,
        nal_unit_type_value(NalUnitType::RsvVcl27) == 27,
        nal_unit_type_value(NalUnitType::RsvVcl28) == 28,
        nal_unit_type_value(NalUnitType::RsvVcl29) == 29,
        nal_unit_type_value(NalUnitType::RsvVcl30) == 30,
        nal_unit_type_value(NalUnitType::RsvVcl31) == 31,
        nal_unit_type_value(NalUnitType::VpsNut) == 32,
        nal_unit_type_value(NalUnitType::SpsNut) == 33,
        nal_unit_type_value(NalUnitType::PpsNut) == 34,
        nal_unit_type_value(NalUnitType::AudNut) == 35,
        nal_unit_type_value(NalUnitType::EosNut) == 36,
        nal_unit_type_value(NalUnitType::EobNut) == 37,
        nal_unit_type_value(NalUnitType::FdNut) == 38,
        nal_unit_type_value(NalUnitType::PrefixSeiNut) == 39,
        nal_unit_type_value(NalUnitType::SuffixSeiNut) == 40,
        nal_unit_type_value(NalUnitType::RsvNvcl41) == 41,
        nal_unit_type_value(NalUnitType::RsvNvcl42) == 42,
        nal_unit_type_value(NalUnitType::RsvNvcl43) == 43,
        nal_unit_type_value(NalUnitType::RsvNvcl44) == 44,
        nal_unit_type_value(NalUnitType::RsvNvcl45) == 45,
        nal_unit_type_value(NalUnitType::RsvNvcl46) == 46,
        nal_unit_type_value(NalUnitType::RsvNvcl47) == 47,
{
}

/// NAL unit header.
#[derive(Debug, Clone, Copy, PartialEq, Eq, Structural)]
pub struct Header {
    /// 1 bit
    pub forbidden_zero_bit: u8,
    /// 6 bits
    pub nal_unit_type: NalUnitType,
    /// 6 bits
    pub nuh_layer_id: u8,
    /// 3 bits
    pub nuh_temporal_id_plus1: u8,
}

/// The first header byte: `forbidden_zero_bit`, the type, and the top bit
/// of the layer id (each field cut to its width).
pub open spec fn header_byte0(h: Header) -> u8 {
    (((h.forbidden_zero_bit & 1u8) << 7u8) | ((nal_unit_type_value(h.nal_unit_type) & 0x3Fu8) << 1u8)
        | ((h.nuh_layer_id >> 5u8) & 1u8)) as u8
}

/// The second header byte: the low five bits of the layer id and the
/// temporal id.
pub open spec fn header_byte1(h: Header) -> u8 {
    (((h.nuh_layer_id & 0x1Fu8) << 3u8) | (h.nuh_temporal_id_plus1 & 7u8)) as u8
}

/// The two header bytes.
pub open spec fn header_bytes(h: Header) -> Seq<u8> {
    seq![header_byte0(h), header_byte1(h)]
}

/// The header that two bytes hold.
pub open spec fn header_of_bytes(b0: u8, b1: u8) -> Header {
    Header {
        forbidden_zero_bit: b0 >> 7u8,
        nal_unit_type: nal_unit_type_of((b0 >> 1u8) & 0x3Fu8),
        nuh_layer_id: (((b0 & 1u8) << 5u8) | (b1 >> 3u8)) as u8,
        nuh_temporal_id_plus1: b1 & 7u8,
    }
}

/// Parsing a header from the start of `d`.
pub open spec fn header_parse_spec(d: Seq<u8>) -> Result<Header, Error> {
    if d.len() < 2 {
        Err(Error::DataTooShort)
    } else if d[0] >> 7u8 != 0 {
        Err(Error::InvalidForbiddenZeroBit)
    } else {
        Ok(header_of_bytes(d[0], d[1]))
    }
}

/// A header whose fields fit their widths and whose type is named by its
/// value.
pub open spec fn header_canonical(h: Header) -> bool {
    &&& h.forbidden_zero_bit == 0
    &&& nal_unit_type_value(h.nal_unit_type) < 64
    &&& nal_unit_type_of(nal_unit_type_value(h.nal_unit_type)) == h.nal_unit_type
    &&& h.nuh_layer_id < 64
    &&& h.nuh_temporal_id_plus1 < 8
}

/// The fields of the two header bytes as numbers.
proof fn lemma_header_bytes_fields(b0: u8, b1: u8)
    by (bit_vector)
    ensures
        b0 >> 7u8 == b0 / 128,
        (b0 >> 1u8) & 0x3Fu8 == (b0 / 2) % 64,
        (((b0 & 1u8) << 5u8) | (b1 >> 3u8)) as u8 == (b0 % 2) * 32 + b1 / 8,
        b1 & 7u8 == b1 % 8,
{
}

/// The NAL unit header of H.265 7.3.1.2: `forbidden_zero_bit` is the top
/// bit of the first byte and must be 0, `nal_unit_type` the six bits
/// below it, `nuh_layer_id` the last bit of the first byte and the top
/// five bits of the second, `nuh_temporal_id_plus1` the low three bits of
/// the second.
pub proof fn lemma_header_fields(d: Seq<u8>)
    requires
        d.len() >= 2,
    ensures
        header_parse_spec(d) is Ok <==> d[0] < 128,
        header_parse_spec(d) is Ok ==> {
            let h = header_parse_spec(d)->Ok_0;
            &&& h.forbidden_zero_bit == 0
            &&& nal_unit_type_value(h.nal_unit_type) == (d[0] / 2) % 64
            &&& h.nuh_layer_id == (d[0] % 2) * 32 + d[1] / 8
            &&& h.nuh_temporal_id_plus1 == d[1] % 8
        },
{
    lemma_header_bytes_fields(d[0], d[1]);
    lemma_nal_unit_type_roundtrip((d[0] / 2) % 64);
}

/// Serializing a parsed header gives back its two bytes.
pub proof fn lemma_header_bytes_roundtrip(b0: u8, b1: u8)
    requires
        b0 >> 7u8 == 0,
    ensures
        header_bytes(header_of_bytes(b0, b1)) == seq![b0, b1],
{
    let t = (b0 >> 1u8) & 0x3Fu8;
    lemma_nal_unit_type_roundtrip(t);
    assert(((((b0 >> 7u8) & 1u8) << 7u8) | ((((b0 >> 1u8) & 0x3Fu8) & 0x3Fu8) << 1u8)
        | (((((b0 & 1u8) << 5u8) | (b1 >> 3u8)) >> 5u8) & 1u8)) == b0
        && (((((b0 & 1u8) << 5u8) | (b1 >> 3u8)) & 0x1Fu8) << 3u8) | ((b1 & 7u8) & 7u8) == b1) by (bit_vector)
        requires b0 >> 7u8 == 0;
    assert(header_bytes(header_of_bytes(b0, b1)) =~= seq![b0, b1]);
}

/// Parsing the bytes of a canonical header gives back the header.
pub proof fn lemma_header_parse_roundtrip(h: Header)
    requires
        header_canonical(h),
    ensures
        header_parse_spec(header_bytes(h)) == Ok::<Header, Error>(h),
{
    let v = nal_unit_type_value(h.nal_unit_type);
    let l = h.nuh_layer_id;
    let t = h.nuh_temporal_id_plus1;
    let b0 = header_byte0(h);
    let b1 = header_byte1(h);
    assert(b0 >> 7u8 == 0 && (b0 >> 1u8) & 0x3Fu8 == v) by (bit_vector)
        requires b0 == ((((0u8 & 1u8) << 7u8) | ((v & 0x3Fu8) << 1u8) | ((l >> 5u8) & 1u8)) as u8), v < 64;
    assert((((b0 & 1u8) << 5u8) | (b1 >> 3u8)) as u8 == l && b1 & 7u8 == t) by (bit_vector)
        requires b0 == ((((0u8 & 1u8) << 7u8) | ((v & 0x3Fu8) << 1u8) | ((l >> 5u8) & 1u8)) as u8),
            b1 == ((((l & 0x1Fu8) << 3u8) | (t & 7u8)) as u8), l < 64, t < 8;
}

impl Header {
    /// Serialize the header into its two bytes.
    pub fn to_bytes(&self) -> (r: Vec<u8>)
        ensures
            r@ == header_bytes(*self),
    {
        let t = self.nal_unit_type.to_u8();
        let b0: u8 = ((self.forbidden_zero_bit & 1) << 7) | ((t & 0x3F) << 1) | ((self.nuh_layer_id >> 5) & 1);
        let b1: u8 = ((self.nuh_layer_id & 0x1F) << 3) | (self.nuh_temporal_id_plus1 & 7);
        let r: Vec<u8> = vec![b0, b1];
        assert(r@ =~= header_bytes(*self));
        r
    }

    /// Parse a header from the first two bytes.
    pub fn parse(data: &[u8]) -> (r: Result<Self, Error>)
        ensures
            r == header_parse_spec(data@),
    {
        if data.len() < 2 {
            return Err(Error::DataTooShort);
        }
        let b0 = data[0];
        let b1 = data[1];
        if b0 >> 7 != 0 {
            return Err(Error::InvalidForbiddenZeroBit);
        }
        Ok(Header {
            forbidden_zero_bit: b0 >> 7,
            nal_unit_type: NalUnitType::from_u8((b0 >> 1) & 0x3F),
            nuh_layer_id: ((b0 & 1) << 5) | (b1 >> 3),
            nuh_temporal_id_plus1: b1 & 7,
        })
    }
}

/// NAL unit: header and payload (as carried, with emulation prevention bytes).
#[derive(Debug)]
pub struct NalUnit {
    pub header: Header,
    pub rbsp: Vec<u8>,
}

impl NalUnit {
    /// Serialize the header and payload.
    pub fn to_bytes(&self) -> (r: Vec<u8>)
        ensures
            r@ == header_bytes(self.header) + self.rbsp@,
    {
        let mut buf = self.header.to_bytes();
        extend(&mut buf, self.rbsp.as_slice());
        buf
    }

    /// Parse the header and take the rest as payload.
    pub fn parse(data: &[u8]) -> (r: Result<Self, Error>)
        ensures
            match header_parse_spec(data@) {
                Ok(h) => r matches Ok(n) && n.header == h && n.rbsp@ == data@.subrange(2, data@.len() as int),
                Err(e) => r matches Err(x) && x == e,
            },
    {
        let header = Header::parse(data)?;
        let rbsp = copy_range(data, 2, data.len());
        Ok(NalUnit { header, rbsp })
    }
}

/// Remove emulation prevention bytes (0x03) to obtain the raw bitstream.
/// e.g. `[0x00, 0x00, 0x03, 0x01]` -> `[0x00, 0x00, 0x01]`
pub fn remove_emulation_prevention_bytes(data: &[u8]) -> (r: Vec<u8>)
    ensures
        r@ == crate::h264::nal::remove_epb_spec(data@),
{
    crate::h264::nal::NalUnit::remove_emulation_prevention_bytes(data)
}

/// Emulation prevention bytes inserted into `d`, by the same rule as in
/// H.264: a byte of at most 3 after two written zeros gets a `03` before it.
pub open spec fn insert_epb_spec(d: Seq<u8>) -> Seq<u8> {
    crate::h264::nal::attach_epb_spec(d)
}

/// Insert emulation prevention bytes: any `00 00` followed by `00..=03`
/// gets a `03` inserted, so the payload never holds a start-code prefix.
/// e.g. `[0x00, 0x00, 0x01]` -> `[0x00, 0x00, 0x03, 0x01]`
pub fn insert_emulation_prevention_bytes(data: &[u8]) -> (r: Vec<u8>)
    ensures
        r@ == insert_epb_spec(data@),
        crate::h264::nal::remove_epb_spec(r@) == data@,
        crate::h264::nal::no_start_code(r@),
{
    let mut buf: Vec<u8> = Vec::new();
    let mut zeros: usize = 0;
    let mut i: usize = 0;
    assert(data@.subrange(0, data@.len() as int) =~= data@);
    assert(buf@ + crate::h264::nal::attach_epb_from(data@, 0) =~= crate::h264::nal::attach_epb_from(data@, 0));
    while i < data.len()
        invariant
            i <= data@.len(),
            zeros <= i,
            buf@ + crate::h264::nal::attach_epb_from(data@.subrange(i as int, data@.len() as int), zeros as nat)
                == insert_epb_spec(data@),
        decreases data@.len() - i,
    {
        let b = data[i];
        let ghost rest = data@.subrange(i + 1, data@.len() as int);
        let ghost cur = data@.subrange(i as int, data@.len() as int);
        assert(cur.subrange(1, cur.len() as int) =~= rest);
        let ghost before = buf@;
        if zeros >= 2 && b <= 0x03 {
            buf.push(0x03);
            zeros = 0;
            buf.push(b);
            assert(before + (seq![3u8, b] + crate::h264::nal::attach_epb_from(rest, if b == 0 { 1 } else { 0 }))
                =~= buf@ + crate::h264::nal::attach_epb_from(rest, if b == 0 { 1 } else { 0 }));
        } else {
            buf.push(b);
            assert(before + (seq![b] + crate::h264::nal::attach_epb_from(rest, if b == 0 { (zeros + 1) as nat } else { 0nat }))
                =~= buf@ + crate::h264::nal::attach_epb_from(rest, if b == 0 { (zeros + 1) as nat } else { 0nat }));
        }
        if b == 0x00 {
            zeros = zeros + 1;
        } else {
            zeros = 0;
        }
        i = i + 1;
    }
    assert(buf@ + Seq::<u8>::empty() =~= buf@);
    proof {
        crate::h264::nal::lemma_epb_roundtrip(data@);
    }
    buf
}

/// Removing emulation prevention bytes undoes inserting them, for every
/// input, and the bytes inserted leave no start code pattern.
pub proof fn lemma_insert_remove_roundtrip(d: Seq<u8>)
    ensures
        remove_epb_spec(insert_epb_spec(d)) == d,
        crate::h264::nal::no_start_code(insert_epb_spec(d)),
{
    crate::h264::nal::lemma_epb_roundtrip(d);
}

} // verus!
