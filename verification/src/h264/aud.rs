//! Access unit delimiter: the primary picture type in three bits, followed
//! by the RBSP trailing bits.

use vstd::prelude::*;
use crate::bitstream::{BitstreamReader, bytes_bits};
use crate::h264::error::Error;
use crate::h264::syntax::{read_u, sp_u};

verus! {

/// Which slice types the primary coded picture may hold.
#[derive(Debug, Clone, Copy, PartialEq, Eq, Structural)]
pub enum PrimaryPicType {
    /// 0: slice_type 2, 7
    I,
    /// 1: slice_type 0, 2, 5, 7
    PI,
    /// 2: slice_type 0, 1, 2, 5, 6, 7
    PBI,
    /// 3: slice_type 4, 9
    SI,
    /// 4: slice_type 3, 4, 8, 9
    SpSi,
    /// 5: slice_type 2, 4, 7, 9
    ISi,
    /// 6: slice_type 0, 2, 3, 4, 5, 7, 8, 9
    PISpSi,
    /// 7: slice_type 0, 1, 2, 3, 4, 5, 6, 7, 8, 9
    PBISpSi,
}

/// The picture type that a value 0..=7 denotes.
pub open spec fn primary_pic_type_of(value: u8) -> Option<PrimaryPicType> {
    if value == 0 {
        Some(PrimaryPicType::I)
    } else if value == 1 {
        Some(PrimaryPicType::PI)
    } else if value == 2 {
        Some(PrimaryPicType::PBI)
    } else if value == 3 {
        Some(PrimaryPicType::SI)
    } else if value == 4 {
        Some(PrimaryPicType::SpSi)
    } else if value == 5 {
        Some(PrimaryPicType::ISi)
    } else if value == 6 {
        Some(PrimaryPicType::PISpSi)
    } else if value == 7 {
        Some(PrimaryPicType::PBISpSi)
    } else {
        None
    }
}

/// The value of a picture type.
pub open spec fn primary_pic_type_value(t: PrimaryPicType) -> u8 {
    match t {
        PrimaryPicType::I => 0,
        PrimaryPicType::PI => 1,
        PrimaryPicType::PBI => 2,
        PrimaryPicType::SI => 3,
        PrimaryPicType::SpSi => 4,
        PrimaryPicType::ISi => 5,
        PrimaryPicType::PISpSi => 6,
        PrimaryPicType::PBISpSi => 7,
    }
}

impl PrimaryPicType {
    /// The picture type of a value; values above 7 are refused.
    pub fn from_u8(value: u8) -> (r: Result<Self, Error>)
        ensures
            match primary_pic_type_of(value) {
                Some(t) => r == Ok::<Self, Error>(t),
                None => r == Err::<Self, Error>(Error::InvalidPrimaryPicType(value)),
            },
    {
        match value {
            0 => Ok(PrimaryPicType::I),
            1 => Ok(PrimaryPicType::PI),
            2 => Ok(PrimaryPicType::PBI),
            3 => Ok(PrimaryPicType::SI),
            4 => Ok(PrimaryPicType::SpSi),
            5 => Ok(PrimaryPicType::ISi),
            6 => Ok(PrimaryPicType::PISpSi),
            7 => Ok(PrimaryPicType::PBISpSi),
            _ => Err(Error::InvalidPrimaryPicType(value)),
        }
    }

    /// The value of this picture type.
    pub fn to_u8(&self) -> (r: u8)
        ensures
            r == primary_pic_type_value(*self),
    {
        match self {
            PrimaryPicType::I => 0,
            PrimaryPicType::PI => 1,
            PrimaryPicType::PBI => 2,
            PrimaryPicType::SI => 3,
            PrimaryPicType::SpSi => 4,
            PrimaryPicType::ISi => 5,
            PrimaryPicType::PISpSi => 6,
            PrimaryPicType::PBISpSi => 7,
        }
    }
}

/// The primary picture types of H.264 Table 7-5, value by value: 0 for
/// I slices only, 1 for P and I, 2 for P, B and I, 3 for SI, 4 for SP and
/// SI, 5 for I and SI, 6 for P, I, SP and SI, 7 for all five; no other
/// value names a type, and every type is written as its value.
pub proof fn lemma_primary_pic_type_table(value: u8)
    ensures
        (primary_pic_type_of(value) == Some(PrimaryPicType::I)) <==> value == 0,
        (primary_pic_type_of(value) == Some(PrimaryPicType::PI)) <==> value == 1,
        (primary_pic_type_of(value) == Some(PrimaryPicType::PBI)) <==> value == 2,
        (primary_pic_type_of(value) == Some(PrimaryPicType::SI)) <==> value == 3,
        (primary_pic_type_of(value) == Some(PrimaryPicType::SpSi)) <==> value == 4,
        (primary_pic_type_of(value) == Some(PrimaryPicType::ISi)) <==> value == 5,
        (primary_pic_type_of(value) == Some(PrimaryPicType::PISpSi)) <==> value == 6,
        (primary_pic_type_of(value) == Some(PrimaryPicType::PBISpSi)) <==> value == 7,
        primary_pic_type_of(value) is None <==> value > 7,
        primary_pic_type_value(PrimaryPicType::I) == 0,
        primary_pic_type_value(PrimaryPicType::PI) == 1,
        primary_pic_type_value(PrimaryPicType::PBI) == 2,
        primary_pic_type_value(PrimaryPicType::SI) == 3,
        primary_pic_type_value(PrimaryPicType::SpSi) == 4,
        primary_pic_type_value(PrimaryPicType::ISi) == 5,
        primary_pic_type_value(PrimaryPicType::PISpSi) == 6,
        primary_pic_type_value(PrimaryPicType::PBISpSi) == 7,
{
}

/// Every picture type is denoted by its value.
pub proof fn lemma_primary_pic_type_roundtrip(t: PrimaryPicType)
    ensures
        primary_pic_type_value(t) <= 7,
        primary_pic_type_of(primary_pic_type_value(t)) == Some(t),
{
}

/// Access unit delimiter RBSP.
#[derive(Debug)]
pub struct Aud {
    pub primary_pic_type: PrimaryPicType,
}

/// Parsing an AUD: three bits of picture type from the first byte; every
/// three-bit value names a type, so only an empty input fails.
pub open spec fn aud_parse_spec(d: Seq<u8>) -> Result<PrimaryPicType, Error> {
    match sp_u(bytes_bits(d), 0, 3) {
        Ok((v, _)) => match primary_pic_type_of(v as u8) {
            Some(t) => Ok(t),
            None => Err(Error::InvalidPrimaryPicType(v as u8)),
        },
        Err(e) => Err(e),
    }
}

impl Aud {
    /// The RBSP byte: picture type in the top three bits, then the stop bit.
    pub fn to_bytes(&self) -> (r: Vec<u8>)
        ensures
            r@ == seq![((primary_pic_type_value(self.primary_pic_type) << 5u8) | 0b0001_0000u8) as u8],
    {
        let v: u8 = self.primary_pic_type.to_u8();
        let b: u8 = (v << 5) | 0b0001_0000;
        let r: Vec<u8> = vec![b];
        assert(r@ =~= seq![b]);
        r
    }

    /// Parse an AUD RBSP.
    pub fn parse(data: &[u8]) -> (r: Result<Self, Error>)
        requires
            data@.len() * 8 <= usize::MAX,
        ensures
            data@.len() == 0 ==> r == Err::<Self, Error>(Error::DataTooShort),
            match aud_parse_spec(data@) {
                Ok(t) => r matches Ok(a) && a.primary_pic_type == t,
                Err(e) => r matches Err(x) && x == e,
            },
    {
        let mut reader = BitstreamReader::new(data);
        let v = match read_u(&mut reader, 3) {
            Ok(v) => v,
            Err(e) => return Err(e),
        };
        proof {
            crate::bitstream::lemma_seq_val_bound(bytes_bits(data@).subrange(0, 3));
            vstd::arithmetic::power2::lemma2_to64();
            vstd::arithmetic::div_mod::lemma_small_mod(crate::bitstream::seq_val(bytes_bits(data@).subrange(0, 3)), 0x1_0000_0000);
        }
        match PrimaryPicType::from_u8(v as u8) {
            Ok(t) => Ok(Aud { primary_pic_type: t }),
            Err(e) => Err(e),
        }
    }
}

} // verus!
