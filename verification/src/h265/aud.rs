//! H.265 access unit delimiter: the picture type in three bits, then the
//! stop bit and four zero bits.

use vstd::prelude::*;
use crate::h265::error::Error;

verus! {

/// Which slice types the pictures of the access unit may hold.
#[derive(Debug, Clone, Copy, PartialEq, Eq, Structural)]
pub enum PicType {
    /// slice_type 0
    I,
    /// slice_type 1
    PI,
    /// slice_type 2
    BPI,
}

/// The picture type of a value 0..=2.
pub open spec fn pic_type_of(v: u8) -> Option<PicType> {
    if v == 0 {
        Some(PicType::I)
    } else if v == 1 {
        Some(PicType::PI)
    } else if v == 2 {
        Some(PicType::BPI)
    } else {
        None
    }
}

/// The value of a picture type.
pub open spec fn pic_type_value(t: PicType) -> u8 {
    match t {
        PicType::I => 0,
        PicType::PI => 1,
        PicType::BPI => 2,
    }
}

impl PicType {
    /// The picture type of a value; values above 2 are refused.
    pub fn from_u8(value: u8) -> (r: Result<Self, Error>)
        ensures
            match pic_type_of(value) {
                Some(t) => r == Ok::<Self, Error>(t),
                None => r == Err::<Self, Error>(Error::InvalidPicType(value)),
            },
    {
        match value {
            0 => Ok(PicType::I),
            1 => Ok(PicType::PI),
            2 => Ok(PicType::BPI),
            _ => Err(Error::InvalidPicType(value)),
        }
    }

    /// The value of this picture type.
    pub fn to_u8(&self) -> (r: u8)
        ensures
            r == pic_type_value(*self),
    {
        match self {
            PicType::I => 0,
            PicType::PI => 1,
            PicType::BPI => 2,
        }
    }
}

/// Access unit delimiter.
#[derive(Debug)]
pub struct Aud {
    pub pic_type: PicType,
}

/// The AUD byte of a picture type.
pub open spec fn aud_byte(t: PicType) -> u8 {
    ((pic_type_value(t) << 5u8) | 0b0001_0000u8) as u8
}

/// Parsing an AUD: the top three bits of the first byte name the picture
/// type, and the low five bits must be the stop bit and four zero bits.
pub open spec fn aud_parse_spec(d: Seq<u8>) -> Result<PicType, Error> {
    if d.len() == 0 {
        Err(Error::DataTooShort)
    } else {
        match pic_type_of(d[0] >> 5u8) {
            None => Err(Error::InvalidPicType(d[0] >> 5u8)),
            Some(t) => if d[0] & 0b0001_1111u8 != 0b0001_0000u8 {
                Err(Error::InvalidTrailingBits)
            } else {
                Ok(t)
            },
        }
    }
}

/// The picture types of H.265 Table 7-2, value by value: 0 for I slices
/// only, 1 for P and I, 2 for B, P and I; no other value names a type,
/// and every type is written as its value.
pub proof fn lemma_pic_type_table(value: u8)
    ensures
        (pic_type_of(value) == Some(PicType::I)) <==> value == 0,
        (pic_type_of(value) == Some(PicType::PI)) <==> value == 1,
        (pic_type_of(value) == Some(PicType::BPI)) <==> value == 2,
        pic_type_of(value) is None <==> value > 2,
        pic_type_value(PicType::I) == 0,
        pic_type_value(PicType::PI) == 1,
        pic_type_value(PicType::BPI) == 2,
{
}

/// Parsing the byte of an AUD gives back its picture type.
pub proof fn lemma_aud_roundtrip(t: PicType)
    ensures
        aud_parse_spec(seq![aud_byte(t)]) == Ok::<PicType, Error>(t),
{
    let v = pic_type_value(t);
    let b = aud_byte(t);
    assert(b >> 5u8 == v && b & 0b0001_1111u8 == 0b0001_0000u8) by (bit_vector)
        requires b == ((v << 5u8) | 0b0001_0000u8) as u8, v <= 2;
}

impl Aud {
    /// The AUD byte: picture type in the top three bits, then `1 0000`.
    pub fn to_bytes(&self) -> (r: Vec<u8>)
        ensures
            r@ == seq![aud_byte(self.pic_type)],
    {
        let v = self.pic_type.to_u8();
        let r: Vec<u8> = vec![(v << 5) | 0b0001_0000];
        assert(r@ =~= seq![aud_byte(self.pic_type)]);
        r
    }

    /// Parse an AUD RBSP.
    pub fn parse(data: &[u8]) -> (r: Result<Self, Error>)
        ensures
            match aud_parse_spec(data@) {
                Ok(t) => r matches Ok(a) && a.pic_type == t,
                Err(e) => r matches Err(x) && x == e,
            },
    {
        if data.len() == 0 {
            return Err(Error::DataTooShort);
        }
        let b = data[0];
        let pic_type = PicType::from_u8(b >> 5)?;
        if b & 0b0001_1111 != 0b0001_0000 {
            return Err(Error::InvalidTrailingBits);
        }
        Ok(Aud { pic_type })
    }
}

} // verus!
