//! ADTS frame: a 7-byte header (9 with CRC) followed by the raw AAC data.
//!
//! Header fields, in order: syncword (12 bits, `0xFFF`), ID (1), layer (2,
//! `00`), protection_absent (1), profile (2), sampling_frequency_index (4),
//! private_bit (1), channel_configuration (3), original_copy (1), home (1),
//! copyright_identification_bit (1), copyright_identification_start (1),
//! aac_frame_length (13, the whole frame), adts_buffer_fullness (11),
//! number_of_raw_data_blocks_in_frame (2), then a 16-bit CRC when
//! protection_absent is 0.

use vstd::prelude::*;
use crate::aac::error::Error;
use crate::bytes::{copy_range, extend};

verus! {

/// One ADTS frame.
#[derive(Debug)]
pub struct Adts {
    pub id: bool,
    pub protection_absent: bool,
    pub profile: u8,
    pub sampling_frequency_index: u8,
    pub private_bit: bool,
    pub channel_configuration: u8,
    pub original_copy: bool,
    pub home: bool,
    pub copyright_identification_bit: bool,
    pub copyright_identification_start: bool,
    pub aac_frame_length: u16,
    pub adts_buffer_fullness: u16,
    pub number_of_raw_data_blocks_in_frame: u8,
    pub crc: Option<u16>,
    pub payload: Vec<u8>,
}

/// The syncword of a header: the first twelve bits.
pub open spec fn syncword_of(d: Seq<u8>) -> u16 {
    (((d[0] as u16) << 4u16) | ((d[1] >> 4u8) as u16)) as u16
}

/// The layer bits of a header.
pub open spec fn layer_of(d: Seq<u8>) -> u8 {
    (d[1] & 0b0000_0110u8) >> 1u8
}

/// The frame length field of a header.
pub open spec fn frame_length_of(d: Seq<u8>) -> u16 {
    ((((d[3] & 0b0000_0011u8) as u16) << 11u16) | ((d[4] as u16) << 3u16)
        | (((d[5] & 0b1110_0000u8) as u16) >> 5u16)) as u16
}

/// Where the payload starts: after the CRC when there is one.
pub open spec fn payload_start_of(d: Seq<u8>) -> nat {
    if d[1] & 1u8 != 0 { 7 } else { 9 }
}

/// The inputs on which reading a frame would index out of bounds: a CRC
/// announced in fewer than nine bytes, or a frame length shorter than the
/// header.
pub open spec fn adts_out_of_bounds(d: Seq<u8>) -> bool {
    &&& d.len() >= 7
    &&& syncword_of(d) == 0xFFF
    &&& layer_of(d) == 0
    &&& ((d[1] & 1u8 == 0 && d.len() < 9)
        || (d.len() >= frame_length_of(d) && frame_length_of(d) < payload_start_of(d)))
}

/// The outcome of parsing a frame from `d`: the frame length, or an error.
pub open spec fn adts_parse_spec(d: Seq<u8>) -> Result<nat, Error> {
    if d.len() < 7 {
        Err(Error::DataTooShort)
    } else if syncword_of(d) != 0xFFF {
        Err(Error::InvalidSyncword(syncword_of(d)))
    } else if layer_of(d) != 0 {
        Err(Error::InvalidLayer(layer_of(d)))
    } else if d.len() < frame_length_of(d) {
        Err(Error::DataTooShort)
    } else {
        Ok(frame_length_of(d) as nat)
    }
}

/// A frame holds the fields of the header at the start of `d` and the
/// payload up to the frame length.
pub open spec fn adts_is(a: Adts, d: Seq<u8>) -> bool {
    &&& a.id == (d[1] & 0b0000_1000u8 != 0)
    &&& a.protection_absent == (d[1] & 1u8 != 0)
    &&& a.profile == (d[2] & 0b1100_0000u8) >> 6u8
    &&& a.sampling_frequency_index == (d[2] & 0b0011_1100u8) >> 2u8
    &&& a.private_bit == (d[2] & 0b0000_0010u8 != 0)
    &&& a.channel_configuration == ((d[2] & 1u8) << 2u8) | ((d[3] & 0b1100_0000u8) >> 6u8)
    &&& a.original_copy == (d[3] & 0b0010_0000u8 != 0)
    &&& a.home == (d[3] & 0b0001_0000u8 != 0)
    &&& a.copyright_identification_bit == (d[3] & 0b0000_1000u8 != 0)
    &&& a.copyright_identification_start == (d[3] & 0b0000_0100u8 != 0)
    &&& a.aac_frame_length == frame_length_of(d)
    &&& a.adts_buffer_fullness == ((((d[5] & 0b0001_1111u8) as u16) << 6u16) | (((d[6] & 0b1111_1100u8) as u16) >> 2u16)) as u16
    &&& a.number_of_raw_data_blocks_in_frame == d[6] & 0b0000_0011u8
    &&& a.crc == (if d[1] & 1u8 != 0 { None } else { Some((((d[7] as u16) << 8u16) | (d[8] as u16)) as u16) })
    &&& a.payload@ == d.subrange(payload_start_of(d) as int, frame_length_of(d) as int)
}

/// The header fields as numbers: the masks and shifts that read them
/// take these bits.
proof fn lemma_adts_field_bits(d1: u8, d2: u8, d3: u8, d4: u8, d5: u8, d6: u8, d7: u8, d8: u8)
    by (bit_vector)
    ensures
        (d1 & 0b0000_1000u8 != 0) == ((d1 / 8) % 2 == 1),
        (d1 & 1u8 != 0) == (d1 % 2 == 1),
        (d2 & 0b1100_0000u8) >> 6u8 == d2 / 64,
        (d2 & 0b0011_1100u8) >> 2u8 == (d2 / 4) % 16,
        (d2 & 0b0000_0010u8 != 0) == ((d2 / 2) % 2 == 1),
        ((d2 & 1u8) << 2u8) | ((d3 & 0b1100_0000u8) >> 6u8) == (d2 % 2) * 4 + d3 / 64,
        (d3 & 0b0010_0000u8 != 0) == ((d3 / 32) % 2 == 1),
        (d3 & 0b0001_0000u8 != 0) == ((d3 / 16) % 2 == 1),
        (d3 & 0b0000_1000u8 != 0) == ((d3 / 8) % 2 == 1),
        (d3 & 0b0000_0100u8 != 0) == ((d3 / 4) % 2 == 1),
        ((((d3 & 0b0000_0011u8) as u16) << 11u16) | ((d4 as u16) << 3u16) | (((d5 & 0b1110_0000u8) as u16) >> 5u16)) as u16
            == (d3 % 4) * 2048 + d4 * 8 + d5 / 32,
        ((((d5 & 0b0001_1111u8) as u16) << 6u16) | (((d6 & 0b1111_1100u8) as u16) >> 2u16)) as u16 == (d5 % 32) * 64 + d6 / 4,
        d6 & 0b0000_0011u8 == d6 % 4,
        ((((d7 as u16) << 8u16) | (d8 as u16)) as u16) == d7 * 256 + d8,
{
}

/// A frame holds the header fields of ISO/IEC 14496-3 1.A.2.2 in order,
/// most significant bit first: `ID` in bit 12, `protection_absent` in bit
/// 15, `profile` in bits 16 and 17, `sampling_frequency_index` in bits 18
/// to 21, `private_bit` in bit 22, `channel_configuration` in bits 23 to
/// 25, `original_copy`, `home` and the two copyright bits in bits 26 to
/// 29, `aac_frame_length` in bits 30 to 42, `adts_buffer_fullness` in bits
/// 43 to 53 and `number_of_raw_data_blocks_in_frame` in bits 54 and 55,
/// then the CRC in the next two bytes when protection is on.
pub proof fn lemma_adts_field_positions(a: Adts, d: Seq<u8>)
    requires
        d.len() >= 7,
        adts_is(a, d),
    ensures
        a.id == ((d[1] / 8) % 2 == 1),
        a.protection_absent == (d[1] % 2 == 1),
        a.profile == d[2] / 64,
        a.sampling_frequency_index == (d[2] / 4) % 16,
        a.private_bit == ((d[2] / 2) % 2 == 1),
        a.channel_configuration == (d[2] % 2) * 4 + d[3] / 64,
        a.original_copy == ((d[3] / 32) % 2 == 1),
        a.home == ((d[3] / 16) % 2 == 1),
        a.copyright_identification_bit == ((d[3] / 8) % 2 == 1),
        a.copyright_identification_start == ((d[3] / 4) % 2 == 1),
        a.aac_frame_length == (d[3] % 4) * 2048 + d[4] * 8 + d[5] / 32,
        a.adts_buffer_fullness == (d[5] % 32) * 64 + d[6] / 4,
        a.number_of_raw_data_blocks_in_frame == d[6] % 4,
        d[1] % 2 == 0 && d.len() >= 9 ==> a.crc == Some((d[7] * 256 + d[8]) as u16),
        d[1] % 2 == 1 ==> a.crc is None,
{
    let d7 = if d.len() >= 9 { d[7] } else { 0u8 };
    let d8 = if d.len() >= 9 { d[8] } else { 0u8 };
    lemma_adts_field_bits(d[1], d[2], d[3], d[4], d[5], d[6], d7, d8);
}

/// A bit as 0 or 1.
pub open spec fn bit(b: bool) -> u8 {
    if b { 1 } else { 0 }
}

/// The seven header bytes of a frame (each field cut to its width).
pub open spec fn adts_header_bytes(a: Adts) -> Seq<u8> {
    seq![
        0xFFu8,
        (0xF0u8 | (bit(a.id) << 3u8) | bit(a.protection_absent)) as u8,
        ((a.profile << 6u8) | (a.sampling_frequency_index << 2u8) | (bit(a.private_bit) << 1u8)
            | ((a.channel_configuration >> 2u8) & 1u8)) as u8,
        (((a.channel_configuration & 0b11u8) << 6u8) | (bit(a.original_copy) << 5u8) | (bit(a.home) << 4u8)
            | (bit(a.copyright_identification_bit) << 3u8) | (bit(a.copyright_identification_start) << 2u8)
            | (((a.aac_frame_length >> 11u16) & 0b11u16) as u8)) as u8,
        (a.aac_frame_length >> 3u16) as u8,
        ((((a.aac_frame_length & 0b111u16) as u8) << 5u8) | (((a.adts_buffer_fullness >> 6u16) & 0b11111u16) as u8)) as u8,
        ((((a.adts_buffer_fullness & 0b111111u16) as u8) << 2u8) | (a.number_of_raw_data_blocks_in_frame & 0b11u8)) as u8,
    ]
}

/// The bytes of a frame: header, CRC when present, payload.
pub open spec fn adts_bytes(a: Adts) -> Seq<u8> {
    adts_header_bytes(a) + match a.crc {
        Some(c) => seq![(c >> 8u16) as u8, c as u8],
        None => Seq::empty(),
    } + a.payload@
}

/// Serializing a parsed frame gives back the bytes it was parsed from, up
/// to its frame length.
pub proof fn lemma_adts_roundtrip(a: Adts, d: Seq<u8>)
    requires
        adts_parse_spec(d) is Ok,
        !adts_out_of_bounds(d),
        adts_is(a, d),
    ensures
        adts_bytes(a) == d.subrange(0, frame_length_of(d) as int),
{
    let (d0, d1, d2, d3, d4, d5, d6) = (d[0], d[1], d[2], d[3], d[4], d[5], d[6]);
    let h = adts_header_bytes(a);
    assert(d0 == 0xFF && d1 >> 4u8 == 0xF) by (bit_vector)
        requires ((((d0 as u16) << 4u16) | ((d1 >> 4u8) as u16)) as u16) == 0xFFFu16;
    assert(h[1] == d1) by {
        let id = bit(d1 & 0b0000_1000u8 != 0);
        let pa = bit(d1 & 1u8 != 0);
        assert((0xF0u8 | (id << 3u8) | pa) as u8 == d1) by (bit_vector)
            requires d1 >> 4u8 == 0xF, (d1 & 0b0000_0110u8) >> 1u8 == 0,
                id == (if d1 & 0b0000_1000u8 != 0 { 1u8 } else { 0u8 }),
                pa == (if d1 & 1u8 != 0 { 1u8 } else { 0u8 });
    }
    assert(h[2] == d2) by {
        let pb = bit(d2 & 0b0000_0010u8 != 0);
        let cc = ((d2 & 1u8) << 2u8) | ((d3 & 0b1100_0000u8) >> 6u8);
        assert(((((d2 & 0b1100_0000u8) >> 6u8) << 6u8) | (((d2 & 0b0011_1100u8) >> 2u8) << 2u8) | (pb << 1u8)
            | ((cc >> 2u8) & 1u8)) as u8 == d2) by (bit_vector)
            requires pb == (if d2 & 0b0000_0010u8 != 0 { 1u8 } else { 0u8 }),
                cc == ((d2 & 1u8) << 2u8) | ((d3 & 0b1100_0000u8) >> 6u8);
    }
    let fl = frame_length_of(d);
    assert(h[3] == d3) by {
        let cc = ((d2 & 1u8) << 2u8) | ((d3 & 0b1100_0000u8) >> 6u8);
        let oc = bit(d3 & 0b0010_0000u8 != 0);
        let ho = bit(d3 & 0b0001_0000u8 != 0);
        let cb = bit(d3 & 0b0000_1000u8 != 0);
        let cs = bit(d3 & 0b0000_0100u8 != 0);
        assert((((cc & 0b11u8) << 6u8) | (oc << 5u8) | (ho << 4u8) | (cb << 3u8) | (cs << 2u8)
            | (((fl >> 11u16) & 0b11u16) as u8)) as u8 == d3) by (bit_vector)
            requires cc == ((d2 & 1u8) << 2u8) | ((d3 & 0b1100_0000u8) >> 6u8),
                oc == (if d3 & 0b0010_0000u8 != 0 { 1u8 } else { 0u8 }),
                ho == (if d3 & 0b0001_0000u8 != 0 { 1u8 } else { 0u8 }),
                cb == (if d3 & 0b0000_1000u8 != 0 { 1u8 } else { 0u8 }),
                cs == (if d3 & 0b0000_0100u8 != 0 { 1u8 } else { 0u8 }),
                fl == ((((d3 & 0b0000_0011u8) as u16) << 11u16) | ((d4 as u16) << 3u16)
                    | (((d5 & 0b1110_0000u8) as u16) >> 5u16)) as u16;
    }
    let bf = a.adts_buffer_fullness;
    assert(h[4] == d4 && h[5] == d5 && h[6] == d6) by {
        assert((fl >> 3u16) as u8 == d4
            && ((((fl & 0b111u16) as u8) << 5u8) | (((bf >> 6u16) & 0b11111u16) as u8)) as u8 == d5
            && ((((bf & 0b111111u16) as u8) << 2u8) | (d6 & 0b0000_0011u8 & 0b11u8)) as u8 == d6) by (bit_vector)
            requires fl == ((((d3 & 0b0000_0011u8) as u16) << 11u16) | ((d4 as u16) << 3u16)
                    | (((d5 & 0b1110_0000u8) as u16) >> 5u16)) as u16,
                bf == ((((d5 & 0b0001_1111u8) as u16) << 6u16) | (((d6 & 0b1111_1100u8) as u16) >> 2u16)) as u16;
    }
    let ps = payload_start_of(d);
    if d1 & 1u8 == 0 {
        let c = (((d[7] as u16) << 8u16) | (d[8] as u16)) as u16;
        let (d7, d8) = (d[7], d[8]);
        assert((c >> 8u16) as u8 == d7 && c as u8 == d8) by (bit_vector)
            requires c == (((d7 as u16) << 8u16) | (d8 as u16)) as u16;
    }
    assert(adts_bytes(a) =~= d.subrange(0, fl as int));
}

impl Adts {
    /// Serialize the header, the CRC when present, and the payload.
    pub fn to_bytes(&self) -> (r: Vec<u8>)
        ensures
            r@ == adts_bytes(*self),
    {
        let id: u8 = if self.id { 1 } else { 0 };
        let pa: u8 = if self.protection_absent { 1 } else { 0 };
        let pb: u8 = if self.private_bit { 1 } else { 0 };
        let oc: u8 = if self.original_copy { 1 } else { 0 };
        let ho: u8 = if self.home { 1 } else { 0 };
        let cb: u8 = if self.copyright_identification_bit { 1 } else { 0 };
        let cs: u8 = if self.copyright_identification_start { 1 } else { 0 };
        let mut buf: Vec<u8> = Vec::new();
        buf.push(0xFF);
        buf.push(0xF0 | (id << 3) | pa);
        buf.push((self.profile << 6) | (self.sampling_frequency_index << 2) | (pb << 1)
            | ((self.channel_configuration >> 2) & 1));
        buf.push(((self.channel_configuration & 0b11) << 6) | (oc << 5) | (ho << 4) | (cb << 3) | (cs << 2)
            | (((self.aac_frame_length >> 11) & 0b11) as u8));
        buf.push((self.aac_frame_length >> 3) as u8);
        buf.push((((self.aac_frame_length & 0b111) as u8) << 5) | (((self.adts_buffer_fullness >> 6) & 0b11111) as u8));
        buf.push((((self.adts_buffer_fullness & 0b111111) as u8) << 2) | (self.number_of_raw_data_blocks_in_frame & 0b11));
        assert(buf@ =~= adts_header_bytes(*self));
        let ghost h = buf@;
        match self.crc {
            Some(crc) => {
                buf.push((crc >> 8) as u8);
                buf.push(crc as u8);
                assert(buf@ =~= h + seq![(crc >> 8u16) as u8, crc as u8]);
            },
            None => {
                assert(buf@ =~= h + Seq::<u8>::empty());
            },
        }
        extend(&mut buf, self.payload.as_slice());
        buf
    }

    /// Parse a single ADTS frame from the start of `data`.
    pub fn parse(data: &[u8]) -> (r: Result<Self, Error>)
        requires
            !adts_out_of_bounds(data@),
        ensures
            match adts_parse_spec(data@) {
                Ok(_) => r matches Ok(a) && adts_is(a, data@),
                Err(e) => r matches Err(x) && x == e,
            },
    {
        if data.len() < 7 {
            return Err(Error::DataTooShort);
        }
        let syncword: u16 = ((data[0] as u16) << 4) | ((data[1] >> 4) as u16);
        if syncword != 0xFFF {
            return Err(Error::InvalidSyncword(syncword));
        }
        let id = ((data[1] & 0b0000_1000) >> 3) != 0;
        let layer = (data[1] & 0b0000_0110) >> 1;
        if layer != 0 {
            return Err(Error::InvalidLayer(layer));
        }
        let protection_absent = (data[1] & 0b0000_0001) != 0;
        let profile = (data[2] & 0b1100_0000) >> 6;
        let sampling_frequency_index = (data[2] & 0b0011_1100) >> 2;
        let private_bit = ((data[2] & 0b0000_0010) >> 1) != 0;
        let channel_configuration = ((data[2] & 0b0000_0001) << 2) | ((data[3] & 0b1100_0000) >> 6);
        let original_copy = ((data[3] & 0b0010_0000) >> 5) != 0;
        let home = ((data[3] & 0b0001_0000) >> 4) != 0;
        let copyright_identification_bit = ((data[3] & 0b0000_1000) >> 3) != 0;
        let copyright_identification_start = ((data[3] & 0b0000_0100) >> 2) != 0;
        let aac_frame_length: u16 = (((data[3] & 0b0000_0011) as u16) << 11) | ((data[4] as u16) << 3)
            | (((data[5] & 0b1110_0000) as u16) >> 5);
        let adts_buffer_fullness: u16 = (((data[5] & 0b0001_1111) as u16) << 6) | (((data[6] & 0b1111_1100) as u16) >> 2);
        let number_of_raw_data_blocks_in_frame = data[6] & 0b0000_0011;
        proof {
            let (d1, d2, d3) = (data@[1], data@[2], data@[3]);
            assert((((d1 & 0b0000_1000u8) >> 3u8) != 0) == (d1 & 0b0000_1000u8 != 0)) by (bit_vector);
            assert((((d2 & 0b0000_0010u8) >> 1u8) != 0) == (d2 & 0b0000_0010u8 != 0)) by (bit_vector);
            assert((((d3 & 0b0010_0000u8) >> 5u8) != 0) == (d3 & 0b0010_0000u8 != 0)) by (bit_vector);
            assert((((d3 & 0b0001_0000u8) >> 4u8) != 0) == (d3 & 0b0001_0000u8 != 0)) by (bit_vector);
            assert((((d3 & 0b0000_1000u8) >> 3u8) != 0) == (d3 & 0b0000_1000u8 != 0)) by (bit_vector);
            assert((((d3 & 0b0000_0100u8) >> 2u8) != 0) == (d3 & 0b0000_0100u8 != 0)) by (bit_vector);
        }
        let mut payload_start: usize = 7;
        let crc = if !protection_absent {
            payload_start = 9;
            Some(((data[7] as u16) << 8) | (data[8] as u16))
        } else {
            None
        };
        let frame_length = aac_frame_length as usize;
        if data.len() < frame_length {
            return Err(Error::DataTooShort);
        }
        let payload = copy_range(data, payload_start, frame_length);
        Ok(Adts {
            id,
            protection_absent,
            profile,
            sampling_frequency_index,
            private_bit,
            channel_configuration,
            original_copy,
            home,
            copyright_identification_bit,
            copyright_identification_start,
            aac_frame_length,
            adts_buffer_fullness,
            number_of_raw_data_blocks_in_frame,
            crc,
            payload,
        })
    }
}

} // verus!
