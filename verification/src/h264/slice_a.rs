//! Slice data partition A: slice header, `slice_id`, and the slice data
//! kept as bytes (with the bit offset at which it starts in its first
//! byte).

use vstd::prelude::*;
use crate::bitstream::{BitstreamReader, BitstreamWriter, bytes_bits, ue_bits, remaining_bytes_spec, lemma_add_assoc};
use crate::h264::error::Error;
use crate::h264::nal::NalUnitType;
use crate::h264::pps::Pps;
use crate::h264::slice_header::{SliceHeader, SliceHeaderView, slice_header_spec, slice_header_bits, header_parsable, header_writable};
use crate::h264::sps::Sps;
use crate::h264::syntax::{read_ue, sp_ue, remaining_data_bits, byte_aligned};
use crate::h264::sps::SpsView;
use crate::h264::pps::PpsView;

verus! {

/// Slice data partition A.
#[derive(Debug)]
pub struct SliceA {
    pub slice_header: SliceHeader,
    pub slice_id: u32,
    pub slice_data: Vec<u8>,
    pub slice_data_bit_offset: u8,
}

/// Model of `SliceA`.
pub struct SliceAView {
    pub slice_header: SliceHeaderView,
    pub slice_id: u32,
    pub slice_data: Seq<u8>,
    pub slice_data_bit_offset: u8,
}

impl View for SliceA {
    type V = SliceAView;

    open spec fn view(&self) -> SliceAView {
        SliceAView {
            slice_header: self.slice_header@,
            slice_id: self.slice_id,
            slice_data: self.slice_data@,
            slice_data_bit_offset: self.slice_data_bit_offset,
        }
    }
}

/// Parsing partition A from its RBSP bytes: the slice header (as in a NAL
/// unit of type 2), `slice_id`, and the rest of the bytes from there.
pub open spec fn slice_a_parse_spec(d: Seq<u8>, sps: SpsView, pps: PpsView, nal_ref_idc: u8) -> Result<SliceAView, Error> {
    let s = bytes_bits(d);
    match slice_header_spec(s, 0, sps, pps, NalUnitType::SliceA, nal_ref_idc) {
        Err(e) => Err(e),
        Ok((h, p1)) => match sp_ue(s, p1) {
            Err(e) => Err(e),
            Ok((id, p2)) => Ok(SliceAView {
                slice_header: h,
                slice_id: id,
                slice_data: remaining_bytes_spec(d, p2),
                slice_data_bit_offset: (p2 % 8) as u8,
            }),
        },
    }
}

/// The bits of partition A (before byte alignment).
pub open spec fn slice_a_bits(v: SliceAView, sps: SpsView, pps: PpsView) -> Seq<bool> {
    slice_header_bits(v.slice_header, sps, pps) + ue_bits(v.slice_id)
        + remaining_data_bits(v.slice_data, v.slice_data_bit_offset)
}

impl SliceA {
    /// Write partition A; it always succeeds.
    pub fn to_bytes(&self, sps: &Sps, pps: &Pps) -> (r: Result<Vec<u8>, Error>)
        requires
            header_writable(self.slice_header@, sps@, pps@),
            self.slice_id < u32::MAX,
            self.slice_data@.len() == 0 || self.slice_data_bit_offset < 8,
        ensures
            r matches Ok(b) && bytes_bits(b@) == byte_aligned(slice_a_bits(self@, sps@, pps@)),
    {
        let mut writer = BitstreamWriter::new();
        let ghost b0 = writer.bits();
        let _ = self.slice_header.to_bytes(&mut writer, sps, pps);
        let ghost hb = slice_header_bits(self.slice_header@, sps@, pps@);
        writer.write_ue(self.slice_id);
        writer.write_remaining_bytes(self.slice_data.as_slice(), self.slice_data_bit_offset);
        proof {
            assert(b0 + hb =~= hb);
        }
        Ok(writer.finish())
    }

    /// Parse partition A from its RBSP bytes.
    pub fn parse(data: &[u8], sps: &Sps, pps: &Pps, nal_ref_idc: u8) -> (r: Result<Self, Error>)
        requires
            data@.len() * 8 <= usize::MAX,
            header_parsable(sps@, pps@),
        ensures
            match slice_a_parse_spec(data@, sps@, pps@, nal_ref_idc) {
                Ok(v) => r matches Ok(x) && x@ == v,
                Err(e) => r matches Err(x) && x == e,
            },
    {
        let mut reader = BitstreamReader::new(data);
        let slice_header = SliceHeader::parse(&mut reader, sps, pps, NalUnitType::SliceA, nal_ref_idc)?;
        let slice_id = read_ue(&mut reader)?;
        let (slice_data, slice_data_bit_offset) = reader.read_remaining_bytes();
        Ok(SliceA { slice_header, slice_id, slice_data, slice_data_bit_offset })
    }
}

} // verus!
