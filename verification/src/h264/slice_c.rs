//! Slice data partition C: `slice_id`, `colour_plane_id` (with separate
//! colour planes), `redundant_pic_cnt` (when the PPS has it), and the slice
//! data kept as bytes.

use vstd::prelude::*;
use crate::bitstream::{BitstreamReader, BitstreamWriter, bytes_bits, u32_bits, ue_bits, remaining_bytes_spec, lemma_add_assoc};
use crate::h264::error::Error;
use crate::h264::pps::{Pps, PpsView};
use crate::h264::slice_header::{separate_colour_plane, opt_ue_bits};
use crate::h264::sps::{Sps, SpsView};
use crate::h264::syntax::{read_u, read_ue, sp_u, sp_ue, remaining_data_bits, byte_aligned};

verus! {

/// Slice data partition C.
#[derive(Debug)]
pub struct SliceC {
    pub slice_id: u32,
    pub colour_plane_id: Option<u8>,
    pub redundant_pic_cnt: Option<u32>,
    pub slice_data: Vec<u8>,
    pub slice_data_bit_offset: u8,
}

/// Model of `SliceC`.
pub struct SliceCView {
    pub slice_id: u32,
    pub colour_plane_id: Option<u8>,
    pub redundant_pic_cnt: Option<u32>,
    pub slice_data: Seq<u8>,
    pub slice_data_bit_offset: u8,
}

impl View for SliceC {
    type V = SliceCView;

    open spec fn view(&self) -> SliceCView {
        SliceCView {
            slice_id: self.slice_id,
            colour_plane_id: self.colour_plane_id,
            redundant_pic_cnt: self.redundant_pic_cnt,
            slice_data: self.slice_data@,
            slice_data_bit_offset: self.slice_data_bit_offset,
        }
    }
}

/// Parsing partition C from its RBSP bytes.
pub open spec fn slice_c_parse_spec(d: Seq<u8>, sps: SpsView, pps: PpsView) -> Result<SliceCView, Error> {
    let s = bytes_bits(d);
    match sp_ue(s, 0) {
        Err(e) => Err(e),
        Ok((id, p1)) => {
            let cp: Result<(Option<u8>, nat), Error> = if separate_colour_plane(sps) {
                match sp_u(s, p1, 2) {
                    Ok((v, q)) => Ok((Some(v as u8), q)),
                    Err(e) => Err(e),
                }
            } else {
                Ok((None, p1))
            };
            match cp {
                Err(e) => Err(e),
                Ok((c, p2)) => {
                    let rp: Result<(Option<u32>, nat), Error> = if pps.redundant_pic_cnt_present_flag {
                        match sp_ue(s, p2) {
                            Ok((v, q)) => Ok((Some(v), q)),
                            Err(e) => Err(e),
                        }
                    } else {
                        Ok((None, p2))
                    };
                    match rp {
                        Err(e) => Err(e),
                        Ok((red, p3)) => Ok(SliceCView {
                            slice_id: id,
                            colour_plane_id: c,
                            redundant_pic_cnt: red,
                            slice_data: remaining_bytes_spec(d, p3),
                            slice_data_bit_offset: (p3 % 8) as u8,
                        }),
                    }
                },
            }
        },
    }
}

/// The bits of partition C (before byte alignment).
pub open spec fn slice_c_bits(v: SliceCView) -> Seq<bool> {
    ue_bits(v.slice_id) + (match v.colour_plane_id {
        Some(c) => u32_bits(c as u32, 2),
        None => Seq::empty(),
    }) + opt_ue_bits(v.redundant_pic_cnt) + remaining_data_bits(v.slice_data, v.slice_data_bit_offset)
}

impl SliceC {
    /// Write partition C; it always succeeds (the SPS and PPS are not
    /// needed).
    pub fn to_bytes(&self, _sps: &Sps, _pps: &Pps) -> (r: Result<Vec<u8>, Error>)
        requires
            self.slice_id < u32::MAX,
            self.redundant_pic_cnt matches Some(x) ==> x < u32::MAX,
            self.slice_data@.len() == 0 || self.slice_data_bit_offset < 8,
        ensures
            r matches Ok(b) && bytes_bits(b@) == byte_aligned(slice_c_bits(self@)),
    {
        let mut writer = BitstreamWriter::new();
        writer.write_ue(self.slice_id);
        let ghost b1 = writer.bits();
        if let Some(c) = self.colour_plane_id {
            writer.write_bits(c as u32, 2);
        } else {
            assert(b1 + Seq::<bool>::empty() =~= b1);
        }
        let ghost b2 = writer.bits();
        if let Some(r) = self.redundant_pic_cnt {
            writer.write_ue(r);
        } else {
            assert(b2 + Seq::<bool>::empty() =~= b2);
        }
        writer.write_remaining_bytes(self.slice_data.as_slice(), self.slice_data_bit_offset);
        proof {
            assert(Seq::<bool>::empty() + ue_bits(self.slice_id) =~= ue_bits(self.slice_id));
        }
        Ok(writer.finish())
    }

    /// Parse partition C from its RBSP bytes.
    pub fn parse(data: &[u8], sps: &Sps, pps: &Pps) -> (r: Result<Self, Error>)
        requires
            data@.len() * 8 <= usize::MAX,
        ensures
            match slice_c_parse_spec(data@, sps@, pps@) {
                Ok(v) => r matches Ok(x) && x@ == v,
                Err(e) => r matches Err(x) && x == e,
            },
    {
        let mut reader = BitstreamReader::new(data);
        let slice_id = read_ue(&mut reader)?;
        let separate = match &sps.high_profile {
            Some(hp) => match hp.separate_colour_plane_flag {
                Some(f) => f,
                None => false,
            },
            None => false,
        };
        let colour_plane_id = if separate {
            Some(read_u(&mut reader, 2)? as u8)
        } else {
            None
        };
        let redundant_pic_cnt = if pps.redundant_pic_cnt_present_flag {
            Some(read_ue(&mut reader)?)
        } else {
            None
        };
        let (slice_data, slice_data_bit_offset) = reader.read_remaining_bytes();
        Ok(SliceC { slice_id, colour_plane_id, redundant_pic_cnt, slice_data, slice_data_bit_offset })
    }
}

} // verus!
