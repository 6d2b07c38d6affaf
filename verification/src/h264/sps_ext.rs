//! Sequence parameter set extension: auxiliary coded picture format and,
//! for alpha planes, the alpha sample values.

use vstd::prelude::*;
use crate::bitstream::{BitstreamReader, BitstreamWriter, bytes_bits, u32_bits, ue_bits};
use crate::h264::error::Error;
use crate::h264::syntax::{read_u, read_flag, read_ue, sp_u, sp_flag, sp_ue, rbsp_bits};

verus! {

/// Alpha plane description, present when `aux_format_idc != 0`.
#[derive(Debug, Clone, Copy, PartialEq, Eq, Structural)]
pub struct Alpha {
    pub bit_depth_aux_minus8: u32,
    pub alpha_incr_flag: bool,
    pub alpha_opaque_value: u32,
    pub alpha_transparent_value: u32,
}

/// Sequence parameter set extension RBSP.
#[derive(Debug, Clone, Copy, PartialEq, Eq, Structural)]
pub struct SpsExt {
    pub seq_parameter_set_id: u32,
    pub aux_format_idc: u32,
    pub alpha: Option<Alpha>,
    pub additional_extension_flag: bool,
}

/// Parsing the alpha part at bit position `p`, present when `aux != 0`;
/// `bit_depth_aux_minus8` above 8 is refused.
pub open spec fn alpha_parse_spec(s: Seq<bool>, p: nat, aux: u32) -> Result<(Option<Alpha>, nat), Error> {
    if aux == 0 {
        Ok((None, p))
    } else {
        match sp_ue(s, p) {
            Err(e) => Err(e),
            Ok((bd, p1)) => if bd > 8 {
                Err(Error::InvalidBitDepthAuxMinus8(bd))
            } else {
                match sp_flag(s, p1) {
                    Err(e) => Err(e),
                    Ok((incr, p2)) => match sp_u(s, p2, (bd + 9) as nat) {
                        Err(e) => Err(e),
                        Ok((opaque, p3)) => match sp_u(s, p3, (bd + 9) as nat) {
                            Err(e) => Err(e),
                            Ok((transparent, p4)) => Ok((Some(Alpha {
                                bit_depth_aux_minus8: bd,
                                alpha_incr_flag: incr,
                                alpha_opaque_value: opaque,
                                alpha_transparent_value: transparent,
                            }), p4)),
                        },
                    },
                }
            },
        }
    }
}

/// Parsing an SPS extension from the bits `s`; `aux_format_idc` above 3 is
/// refused.
pub open spec fn sps_ext_parse_spec(s: Seq<bool>) -> Result<SpsExt, Error> {
    match sp_ue(s, 0) {
        Err(e) => Err(e),
        Ok((id, p1)) => match sp_ue(s, p1) {
            Err(e) => Err(e),
            Ok((aux, p2)) => if aux > 3 {
                Err(Error::InvalidAuxFormatIdc(aux))
            } else {
                match alpha_parse_spec(s, p2, aux) {
                    Err(e) => Err(e),
                    Ok((alpha, p3)) => match sp_flag(s, p3) {
                        Err(e) => Err(e),
                        Ok((ext, _)) => Ok(SpsExt {
                            seq_parameter_set_id: id,
                            aux_format_idc: aux,
                            alpha,
                            additional_extension_flag: ext,
                        }),
                    },
                }
            },
        },
    }
}

/// The syntax bits of the alpha part.
pub open spec fn alpha_bits(a: Alpha) -> Seq<bool> {
    ue_bits(a.bit_depth_aux_minus8) + seq![a.alpha_incr_flag]
        + u32_bits(a.alpha_opaque_value, (a.bit_depth_aux_minus8 + 9) as nat)
        + u32_bits(a.alpha_transparent_value, (a.bit_depth_aux_minus8 + 9) as nat)
}

/// The syntax bits of an SPS extension (without the trailing bits).
pub open spec fn sps_ext_bits(x: SpsExt) -> Seq<bool> {
    ue_bits(x.seq_parameter_set_id) + ue_bits(x.aux_format_idc) + match x.alpha {
        Some(a) => alpha_bits(a),
        None => Seq::empty(),
    } + seq![x.additional_extension_flag]
}

/// What serializing needs: every `ue(v)` value below `u32::MAX` and sample
/// values of at most 32 bits.
pub open spec fn sps_ext_writable(x: SpsExt) -> bool {
    &&& x.seq_parameter_set_id < u32::MAX
    &&& x.aux_format_idc < u32::MAX
    &&& (x.alpha matches Some(a) ==> a.bit_depth_aux_minus8 + 9 <= 32)
}

impl SpsExt {
    /// Serialize the fields, the stop bit and the alignment bits.
    pub fn to_bytes(&self) -> (r: Vec<u8>)
        requires
            sps_ext_writable(*self),
        ensures
            bytes_bits(r@) == rbsp_bits(sps_ext_bits(*self)),
    {
        let mut writer = BitstreamWriter::new();
        writer.write_ue(self.seq_parameter_set_id);
        assert(writer.bits() =~= ue_bits(self.seq_parameter_set_id));
        writer.write_ue(self.aux_format_idc);
        let ghost mid = writer.bits();
        match &self.alpha {
            Some(alpha) => {
                writer.write_ue(alpha.bit_depth_aux_minus8);
                writer.write_bool(alpha.alpha_incr_flag);
                let n: u8 = (alpha.bit_depth_aux_minus8 + 9) as u8;
                writer.write_bits(alpha.alpha_opaque_value, n);
                writer.write_bits(alpha.alpha_transparent_value, n);
                assert(writer.bits() =~= mid + alpha_bits(*alpha));
            },
            None => {
                assert(writer.bits() =~= mid + Seq::<bool>::empty());
            },
        }
        let ghost body = writer.bits();
        writer.write_bool(self.additional_extension_flag);
        assert(writer.bits() =~= sps_ext_bits(*self));
        writer.write_bits(1, 1);
        proof {
            crate::bitstream::lemma_u32_bits_one();
            assert(writer.bits() =~= sps_ext_bits(*self).push(true));
        }
        writer.finish()
    }

    /// Parse an SPS extension RBSP.
    pub fn parse(data: &[u8]) -> (r: Result<Self, Error>)
        requires
            data@.len() * 8 <= usize::MAX,
        ensures
            r == sps_ext_parse_spec(bytes_bits(data@)),
    {
        let mut reader = BitstreamReader::new(data);
        let seq_parameter_set_id = read_ue(&mut reader)?;
        let aux_format_idc = read_ue(&mut reader)?;
        if aux_format_idc > 3 {
            return Err(Error::InvalidAuxFormatIdc(aux_format_idc));
        }
        let alpha = if aux_format_idc != 0 {
            let bit_depth_aux_minus8 = read_ue(&mut reader)?;
            if bit_depth_aux_minus8 > 8 {
                return Err(Error::InvalidBitDepthAuxMinus8(bit_depth_aux_minus8));
            }
            let alpha_incr_flag = read_flag(&mut reader)?;
            let n: u8 = (bit_depth_aux_minus8 + 9) as u8;
            let alpha_opaque_value = read_u(&mut reader, n)?;
            let alpha_transparent_value = read_u(&mut reader, n)?;
            Some(Alpha { bit_depth_aux_minus8, alpha_incr_flag, alpha_opaque_value, alpha_transparent_value })
        } else {
            None
        };
        let additional_extension_flag = read_flag(&mut reader)?;
        Ok(SpsExt { seq_parameter_set_id, aux_format_idc, alpha, additional_extension_flag })
    }
}

} // verus!
