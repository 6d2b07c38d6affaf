//! AVC decoder configuration record (`avcC`): profile and level bytes, the
//! NAL length size, and the parameter set NAL units, each prefixed by a
//! 16-bit length.

use vstd::prelude::*;
use crate::bitstream::{
    BitstreamReader, BitstreamWriter, bytes_bits, u32_bits, lemma_bytes_bits_push,
    lemma_u32_bits_byte,
};
use crate::h264::error::Error;
use crate::h264::syntax::{read_u, sp_u};
use crate::bitstream::byte_bit;

verus! {

/// AVC decoder configuration record.
#[derive(Debug, Clone)]
pub struct AvccConfig {
    pub configuration_version: u8,
    pub avc_profile_indication: u8,
    pub profile_compatibility: u8,
    pub avc_level_indication: u8,
    pub length_size_minus_one: u8,
    pub sps_nalus: Vec<Vec<u8>>,
    pub pps_nalus: Vec<Vec<u8>>,
    pub extension: Option<Extension>,
}

/// Extension fields present for profiles other than 66, 77 and 88.
#[derive(Debug, Clone)]
pub struct Extension {
    pub chroma_format: u8,
    pub bit_depth_luma_minus8: u8,
    pub bit_depth_chroma_minus8: u8,
    pub sps_ext_nalus: Vec<Vec<u8>>,
}

/// Reading `count` length-prefixed NAL units at bit position `p`: the bit
/// range of each unit's bytes, and the position after the last one.
pub open spec fn nal_array_spec(s: Seq<bool>, p: nat, count: nat) -> Result<(Seq<(nat, nat)>, nat), Error>
    decreases count,
{
    if count == 0 {
        Ok((Seq::empty(), p))
    } else {
        match sp_u(s, p, 16) {
            Err(e) => Err(e),
            Ok((len, p1)) => if p1 + 8 * len > s.len() {
                Err(Error::DataTooShort)
            } else {
                match nal_array_spec(s, (p1 + 8 * len) as nat, (count - 1) as nat) {
                    Err(e) => Err(e),
                    Ok((rest, q)) => Ok((seq![(p1, (p1 + 8 * len) as nat)] + rest, q)),
                }
            },
        }
    }
}

/// The NAL units `v` are the byte ranges `ranges` of the bits `s`.
pub open spec fn nal_array_is(v: Seq<Vec<u8>>, s: Seq<bool>, ranges: Seq<(nat, nat)>) -> bool {
    &&& v.len() == ranges.len()
    &&& forall|k: int| 0 <= k < v.len() ==> bytes_bits(#[trigger] v[k]@) == s.subrange(ranges[k].0 as int, ranges[k].1 as int)
}

/// The bits of length-prefixed NAL units.
pub open spec fn nal_array_bits(v: Seq<Vec<u8>>) -> Seq<bool>
    decreases v.len(),
{
    if v.len() == 0 {
        Seq::empty()
    } else {
        nal_array_bits(v.drop_last()) + u32_bits(v.last()@.len() as u32, 16) + bytes_bits(v.last()@)
    }
}

/// Whether a profile carries the extension fields.
pub open spec fn has_extension(profile: u8) -> bool {
    !(profile == 66 || profile == 77 || profile == 88)
}

/// Parsed model of the extension: chroma format, bit depths and the
/// SPS extension NAL unit ranges.
pub type ExtensionModel = (u32, u32, u32, Seq<(nat, nat)>);

/// Parsed model of a record: the four header bytes, the length size field,
/// the SPS and PPS ranges, and the extension.
pub type AvccModel = (u32, u32, u32, u32, u32, Seq<(nat, nat)>, Seq<(nat, nat)>, Option<ExtensionModel>);

/// Reading the extension at bit position `p`.
pub open spec fn avcc_extension_spec(s: Seq<bool>, p: nat) -> Result<ExtensionModel, Error> {
    match sp_u(s, p, 6) {
        Err(e) => Err(e),
        Ok((_, p1)) => match sp_u(s, p1, 2) {
            Err(e) => Err(e),
            Ok((chroma, p2)) => match sp_u(s, p2, 5) {
                Err(e) => Err(e),
                Ok((_, p3)) => match sp_u(s, p3, 3) {
                    Err(e) => Err(e),
                    Ok((luma, p4)) => match sp_u(s, p4, 5) {
                        Err(e) => Err(e),
                        Ok((_, p5)) => match sp_u(s, p5, 3) {
                            Err(e) => Err(e),
                            Ok((chroma_depth, p6)) => match sp_u(s, p6, 8) {
                                Err(e) => Err(e),
                                Ok((n, p7)) => match nal_array_spec(s, p7, n as nat) {
                                    Err(e) => Err(e),
                                    Ok((ranges, _)) => Ok((chroma, luma, chroma_depth, ranges)),
                                },
                            },
                        },
                    },
                },
            },
        },
    }
}

/// Reading the fixed header at bit position `p`: version, profile,
/// compatibility, level, length size field, SPS count, next position.
pub open spec fn avcc_head_spec(s: Seq<bool>, p: nat) -> Result<(u32, u32, u32, u32, u32, u32, nat), Error> {
    match sp_u(s, p, 8) {
        Err(e) => Err(e),
        Ok((version, p1)) => match sp_u(s, p1, 8) {
            Err(e) => Err(e),
            Ok((profile, p2)) => match sp_u(s, p2, 8) {
                Err(e) => Err(e),
                Ok((compat, p3)) => match sp_u(s, p3, 8) {
                    Err(e) => Err(e),
                    Ok((level, p4)) => match sp_u(s, p4, 6) {
                        Err(e) => Err(e),
                        Ok((_, p5)) => match sp_u(s, p5, 2) {
                            Err(e) => Err(e),
                            Ok((lsm1, p6)) => match sp_u(s, p6, 3) {
                                Err(e) => Err(e),
                                Ok((_, p7)) => match sp_u(s, p7, 5) {
                                    Err(e) => Err(e),
                                    Ok((nsps, p8)) => Ok((version, profile, compat, level, lsm1, nsps, p8)),
                                },
                            },
                        },
                    },
                },
            },
        },
    }
}

/// Reading a record from the bytes `d`; fewer than seven bytes are refused.
pub open spec fn avcc_parse_spec(d: Seq<u8>) -> Result<AvccModel, Error> {
    let s = bytes_bits(d);
    if d.len() < 7 {
        Err(Error::DataTooShort)
    } else {
        match avcc_head_spec(s, 0) {
            Err(e) => Err(e),
            Ok((version, profile, compat, level, lsm1, nsps, p8)) => match nal_array_spec(s, p8, nsps as nat) {
                Err(e) => Err(e),
                Ok((sps, p9)) => match sp_u(s, p9, 8) {
                    Err(e) => Err(e),
                    Ok((npps, p10)) => match nal_array_spec(s, p10, npps as nat) {
                        Err(e) => Err(e),
                        Ok((pps, p11)) => if has_extension(profile as u8) {
                            match avcc_extension_spec(s, p11) {
                                Err(e) => Err(e),
                                Ok(x) => Ok((version, profile, compat, level, lsm1, sps, pps, Some(x))),
                            }
                        } else {
                            Ok((version, profile, compat, level, lsm1, sps, pps, None))
                        },
                    },
                },
            },
        }
    }
}

/// Byte `k` of `d`, read as eight bits from bit `8 * k`, is that byte.
pub proof fn lemma_read_byte(d: Seq<u8>, k: nat)
    requires
        k < d.len(),
    ensures
        sp_u(bytes_bits(d), 8 * k, 8) == Ok::<(u32, nat), Error>((d[k as int] as u32, 8 * k + 8)),
{
    let s = bytes_bits(d);
    let b = d[k as int];
    assert(s.subrange(8 * k as int, 8 * k as int + 8) =~= Seq::new(8, |j: int| byte_bit(b, j))) by {
        assert forall|j: int| 0 <= j < 8 implies s[8 * k + j] == byte_bit(b, j) by {
            assert((8 * k + j) / 8 == k && (8 * k + j) % 8 == j) by (nonlinear_arith)
                requires 0 <= j < 8;
        }
    }
    crate::bitstream::lemma_u32_bits_byte(b);
    crate::bitstream::lemma_seq_val_u32_bits(b as u32, 8);
    vstd::arithmetic::power2::lemma2_to64();
}

/// A decoder configuration record holds, in its first four bytes,
/// `configurationVersion`, `AVCProfileIndication`, `profile_compatibility`
/// and `AVCLevelIndication`, one byte each and in that order.
pub proof fn lemma_avcc_head_bytes(d: Seq<u8>)
    requires
        avcc_parse_spec(d) is Ok,
    ensures
        avcc_parse_spec(d)->Ok_0.0 == d[0] as u32,
        avcc_parse_spec(d)->Ok_0.1 == d[1] as u32,
        avcc_parse_spec(d)->Ok_0.2 == d[2] as u32,
        avcc_parse_spec(d)->Ok_0.3 == d[3] as u32,
{
    lemma_read_byte(d, 0);
    lemma_read_byte(d, 1);
    lemma_read_byte(d, 2);
    lemma_read_byte(d, 3);
}

/// A record holds the parsed model `m` of the bits `s`.
pub open spec fn avcc_is(c: AvccConfig, s: Seq<bool>, m: AvccModel) -> bool {
    &&& c.configuration_version == m.0
    &&& c.avc_profile_indication == m.1
    &&& c.profile_compatibility == m.2
    &&& c.avc_level_indication == m.3
    &&& c.length_size_minus_one == m.4
    &&& nal_array_is(c.sps_nalus@, s, m.5)
    &&& nal_array_is(c.pps_nalus@, s, m.6)
    &&& match (c.extension, m.7) {
        (Some(e), Some(x)) => e.chroma_format == x.0 && e.bit_depth_luma_minus8 == x.1
            && e.bit_depth_chroma_minus8 == x.2 && nal_array_is(e.sps_ext_nalus@, s, x.3),
        (None, None) => true,
        _ => false,
    }
}

/// The bits of a record.
pub open spec fn avcc_bits(c: AvccConfig) -> Seq<bool> {
    u32_bits(c.configuration_version as u32, 8) + u32_bits(c.avc_profile_indication as u32, 8)
        + u32_bits(c.profile_compatibility as u32, 8) + u32_bits(c.avc_level_indication as u32, 8)
        + u32_bits(0b11_1111, 6) + u32_bits((c.length_size_minus_one & 0b11) as u32, 2)
        + u32_bits(0b111, 3) + u32_bits(c.sps_nalus@.len() as u32, 5) + nal_array_bits(c.sps_nalus@)
        + u32_bits(c.pps_nalus@.len() as u32, 8) + nal_array_bits(c.pps_nalus@)
        + match c.extension {
            Some(e) => u32_bits(0b11_1111, 6) + u32_bits((e.chroma_format & 0b11) as u32, 2)
                + u32_bits(0b1_1111, 5) + u32_bits((e.bit_depth_luma_minus8 & 0b111) as u32, 3)
                + u32_bits(0b1_1111, 5) + u32_bits((e.bit_depth_chroma_minus8 & 0b111) as u32, 3)
                + u32_bits(e.sps_ext_nalus@.len() as u32, 8) + nal_array_bits(e.sps_ext_nalus@),
            None => Seq::empty(),
        }
}

/// Write length-prefixed NAL units.
fn write_nal_array(writer: &mut BitstreamWriter, nalus: &Vec<Vec<u8>>)
    ensures
        final(writer).bits() == old(writer).bits() + nal_array_bits(nalus@),
{
    let mut i: usize = 0;
    while i < nalus.len()
        invariant
            i <= nalus@.len(),
            writer.bits() == old(writer).bits() + nal_array_bits(nalus@.subrange(0, i as int)),
        decreases nalus@.len() - i,
    {
        let nal = &nalus[i];
        let ghost before = writer.bits();
        writer.write_bits(nal.len() as u32, 16);
        let mut j: usize = 0;
        while j < nal.len()
            invariant
                j <= nal@.len(),
                writer.bits() == before + u32_bits(nal@.len() as u32, 16) + bytes_bits(nal@.subrange(0, j as int)),
            decreases nal@.len() - j,
        {
            let b = nal[j];
            writer.write_bits(b as u32, 8);
            proof {
                lemma_u32_bits_byte(b);
                lemma_bytes_bits_push(nal@.subrange(0, j as int), b);
                assert(nal@.subrange(0, j as int).push(b) =~= nal@.subrange(0, j + 1));
                assert(writer.bits() =~= before + u32_bits(nal@.len() as u32, 16) + bytes_bits(nal@.subrange(0, j + 1)));
            }
            j = j + 1;
        }
        proof {
            assert(nal@.subrange(0, nal@.len() as int) =~= nal@);
            let v = nalus@.subrange(0, i + 1);
            assert(v.drop_last() =~= nalus@.subrange(0, i as int));
            assert(writer.bits() =~= old(writer).bits() + nal_array_bits(v));
        }
        i = i + 1;
    }
    assert(nalus@.subrange(0, nalus@.len() as int) =~= nalus@);
}

/// Read `count` length-prefixed NAL units.
fn read_nal_array(reader: &mut BitstreamReader, count: usize) -> (r: Result<Vec<Vec<u8>>, Error>)
    ensures
        final(reader).bytes() == old(reader).bytes(),
        match nal_array_spec(old(reader).bits(), old(reader).pos(), count as nat) {
            Ok((ranges, q)) => r matches Ok(v) && nal_array_is(v@, old(reader).bits(), ranges) && final(reader).pos() == q,
            Err(e) => r matches Err(x) && x == e,
        },
{
    let ghost s = old(reader).bits();
    let mut out: Vec<Vec<u8>> = Vec::new();
    let mut i: usize = 0;
    let ghost mut done: Seq<(nat, nat)> = Seq::empty();
    while i < count
        invariant
            i <= count,
            reader.bytes() == old(reader).bytes(),
            s == old(reader).bits(),
            s == reader.bits(),
            nal_array_is(out@, s, done),
            nal_array_spec(s, old(reader).pos(), count as nat) == match nal_array_spec(s, reader.pos(), (count - i) as nat) {
                Ok((rest, q)) => Ok::<(Seq<(nat, nat)>, nat), Error>((done + rest, q)),
                Err(e) => Err::<(Seq<(nat, nat)>, nat), Error>(e),
            },
        decreases count - i,
    {
        let ghost p = reader.pos();
        let len = read_u(reader, 16)?;
        let ghost p1 = reader.pos();
        let nal = match reader.read_slice(len as usize) {
            Ok(v) => v,
            Err(_) => return Err(Error::DataTooShort),
        };
        proof {
            let rest_r = nal_array_spec(s, (p1 + 8 * len) as nat, (count - i - 1) as nat);
            match rest_r {
                Ok((rest, q)) => {
                    assert(done + (seq![(p1, (p1 + 8 * len) as nat)] + rest) =~= done.push((p1, (p1 + 8 * len) as nat)) + rest);
                },
                Err(_) => {},
            }
            done = done.push((p1, (p1 + 8 * len) as nat));
        }
        out.push(nal);
        i = i + 1;
    }
    assert(done + Seq::<(nat, nat)>::empty() =~= done);
    Ok(out)
}

/// Read the fixed header.
fn read_head(reader: &mut BitstreamReader) -> (r: Result<(u32, u32, u32, u32, u32, u32), Error>)
    ensures
        final(reader).bytes() == old(reader).bytes(),
        match avcc_head_spec(old(reader).bits(), old(reader).pos()) {
            Ok(m) => r == Ok::<(u32, u32, u32, u32, u32, u32), Error>((m.0, m.1, m.2, m.3, m.4, m.5))
                && final(reader).pos() == m.6 && m.0 < 256 && m.1 < 256 && m.2 < 256 && m.3 < 256 && m.4 < 256,
            Err(e) => r == Err::<(u32, u32, u32, u32, u32, u32), Error>(e),
        },
{
    let ghost p_version = reader.pos();
    let version = read_u(reader, 8)?;
    proof { lemma_small_read(reader.bits(), p_version, 8); }
    let ghost p_profile = reader.pos();
    let profile = read_u(reader, 8)?;
    proof { lemma_small_read(reader.bits(), p_profile, 8); }
    let ghost p_compat = reader.pos();
    let compat = read_u(reader, 8)?;
    proof { lemma_small_read(reader.bits(), p_compat, 8); }
    let ghost p_level = reader.pos();
    let level = read_u(reader, 8)?;
    proof { lemma_small_read(reader.bits(), p_level, 8); }
    let ghost p__reserved = reader.pos();
    let _reserved = read_u(reader, 6)?;
    proof { lemma_small_read(reader.bits(), p__reserved, 6); }
    let ghost p_lsm1 = reader.pos();
    let lsm1 = read_u(reader, 2)?;
    proof { lemma_small_read(reader.bits(), p_lsm1, 2); }
    let ghost p__reserved = reader.pos();
    let _reserved = read_u(reader, 3)?;
    proof { lemma_small_read(reader.bits(), p__reserved, 3); }
    let ghost p_nsps = reader.pos();
    let nsps = read_u(reader, 5)?;
    proof { lemma_small_read(reader.bits(), p_nsps, 5); }
    Ok((version, profile, compat, level, lsm1, nsps))
}

/// Read the extension fields.
fn read_extension(reader: &mut BitstreamReader) -> (r: Result<Extension, Error>)
    ensures
        final(reader).bytes() == old(reader).bytes(),
        match avcc_extension_spec(old(reader).bits(), old(reader).pos()) {
            Ok(x) => r matches Ok(e) && e.chroma_format == x.0 && e.bit_depth_luma_minus8 == x.1
                && e.bit_depth_chroma_minus8 == x.2 && nal_array_is(e.sps_ext_nalus@, old(reader).bits(), x.3),
            Err(e) => r matches Err(y) && y == e,
        },
{
    let ghost p__reserved = reader.pos();
    let _reserved = read_u(reader, 6)?;
    proof { lemma_small_read(reader.bits(), p__reserved, 6); }
    let ghost p_chroma_format = reader.pos();
    let chroma_format = read_u(reader, 2)?;
    proof { lemma_small_read(reader.bits(), p_chroma_format, 2); }
    let ghost p__reserved = reader.pos();
    let _reserved = read_u(reader, 5)?;
    proof { lemma_small_read(reader.bits(), p__reserved, 5); }
    let ghost p_bit_depth_luma_minus8 = reader.pos();
    let bit_depth_luma_minus8 = read_u(reader, 3)?;
    proof { lemma_small_read(reader.bits(), p_bit_depth_luma_minus8, 3); }
    let ghost p__reserved = reader.pos();
    let _reserved = read_u(reader, 5)?;
    proof { lemma_small_read(reader.bits(), p__reserved, 5); }
    let ghost p_bit_depth_chroma_minus8 = reader.pos();
    let bit_depth_chroma_minus8 = read_u(reader, 3)?;
    proof { lemma_small_read(reader.bits(), p_bit_depth_chroma_minus8, 3); }
    let ghost p_num_of_sps_ext = reader.pos();
    let num_of_sps_ext = read_u(reader, 8)?;
    proof { lemma_small_read(reader.bits(), p_num_of_sps_ext, 8); }
    let sps_ext_nalus = read_nal_array(reader, num_of_sps_ext as usize)?;
    Ok(Extension {
        chroma_format: chroma_format as u8,
        bit_depth_luma_minus8: bit_depth_luma_minus8 as u8,
        bit_depth_chroma_minus8: bit_depth_chroma_minus8 as u8,
        sps_ext_nalus,
    })
}

impl AvccConfig {
    /// Serialize the record.
    pub fn to_bytes(&self) -> (r: Vec<u8>)
        ensures
            bytes_bits(r@) == avcc_bits(*self) + crate::bitstream::zeros(crate::bitstream::pad_len(avcc_bits(*self).len())),
    {
        let mut writer = BitstreamWriter::new();
        writer.write_bits(self.configuration_version as u32, 8);
        assert(writer.bits() =~= u32_bits(self.configuration_version as u32, 8));
        writer.write_bits(self.avc_profile_indication as u32, 8);
        writer.write_bits(self.profile_compatibility as u32, 8);
        writer.write_bits(self.avc_level_indication as u32, 8);
        writer.write_bits(0b11_1111, 6);
        writer.write_bits((self.length_size_minus_one & 0b11) as u32, 2);
        writer.write_bits(0b111, 3);
        writer.write_bits(self.sps_nalus.len() as u32, 5);
        write_nal_array(&mut writer, &self.sps_nalus);
        writer.write_bits(self.pps_nalus.len() as u32, 8);
        write_nal_array(&mut writer, &self.pps_nalus);
        let ghost mid = writer.bits();
        match &self.extension {
            Some(ext) => {
                writer.write_bits(0b11_1111, 6);
                writer.write_bits((ext.chroma_format & 0b11) as u32, 2);
                writer.write_bits(0b1_1111, 5);
                writer.write_bits((ext.bit_depth_luma_minus8 & 0b111) as u32, 3);
                writer.write_bits(0b1_1111, 5);
                writer.write_bits((ext.bit_depth_chroma_minus8 & 0b111) as u32, 3);
                writer.write_bits(ext.sps_ext_nalus.len() as u32, 8);
                write_nal_array(&mut writer, &ext.sps_ext_nalus);
                assert(writer.bits() =~= avcc_bits(*self));
            },
            None => {
                assert(writer.bits() =~= avcc_bits(*self));
            },
        }
        writer.finish()
    }

    /// Parse a record.
    pub fn parse(data: &[u8]) -> (r: Result<Self, Error>)
        requires
            data@.len() * 8 <= usize::MAX,
        ensures
            match avcc_parse_spec(data@) {
                Ok(m) => r matches Ok(c) && avcc_is(c, bytes_bits(data@), m),
                Err(e) => r matches Err(x) && x == e,
            },
    {
        if data.len() < 7 {
            return Err(Error::DataTooShort);
        }
        let mut reader = BitstreamReader::new(data);
        let (configuration_version, avc_profile_indication, profile_compatibility, avc_level_indication,
            length_size_minus_one, num_of_sps) = read_head(&mut reader)?;
        let sps_nalus = read_nal_array(&mut reader, num_of_sps as usize)?;
        let num_of_pps = read_u(&mut reader, 8)?;
        let pps_nalus = read_nal_array(&mut reader, num_of_pps as usize)?;
        let profile = avc_profile_indication as u8;
        let extension = if !(profile == 66 || profile == 77 || profile == 88) {
            Some(read_extension(&mut reader)?)
        } else {
            None
        };
        Ok(AvccConfig {
            configuration_version: configuration_version as u8,
            avc_profile_indication: profile,
            profile_compatibility: profile_compatibility as u8,
            avc_level_indication: avc_level_indication as u8,
            length_size_minus_one: length_size_minus_one as u8,
            sps_nalus,
            pps_nalus,
            extension,
        })
    }

    /// Length prefix size used in MP4 sample bytes.
    pub fn nal_length_size(&self) -> (r: usize)
        ensures
            r == self.length_size_minus_one as nat + 1,
    {
        (self.length_size_minus_one as usize) + 1
    }
}

/// A value read from at most 8 bits is below 256.
proof fn lemma_small_read(s: Seq<bool>, p: nat, n: nat)
    requires
        n <= 8,
        sp_u(s, p, n) is Ok,
    ensures
        sp_u(s, p, n)->Ok_0.0 < 256,
{
    let t = s.subrange(p as int, (p + n) as int);
    crate::bitstream::lemma_seq_val_bound(t);
    vstd::arithmetic::power2::lemma2_to64();
    if n < 8 {
        vstd::arithmetic::power2::lemma_pow2_strictly_increases(n, 8);
    }
    vstd::arithmetic::div_mod::lemma_small_mod(crate::bitstream::seq_val(t), 0x1_0000_0000);
}

} // verus!
