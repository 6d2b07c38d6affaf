//! NAL unit: a one-byte header (`forbidden_zero_bit`, `nal_ref_idc`,
//! `nal_unit_type`) followed by the RBSP, and the emulation prevention bytes
//! that keep the RBSP free of start-code prefixes.

use vstd::prelude::*;
use crate::bytes::{copy_range, extend};
use crate::h264::error::Error;

verus! {

/// NAL unit type (5 bits).
#[derive(Debug, Clone, Copy, PartialEq, Eq, Structural)]
pub enum NalUnitType {
    /// 0, 24..31
    Unspecified(u8),
    NonIDR,
    SliceA,
    SliceB,
    SliceC,
    IDR,
    SEI,
    SPS,
    PPS,
    AUD,
    EOSeq,
    EOStream,
    FillerData,
    SPSExt,
    PrefixNalUnit,
    SubsetSPS,
    DPS,
    /// 17..18, 22..23
    Reserved(u8),
    AUX,
    SliceExt,
    DepthExt,
    /// any other value
    Unknown(u8),
}

/// The NAL unit type that a value denotes.
pub open spec fn nal_unit_type_of(value: u8) -> NalUnitType {
    if value == 0 || (24 <= value <= 31) {
        NalUnitType::Unspecified(value)
    } else if value == 1 {
        NalUnitType::NonIDR
    } else if value == 2 {
        NalUnitType::SliceA
    } else if value == 3 {
        NalUnitType::SliceB
    } else if value == 4 {
        NalUnitType::SliceC
    } else if value == 5 {
        NalUnitType::IDR
    } else if value == 6 {
        NalUnitType::SEI
    } else if value == 7 {
        NalUnitType::SPS
    } else if value == 8 {
        NalUnitType::PPS
    } else if value == 9 {
        NalUnitType::AUD
    } else if value == 10 {
        NalUnitType::EOSeq
    } else if value == 11 {
        NalUnitType::EOStream
    } else if value == 12 {
        NalUnitType::FillerData
    } else if value == 13 {
        NalUnitType::SPSExt
    } else if value == 14 {
        NalUnitType::PrefixNalUnit
    } else if value == 15 {
        NalUnitType::SubsetSPS
    } else if value == 16 {
        NalUnitType::DPS
    } else if value == 17 || value == 18 || value == 22 || value == 23 {
        NalUnitType::Reserved(value)
    } else if value == 19 {
        NalUnitType::AUX
    } else if value == 20 {
        NalUnitType::SliceExt
    } else if value == 21 {
        NalUnitType::DepthExt
    } else {
        NalUnitType::Unknown(value)
    }
}

/// The value of a NAL unit type.
pub open spec fn nal_unit_type_value(t: NalUnitType) -> u8 {
    match t {
        NalUnitType::Unspecified(v) => v,
        NalUnitType::NonIDR => 1,
        NalUnitType::SliceA => 2,
        NalUnitType::SliceB => 3,
        NalUnitType::SliceC => 4,
        NalUnitType::IDR => 5,
        NalUnitType::SEI => 6,
        NalUnitType::SPS => 7,
        NalUnitType::PPS => 8,
        NalUnitType::AUD => 9,
        NalUnitType::EOSeq => 10,
        NalUnitType::EOStream => 11,
        NalUnitType::FillerData => 12,
        NalUnitType::SPSExt => 13,
        NalUnitType::PrefixNalUnit => 14,
        NalUnitType::SubsetSPS => 15,
        NalUnitType::DPS => 16,
        NalUnitType::Reserved(v) => v,
        NalUnitType::AUX => 19,
        NalUnitType::SliceExt => 20,
        NalUnitType::DepthExt => 21,
        NalUnitType::Unknown(v) => v,
    }
}

impl NalUnitType {
    /// The NAL unit type that `value` denotes.
    pub fn from_u8(value: u8) -> (r: NalUnitType)
        ensures
            r == nal_unit_type_of(value),
    {
        match value {
            0 => NalUnitType::Unspecified(value),
            24..=31 => NalUnitType::Unspecified(value),
            1 => NalUnitType::NonIDR,
            2 => NalUnitType::SliceA,
            3 => NalUnitType::SliceB,
            4 => NalUnitType::SliceC,
            5 => NalUnitType::IDR,
            6 => NalUnitType::SEI,
            7 => NalUnitType::SPS,
            8 => NalUnitType::PPS,
            9 => NalUnitType::AUD,
            10 => NalUnitType::EOSeq,
            11 => NalUnitType::EOStream,
            12 => NalUnitType::FillerData,
            13 => NalUnitType::SPSExt,
            14 => NalUnitType::PrefixNalUnit,
            15 => NalUnitType::SubsetSPS,
            16 => NalUnitType::DPS,
            17..=18 => NalUnitType::Reserved(value),
            22..=23 => NalUnitType::Reserved(value),
            19 => NalUnitType::AUX,
            20 => NalUnitType::SliceExt,
            21 => NalUnitType::DepthExt,
            _ => NalUnitType::Unknown(value),
        }
    }

    /// The value of this NAL unit type.
    pub fn to_u8(&self) -> (r: u8)
        ensures
            r == nal_unit_type_value(*self),
    {
        match self {
            NalUnitType::Unspecified(v) => *v,
            NalUnitType::NonIDR => 1,
            NalUnitType::SliceA => 2,
            NalUnitType::SliceB => 3,
            NalUnitType::SliceC => 4,
            NalUnitType::IDR => 5,
            NalUnitType::SEI => 6,
            NalUnitType::SPS => 7,
            NalUnitType::PPS => 8,
            NalUnitType::AUD => 9,
            NalUnitType::EOSeq => 10,
            NalUnitType::EOStream => 11,
            NalUnitType::FillerData => 12,
            NalUnitType::SPSExt => 13,
            NalUnitType::PrefixNalUnit => 14,
            NalUnitType::SubsetSPS => 15,
            NalUnitType::DPS => 16,
            NalUnitType::Reserved(v) => *v,
            NalUnitType::AUX => 19,
            NalUnitType::SliceExt => 20,
            NalUnitType::DepthExt => 21,
            NalUnitType::Unknown(v) => *v,
        }
    }
}

/// The NAL unit types of H.264 Table 7-1, value by value: non-IDR slice
/// 1, data partitions A, B and C 2 to 4, IDR slice 5, SEI 6, SPS 7, PPS
/// 8, access unit delimiter 9, end of sequence 10, end of stream 11,
/// filler data 12, SPS extension 13, prefix NAL unit 14, subset SPS 15,
/// depth parameter set 16, auxiliary slice 19, slice extension 20, depth
/// slice extension 21; 17, 18, 22 and 23 reserved; 0 and 24 to 31
/// unspecified: every value names its type and no other, and every type
/// is written as its value.
pub proof fn lemma_nal_unit_type_table(value: u8)
    ensures
        ({
        &&& (nal_unit_type_of(value) == NalUnitType::NonIDR <==> value == 1)
        &&& (nal_unit_type_of(value) == NalUnitType::SliceA <==> value == 2)
        &&& (nal_unit_type_of(value) == NalUnitType::SliceB <==> value == 3)
        &&& (nal_unit_type_of(value) == NalUnitType::SliceC <==> value == 4)
        &&& (nal_unit_type_of(value) == NalUnitType::IDR <==> value == 5)
        &&& (nal_unit_type_of(value) == NalUnitType::SEI <==> value == 6)
        &&& (nal_unit_type_of(value) == NalUnitType::SPS <==> value == 7)
        &&& (nal_unit_type_of(value) == NalUnitType::PPS <==> value == 8)
        &&& (nal_unit_type_of(value) == NalUnitType::AUD <==> value == 9)
        &&& (nal_unit_type_of(value) == NalUnitType::EOSeq <==> value == 10)
        &&& (nal_unit_type_of(value) == NalUnitType::EOStream <==> value == 11)
        &&& (nal_unit_type_of(value) == NalUnitType::FillerData <==> value == 12)
        &&& (nal_unit_type_of(value) == NalUnitType::SPSExt <==> value == 13)
        &&& (nal_unit_type_of(value) == NalUnitType::PrefixNalUnit <==> value == 14)
        &&& (nal_unit_type_of(value) == NalUnitType::SubsetSPS <==> value == 15)
        &&& (nal_unit_type_of(value) == NalUnitType::DPS <==> value == 16)
        &&& (nal_unit_type_of(value) == NalUnitType::AUX <==> value == 19)
        &&& (nal_unit_type_of(value) == NalUnitType::SliceExt <==> value == 20)
        &&& (nal_unit_type_of(value) == NalUnitType::DepthExt <==> value == 21)
        &&& ((value == 0 || 24 <= value <= 31) <==> nal_unit_type_of(value) == NalUnitType::Unspecified(value))
        &&& ((value == 17 || value == 18 || value == 22 || value == 23) <==> nal_unit_type_of(value) == NalUnitType::Reserved(value))
        &&& (value >= 32 <==> nal_unit_type_of(value) == NalUnitType::Unknown(value))
        }),
        nal_unit_type_value(NalUnitType::NonIDR) == 1,
        nal_unit_type_value(NalUnitType::SliceA) == 2,
        nal_unit_type_value(NalUnitType::SliceB) == 3,
        nal_unit_type_value(NalUnitType::SliceC) == 4,
        nal_unit_type_value(NalUnitType::IDR) == 5,
        nal_unit_type_value(NalUnitType::SEI) == 6,
        nal_unit_type_value(NalUnitType::SPS) == 7,
        nal_unit_type_value(NalUnitType::PPS) == 8,
        nal_unit_type_value(NalUnitType::AUD) == 9,
        nal_unit_type_value(NalUnitType::EOSeq) == 10,
        nal_unit_type_value(NalUnitType::EOStream) == 11,
        nal_unit_type_value(NalUnitType::FillerData) == 12,
        nal_unit_type_value(NalUnitType::SPSExt) == 13,
        nal_unit_type_value(NalUnitType::PrefixNalUnit) == 14,
        nal_unit_type_value(NalUnitType::SubsetSPS) == 15,
        nal_unit_type_value(NalUnitType::DPS) == 16,
        nal_unit_type_value(NalUnitType::AUX) == 19,
        nal_unit_type_value(NalUnitType::SliceExt) == 20,
        nal_unit_type_value(NalUnitType::DepthExt) == 21,
{
}

/// Converting a value to a NAL unit type and back gives the value.
pub proof fn lemma_nal_unit_type_roundtrip(value: u8)
    ensures
        nal_unit_type_value(nal_unit_type_of(value)) == value,
{
}

/// NAL unit header (without `forbidden_zero_bit`, which is always 0).
#[derive(Debug, Clone, Copy, PartialEq, Eq, Structural)]
pub struct Header {
    pub nal_ref_idc: u8,
    pub nal_unit_type: NalUnitType,
}

/// The header byte of a NAL unit.
pub open spec fn header_byte(h: Header) -> u8 {
    (h.nal_ref_idc << 5u8) | nal_unit_type_value(h.nal_unit_type)
}

/// The header that a header byte holds (its top bit must be 0).
pub open spec fn header_of_byte(b: u8) -> Header {
    Header { nal_ref_idc: (b & 0b0110_0000u8) >> 5u8, nal_unit_type: nal_unit_type_of(b & 0b0001_1111u8) }
}

/// The fields of a header byte as numbers: the masks and shifts that read
/// them take its top bit, the two bits below it and the low five bits.
proof fn lemma_header_byte_fields(b: u8)
    by (bit_vector)
    ensures
        (((b & 0b1000_0000u8) >> 7u8) != 0) == ((b & 0b1000_0000u8) != 0),
        ((b & 0b1000_0000u8) != 0) == (b >= 128),
        (b & 0b0110_0000u8) >> 5u8 == (b / 32) % 4,
        b & 0b0001_1111u8 == b % 32,
{
}

/// The NAL unit header byte of H.264 7.3.1: `forbidden_zero_bit` is its
/// top bit and must be 0, `nal_ref_idc` the two bits below it and
/// `nal_unit_type` the low five bits; the bytes after it are the payload.
pub proof fn lemma_nal_header_fields(data: Seq<u8>)
    requires
        data.len() > 0,
    ensures
        parse_nal_unit_spec(data) is Ok <==> data[0] < 128,
        parse_nal_unit_spec(data) is Ok ==> parse_nal_unit_spec(data)->Ok_0.0.nal_ref_idc == data[0] / 32
            && nal_unit_type_value(parse_nal_unit_spec(data)->Ok_0.0.nal_unit_type) == data[0] % 32
            && parse_nal_unit_spec(data)->Ok_0.1 == data.subrange(1, data.len() as int),
{
    lemma_header_byte_fields(data[0]);
    lemma_nal_unit_type_roundtrip(data[0] % 32);
}

/// NAL unit: header and RBSP (with emulation prevention bytes, as carried).
#[derive(Debug, PartialEq)]
pub struct NalUnit {
    pub header: Header,
    pub rbsp: Vec<u8>,
}

/// The result of parsing a NAL unit from its bytes.
pub open spec fn parse_nal_unit_spec(data: Seq<u8>) -> Result<(Header, Seq<u8>), Error> {
    if data.len() == 0 {
        Err(Error::DataTooShort)
    } else if data[0] & 0b1000_0000u8 != 0 {
        Err(Error::InvalidForbiddenZeroBit)
    } else {
        Ok((header_of_byte(data[0]), data.subrange(1, data.len() as int)))
    }
}

/// Emulation prevention bytes removed: every `00 00 03` followed by a byte
/// of at most 3 loses its `03`.
pub open spec fn remove_epb_spec(d: Seq<u8>) -> Seq<u8>
    decreases d.len(),
{
    if d.len() >= 4 && d[0] == 0 && d[1] == 0 && d[2] == 3 && d[3] <= 3 {
        seq![0u8, 0u8] + remove_epb_spec(d.subrange(3, d.len() as int))
    } else if d.len() > 0 {
        seq![d[0]] + remove_epb_spec(d.subrange(1, d.len() as int))
    } else {
        Seq::empty()
    }
}

/// Emulation prevention bytes inserted, scanning left to right with `z`
/// zero bytes just written: a byte of at most 3 after two written zeros
/// gets a `03` before it (which ends the run of zeros).
pub open spec fn attach_epb_from(d: Seq<u8>, z: nat) -> Seq<u8>
    decreases d.len(),
{
    if d.len() == 0 {
        Seq::empty()
    } else if z >= 2 && d[0] <= 3 {
        seq![3u8, d[0]] + attach_epb_from(d.subrange(1, d.len() as int), if d[0] == 0 { 1 } else { 0 })
    } else {
        seq![d[0]] + attach_epb_from(d.subrange(1, d.len() as int), if d[0] == 0 { z + 1 } else { 0 })
    }
}

/// Emulation prevention bytes inserted into `d`.
pub open spec fn attach_epb_spec(d: Seq<u8>) -> Seq<u8> {
    attach_epb_from(d, 0)
}

/// `z` zero bytes.
pub open spec fn zero_run(z: nat) -> Seq<u8> {
    Seq::new(z, |i: int| 0u8)
}

/// No `00 00 x` with `x <= 2` (a start code prefix, or a pattern
/// reserved for one) occurs in `o`.
pub open spec fn no_start_code(o: Seq<u8>) -> bool {
    forall|i: int| 0 <= i && i + 2 < o.len() ==> !(#[trigger] o[i] == 0 && o[i + 1] == 0 && o[i + 2] <= 2)
}

/// A byte other than zero opens no removal.
proof fn lemma_remove_nonzero(a: u8, y: Seq<u8>)
    requires
        a != 0,
    ensures
        remove_epb_spec(seq![a] + y) == seq![a] + remove_epb_spec(y),
{
    let d = seq![a] + y;
    assert(d.subrange(1, d.len() as int) =~= y);
}

/// A zero followed by a byte other than zero opens no removal.
proof fn lemma_remove_zero_nonzero(a: u8, y: Seq<u8>)
    requires
        a != 0,
    ensures
        remove_epb_spec(seq![0u8, a] + y) == seq![0u8, a] + remove_epb_spec(y),
{
    let d = seq![0u8, a] + y;
    assert(d.subrange(1, d.len() as int) =~= seq![a] + y);
    lemma_remove_nonzero(a, y);
    assert(seq![0u8] + (seq![a] + remove_epb_spec(y)) =~= seq![0u8, a] + remove_epb_spec(y));
}

/// Removing emulation prevention bytes undoes inserting them, after any
/// run of up to two zeros.
proof fn lemma_remove_attach(d: Seq<u8>, z: nat)
    requires
        z <= 2,
    ensures
        remove_epb_spec(zero_run(z) + attach_epb_from(d, z)) == zero_run(z) + d,
    decreases d.len(),
{
    let zr = zero_run(z);
    if d.len() == 0 {
        assert(zr + attach_epb_from(d, z) =~= zr);
        assert(zr + d =~= zr);
        let e = Seq::<u8>::empty();
        assert(remove_epb_spec(e) == e);
        let one = seq![0u8];
        assert(one.subrange(1, 1) =~= e);
        assert(remove_epb_spec(one) == seq![0u8] + remove_epb_spec(e));
        assert(remove_epb_spec(one) =~= one);
        if z == 1 {
            assert(zr =~= one);
        } else if z == 2 {
            let two = seq![0u8, 0u8];
            assert(zr =~= two);
            assert(two.subrange(1, 2) =~= one);
            assert(remove_epb_spec(two) == seq![0u8] + remove_epb_spec(one));
            assert(remove_epb_spec(two) =~= two);
        } else {
            assert(zr =~= e);
        }
    } else {
        let a = d[0];
        let r = d.subrange(1, d.len() as int);
        assert(d =~= seq![a] + r);
        if z >= 2 && a <= 3 {
            let z2: nat = if a == 0 { 1 } else { 0 };
            let x = attach_epb_from(r, z2);
            let o = zr + (seq![3u8, a] + x);
            assert(o =~= seq![0u8, 0u8, 3u8, a] + x);
            assert(o.subrange(3, o.len() as int) =~= seq![a] + x);
            lemma_remove_attach(r, z2);
            assert(remove_epb_spec(o) == seq![0u8, 0u8] + remove_epb_spec(seq![a] + x));
            if a == 0 {
                assert(seq![a] + x =~= zero_run(1) + x);
                assert(zero_run(1) + r =~= seq![0u8] + r);
                assert(seq![0u8, 0u8] + (seq![0u8] + r) =~= zr + d);
            } else {
                assert(zero_run(0) + x =~= x);
                assert(zero_run(0) + r =~= r);
                lemma_remove_nonzero(a, x);
                assert(seq![0u8, 0u8] + (seq![a] + r) =~= zr + d);
            }
        } else if z >= 2 {
            let x = attach_epb_from(r, 0);
            let o = zr + (seq![a] + x);
            assert(o =~= seq![0u8, 0u8, a] + x);
            assert(o.subrange(1, o.len() as int) =~= seq![0u8, a] + x);
            lemma_remove_attach(r, 0);
            assert(zero_run(0) + x =~= x);
            assert(zero_run(0) + r =~= r);
            assert(remove_epb_spec(o) == seq![0u8] + remove_epb_spec(seq![0u8, a] + x));
            lemma_remove_zero_nonzero(a, x);
            assert(seq![0u8] + (seq![0u8, a] + r) =~= zr + d);
        } else if a == 0 {
            let x = attach_epb_from(r, z + 1);
            assert(zr + (seq![a] + x) =~= zero_run(z + 1) + x);
            lemma_remove_attach(r, z + 1);
            assert(zero_run(z + 1) + r =~= zr + d);
        } else {
            let x = attach_epb_from(r, 0);
            lemma_remove_attach(r, 0);
            assert(zero_run(0) + x =~= x);
            assert(zero_run(0) + r =~= r);
            if z == 0 {
                assert(zr + (seq![a] + x) =~= seq![a] + x);
                lemma_remove_nonzero(a, x);
                assert(seq![a] + r =~= zr + d);
            } else {
                assert(zr + (seq![a] + x) =~= seq![0u8, a] + x);
                lemma_remove_zero_nonzero(a, x);
                assert(seq![0u8, a] + r =~= zr + d);
            }
        }
    }
}

/// Windows of `p + s` that start in `p` and hold no start code pattern,
/// with none in `s`, leave none in `p + s`.
proof fn lemma_no_start_code_concat(p: Seq<u8>, s: Seq<u8>)
    requires
        no_start_code(s),
        forall|i: int| 0 <= i < p.len() && i + 2 < p.len() + s.len() ==> !(#[trigger] (p + s)[i] == 0 && (p + s)[i + 1] == 0 && (p + s)[i + 2] <= 2),
    ensures
        no_start_code(p + s),
{
    let o = p + s;
    assert forall|i: int| 0 <= i && i + 2 < o.len() implies !(#[trigger] o[i] == 0 && o[i + 1] == 0 && o[i + 2] <= 2) by {
        if i >= p.len() {
            let j = i - p.len();
            assert(o[i] == s[j] && o[i + 1] == s[j + 1] && o[i + 2] == s[j + 2]);
            assert(!(s[j] == 0 && s[j + 1] == 0 && s[j + 2] <= 2));
        }
    }
}

/// Inserting emulation prevention bytes after a run of up to two zeros
/// leaves no start code pattern.
proof fn lemma_attach_no_start_code(d: Seq<u8>, z: nat)
    requires
        z <= 2,
    ensures
        no_start_code(zero_run(z) + attach_epb_from(d, z)),
    decreases d.len(),
{
    let zr = zero_run(z);
    if d.len() == 0 {
        assert(zr + attach_epb_from(d, z) =~= zr);
    } else {
        let a = d[0];
        let r = d.subrange(1, d.len() as int);
        if z >= 2 && a <= 3 {
            let z2: nat = if a == 0 { 1 } else { 0 };
            let x = attach_epb_from(r, z2);
            lemma_attach_no_start_code(r, z2);
            let o = zr + (seq![3u8, a] + x);
            if a == 0 {
                let p = seq![0u8, 0u8, 3u8];
                assert(o =~= p + (zero_run(1) + x));
                lemma_no_start_code_concat(p, zero_run(1) + x);
            } else {
                let p = seq![0u8, 0u8, 3u8, a];
                assert(o =~= p + (zero_run(0) + x));
                lemma_no_start_code_concat(p, zero_run(0) + x);
            }
        } else if z >= 2 {
            let x = attach_epb_from(r, 0);
            lemma_attach_no_start_code(r, 0);
            let p = seq![0u8, 0u8, a];
            assert(zr + (seq![a] + x) =~= p + (zero_run(0) + x));
            lemma_no_start_code_concat(p, zero_run(0) + x);
        } else if a == 0 {
            let x = attach_epb_from(r, z + 1);
            lemma_attach_no_start_code(r, z + 1);
            assert(zr + (seq![a] + x) =~= zero_run(z + 1) + x);
        } else {
            let x = attach_epb_from(r, 0);
            lemma_attach_no_start_code(r, 0);
            let p = zr.push(a);
            assert(zr + (seq![a] + x) =~= p + (zero_run(0) + x));
            lemma_no_start_code_concat(p, zero_run(0) + x);
        }
    }
}

/// Removing emulation prevention bytes undoes inserting them, and the
/// bytes inserted leave no start code pattern.
pub proof fn lemma_epb_roundtrip(d: Seq<u8>)
    ensures
        remove_epb_spec(attach_epb_spec(d)) == d,
        no_start_code(attach_epb_spec(d)),
{
    lemma_attach_no_start_code(d, 0);
    lemma_remove_attach(d, 0);
    assert(zero_run(0) + attach_epb_spec(d) =~= attach_epb_spec(d));
    assert(zero_run(0) + d =~= d);
}

impl NalUnit {
    /// Parse the header byte and RBSP from a byte slice (without start code).
    pub fn parse(data: &[u8]) -> (r: Result<Self, Error>)
        ensures
            match parse_nal_unit_spec(data@) {
                Ok((h, rbsp)) => r matches Ok(n) && n.header == h && n.rbsp@ == rbsp,
                Err(e) => r == Err::<Self, Error>(e),
            },
    {
        if data.len() == 0 {
            return Err(Error::DataTooShort);
        }
        let b0 = data[0];
        let forbidden_zero_bit = (b0 & 0b1000_0000) >> 7;
        if forbidden_zero_bit != 0 {
            proof {
                lemma_header_byte_fields(b0);
            }
            return Err(Error::InvalidForbiddenZeroBit);
        }
        proof {
            lemma_header_byte_fields(b0);
        }
        let nal_ref_idc = (b0 & 0b0110_0000) >> 5;
        let nal_unit_type = NalUnitType::from_u8(b0 & 0b0001_1111);
        let header = Header { nal_ref_idc, nal_unit_type };
        let rbsp = copy_range(data, 1, data.len());
        Ok(NalUnit { header, rbsp })
    }

    /// Serialize the header and RBSP back into bytes.
    pub fn to_bytes(&self) -> (r: Vec<u8>)
        ensures
            r@ == seq![header_byte(self.header)] + self.rbsp@,
    {
        let mut buf: Vec<u8> = Vec::new();
        buf.push((self.header.nal_ref_idc << 5) | self.header.nal_unit_type.to_u8());
        extend(&mut buf, self.rbsp.as_slice());
        buf
    }

    /// Remove emulation prevention bytes (0x03) to obtain the raw bitstream.
    /// e.g. `[0x00, 0x00, 0x03, 0x01]` -> `[0x00, 0x00, 0x01]`
    pub fn remove_emulation_prevention_bytes(data: &[u8]) -> (r: Vec<u8>)
        ensures
            r@ == remove_epb_spec(data@),
            r@.len() <= data@.len(),
    {
        let mut buf: Vec<u8> = Vec::new();
        let mut i: usize = 0;
        assert(data@.subrange(0, data@.len() as int) =~= data@);
        assert(buf@ + remove_epb_spec(data@) =~= remove_epb_spec(data@));
        assert(buf@ + attach_epb_spec(data@) =~= attach_epb_spec(data@));
        while i < data.len()
            invariant
                i <= data@.len(),
                buf@.len() <= i,
                buf@ + remove_epb_spec(data@.subrange(i as int, data@.len() as int)) == remove_epb_spec(data@),
            decreases data@.len() - i,
        {
            let ghost rest = data@.subrange(i as int, data@.len() as int);
            let rem = data.len() - i;
            if rem > 2 && data[i] == 0x00 && data[i + 1] == 0x00 && data[i + 2] == 0x03 && rem > 3
                && data[i + 3] <= 0x03 {
                buf.push(data[i]);
                buf.push(data[i + 1]);
                i = i + 3;
                proof {
                    assert(rest.subrange(3, rest.len() as int) =~= data@.subrange(i as int, data@.len() as int));
                    assert(buf@ + remove_epb_spec(data@.subrange(i as int, data@.len() as int)) =~= (buf@.drop_last().drop_last() + (seq![0u8, 0u8] + remove_epb_spec(data@.subrange(i as int, data@.len() as int)))));
                }
            } else {
                buf.push(data[i]);
                i = i + 1;
                proof {
                    assert(rest.subrange(1, rest.len() as int) =~= data@.subrange(i as int, data@.len() as int));
                    assert(buf@ + remove_epb_spec(data@.subrange(i as int, data@.len() as int)) =~= (buf@.drop_last() + (seq![rest[0]] + remove_epb_spec(data@.subrange(i as int, data@.len() as int)))));
                }
            }
        }
        proof {
            assert(data@.subrange(i as int, data@.len() as int) =~= Seq::<u8>::empty());
            assert(buf@ + Seq::<u8>::empty() =~= buf@);
        }
        buf
    }

    /// Insert emulation prevention bytes (0x03) to prevent start code collision.
    /// e.g. `[0x00, 0x00, 0x01]` -> `[0x00, 0x00, 0x03, 0x01]`
    pub fn attach_emulation_prevention_bytes(data: &[u8]) -> (r: Vec<u8>)
        ensures
            r@ == attach_epb_spec(data@),
            remove_epb_spec(r@) == data@,
            no_start_code(r@),
    {
        let mut buf: Vec<u8> = Vec::new();
        let mut i: usize = 0;
        let mut zeros: u8 = 0;
        assert(data@.subrange(0, data@.len() as int) =~= data@);
        assert(buf@ + attach_epb_spec(data@) =~= attach_epb_spec(data@));
        while i < data.len()
            invariant
                i <= data@.len(),
                zeros <= 2,
                buf@ + attach_epb_from(data@.subrange(i as int, data@.len() as int), zeros as nat) == attach_epb_spec(data@),
            decreases data@.len() - i,
        {
            let ghost rest = data@.subrange(i as int, data@.len() as int);
            let ghost before = buf@;
            let ghost z0 = zeros as nat;
            let b = data[i];
            assert(rest.subrange(1, rest.len() as int) =~= data@.subrange(i + 1, data@.len() as int));
            if zeros >= 2 && b <= 0x03 {
                buf.push(0x03);
                buf.push(b);
                zeros = if b == 0 { 1 } else { 0 };
                assert(buf@ =~= before + seq![3u8, b]);
            } else {
                buf.push(b);
                zeros = if b == 0 { zeros + 1 } else { 0 };
                assert(buf@ =~= before + seq![b]);
            }
            i = i + 1;
            proof {
                assert(buf@ + attach_epb_from(data@.subrange(i as int, data@.len() as int), zeros as nat)
                    =~= before + attach_epb_from(rest, z0));
            }
        }
        proof {
            assert(data@.subrange(i as int, data@.len() as int) =~= Seq::<u8>::empty());
            assert(buf@ + Seq::<u8>::empty() =~= buf@);
            lemma_epb_roundtrip(data@);
        }
        buf
    }
}

} // verus!
