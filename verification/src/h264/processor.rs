//! The H.264 processor: an Annex B byte stream, or length-prefixed samples
//! with their `avcC` record, turned into NAL units with their syntax parsed
//! where this crate knows it, and back.

use vstd::prelude::*;
use crate::bitstream::{BitstreamReader, bytes_bits, bits_bytes, lemma_bits_bytes, seq_val};
use crate::bytes::{extend, copy_range};
use crate::h264::annex_b::{
    AnnexB, StartCode, parse_all, parse_all_from, start_codes, start_code_bytes, annex_b_is, annex_b_bytes,
    parse_annex_b_spec, segment, lemma_annex_b_roundtrip, lemma_start_codes_from,
};
use crate::h264::api::sps_view_chroma;
use crate::h264::aud::{Aud, PrimaryPicType, aud_parse_spec, primary_pic_type_value};
use crate::h264::error::Error;
use crate::h264::filler_data::{FillerData, leading_ff, filler_bytes};
use crate::h264::avcc::{AvccConfig, Extension};
use crate::h264::nal::{Header, NalUnit, NalUnitType, header_byte, remove_epb_spec, attach_epb_spec, parse_nal_unit_spec};
use crate::h264::pps::{Pps, PpsView, pps_parse_spec, pps_bits, pps_writable};
use crate::h264::sei::{Sei, SeiMessage, sei_parse_spec, sei_message_bits, sei_messages_bits};
use crate::h264::slice_a::{SliceA, SliceAView, slice_a_parse_spec, slice_a_bits};
use crate::h264::slice_c::{SliceC, SliceCView, slice_c_parse_spec, slice_c_bits};
use crate::h264::slice_header::{header_parsable, header_parsable_exec, header_writable};
use crate::h264::sps::{Sps, SpsView, sps_parse_spec, sps_bits, sps_writable};
use crate::h264::sps_ext::{SpsExt, sps_ext_parse_spec, sps_ext_bits, sps_ext_writable};
use crate::h264::syntax::{rbsp_bits, byte_aligned};

verus! {

/// One NAL unit: its start code, `nal_ref_idc`, and its syntax parsed
/// where this crate reads it, else its type and the bytes after the
/// header. Slices are parsed (partitions A and C) only once an SPS and a
/// PPS were seen; other slices are kept as bytes.
#[derive(Debug)]
pub enum NalData {
    Unspecified(StartCode, u8, NalUnitType, Vec<u8>),
    SliceA(StartCode, u8, Box<SliceA>),
    SliceC(StartCode, u8, Box<SliceC>),
    Sei(StartCode, u8, Box<Sei>),
    Sps(StartCode, u8, Box<Sps>),
    Pps(StartCode, u8, Box<Pps>),
    Aud(StartCode, u8, Aud),
    EOSeq(StartCode, u8),
    EOStream(StartCode, u8),
    FillerData(StartCode, u8, FillerData),
    SpsExt(StartCode, u8, SpsExt),
    PrefixNalUnit(StartCode, u8, NalUnitType, Vec<u8>),
    SubsetSps(StartCode, u8, NalUnitType, Vec<u8>),
    Dps(StartCode, u8, NalUnitType, Vec<u8>),
    Reserved(StartCode, u8, NalUnitType, Vec<u8>),
    Aux(StartCode, u8, NalUnitType, Vec<u8>),
    SliceExt(StartCode, u8, NalUnitType, Vec<u8>),
    DepthExt(StartCode, u8, NalUnitType, Vec<u8>),
    Unknown(StartCode, u8, NalUnitType, Vec<u8>),
    Raw(StartCode, u8, NalUnitType, Vec<u8>),
}

/// An SEI message as type, size and payload.
pub type SeiMessageView = (nat, nat, Seq<u8>);

/// Model of `NalData`.
pub enum NalDataView {
    Unspecified(StartCode, u8, NalUnitType, Seq<u8>),
    SliceA(StartCode, u8, SliceAView),
    SliceC(StartCode, u8, SliceCView),
    Sei(StartCode, u8, Seq<SeiMessageView>),
    Sps(StartCode, u8, SpsView),
    Pps(StartCode, u8, PpsView),
    Aud(StartCode, u8, PrimaryPicType),
    EOSeq(StartCode, u8),
    EOStream(StartCode, u8),
    FillerData(StartCode, u8, nat),
    SpsExt(StartCode, u8, SpsExt),
    PrefixNalUnit(StartCode, u8, NalUnitType, Seq<u8>),
    SubsetSps(StartCode, u8, NalUnitType, Seq<u8>),
    Dps(StartCode, u8, NalUnitType, Seq<u8>),
    Reserved(StartCode, u8, NalUnitType, Seq<u8>),
    Aux(StartCode, u8, NalUnitType, Seq<u8>),
    SliceExt(StartCode, u8, NalUnitType, Seq<u8>),
    DepthExt(StartCode, u8, NalUnitType, Seq<u8>),
    Unknown(StartCode, u8, NalUnitType, Seq<u8>),
    Raw(StartCode, u8, NalUnitType, Seq<u8>),
}

/// The messages of an SEI.
pub open spec fn sei_view(s: Sei) -> Seq<SeiMessageView> {
    s.sei_message@.map_values(|m: SeiMessage| (m.payload_type as nat, m.payload_size as nat, m.payload@))
}

impl View for NalData {
    type V = NalDataView;

    open spec fn view(&self) -> NalDataView {
        match self {
            NalData::Unspecified(sc, nri, t, b) => NalDataView::Unspecified(*sc, *nri, *t, b@),
            NalData::SliceA(sc, nri, x) => NalDataView::SliceA(*sc, *nri, x@),
            NalData::SliceC(sc, nri, x) => NalDataView::SliceC(*sc, *nri, x@),
            NalData::Sei(sc, nri, x) => NalDataView::Sei(*sc, *nri, sei_view(**x)),
            NalData::Sps(sc, nri, x) => NalDataView::Sps(*sc, *nri, x@),
            NalData::Pps(sc, nri, x) => NalDataView::Pps(*sc, *nri, x@),
            NalData::Aud(sc, nri, x) => NalDataView::Aud(*sc, *nri, x.primary_pic_type),
            NalData::EOSeq(sc, nri) => NalDataView::EOSeq(*sc, *nri),
            NalData::EOStream(sc, nri) => NalDataView::EOStream(*sc, *nri),
            NalData::FillerData(sc, nri, x) => NalDataView::FillerData(*sc, *nri, x.ff_byte_count as nat),
            NalData::SpsExt(sc, nri, x) => NalDataView::SpsExt(*sc, *nri, *x),
            NalData::PrefixNalUnit(sc, nri, t, b) => NalDataView::PrefixNalUnit(*sc, *nri, *t, b@),
            NalData::SubsetSps(sc, nri, t, b) => NalDataView::SubsetSps(*sc, *nri, *t, b@),
            NalData::Dps(sc, nri, t, b) => NalDataView::Dps(*sc, *nri, *t, b@),
            NalData::Reserved(sc, nri, t, b) => NalDataView::Reserved(*sc, *nri, *t, b@),
            NalData::Aux(sc, nri, t, b) => NalDataView::Aux(*sc, *nri, *t, b@),
            NalData::SliceExt(sc, nri, t, b) => NalDataView::SliceExt(*sc, *nri, *t, b@),
            NalData::DepthExt(sc, nri, t, b) => NalDataView::DepthExt(*sc, *nri, *t, b@),
            NalData::Unknown(sc, nri, t, b) => NalDataView::Unknown(*sc, *nri, *t, b@),
            NalData::Raw(sc, nri, t, b) => NalDataView::Raw(*sc, *nri, *t, b@),
        }
    }
}

/// The NAL units of a stream.
#[derive(Debug)]
pub struct Processor {
    pub nal_units: Vec<NalData>,
}

/// The model of a list of NAL units.
pub open spec fn nal_datas_view(v: Seq<NalData>) -> Seq<NalDataView> {
    v.map_values(|n: NalData| n@)
}

/// The parameter sets in effect: the last SPS and the last PPS seen.
pub type LastSets = (Option<SpsView>, Option<PpsView>);

/// The model of SEI messages read from the bits of `d`.
pub open spec fn sei_messages_of(d: Seq<u8>, ms: Seq<(nat, nat, nat, nat)>) -> Seq<SeiMessageView> {
    ms.map_values(|m: (nat, nat, nat, nat)| (m.0, m.1, bits_bytes(bytes_bits(d).subrange(m.2 as int, m.3 as int))))
}

/// A slice data partition A, parsed against the last SPS and PPS where
/// they give a readable slice header, else kept as bytes.
#[verifier::opaque]
pub open spec fn slice_a_step(sc: StartCode, nri: u8, payload: Seq<u8>, st: LastSets) -> Result<(NalDataView, LastSets), Error> {
    match st {
        (Some(s), Some(p)) => if header_parsable(s, p) {
            match slice_a_parse_spec(remove_epb_spec(payload), s, p, nri) {
                Ok(v) => Ok((NalDataView::SliceA(sc, nri, v), st)),
                Err(e) => Err(e),
            }
        } else {
            Ok((NalDataView::Raw(sc, nri, NalUnitType::SliceA, payload), st))
        },
        _ => Ok((NalDataView::Raw(sc, nri, NalUnitType::SliceA, payload), st)),
    }
}

/// A slice data partition C, parsed against the last SPS and PPS, else
/// kept as bytes.
#[verifier::opaque]
pub open spec fn slice_c_step(sc: StartCode, nri: u8, payload: Seq<u8>, st: LastSets) -> Result<(NalDataView, LastSets), Error> {
    match st {
        (Some(s), Some(p)) => match slice_c_parse_spec(remove_epb_spec(payload), s, p) {
            Ok(v) => Ok((NalDataView::SliceC(sc, nri, v), st)),
            Err(e) => Err(e),
        },
        _ => Ok((NalDataView::Raw(sc, nri, NalUnitType::SliceC, payload), st)),
    }
}

/// An SEI, parsed when its RBSP holds at most `u32::MAX / 255` bytes (so
/// that its 32-bit type and size sums cannot overflow), else kept as bytes.
#[verifier::opaque]
pub open spec fn sei_step(sc: StartCode, nri: u8, payload: Seq<u8>, st: LastSets) -> Result<(NalDataView, LastSets), Error> {
    let rbsp = remove_epb_spec(payload);
    if rbsp.len() <= 0x0101_0101 {
        match sei_parse_spec(rbsp, 0) {
            Ok(ms) => Ok((NalDataView::Sei(sc, nri, sei_messages_of(rbsp, ms)), st)),
            Err(e) => Err(e),
        }
    } else {
        Ok((NalDataView::Raw(sc, nri, NalUnitType::SEI, payload), st))
    }
}

/// An SPS, which becomes the last SPS.
#[verifier::opaque]
pub open spec fn sps_step(sc: StartCode, nri: u8, payload: Seq<u8>, st: LastSets) -> Result<(NalDataView, LastSets), Error> {
    match sps_parse_spec(bytes_bits(remove_epb_spec(payload))) {
        Ok(v) => Ok((NalDataView::Sps(sc, nri, v), (Some(v), st.1))),
        Err(e) => Err(e),
    }
}

/// A PPS, parsed against the last SPS and then the last PPS; without an
/// SPS it is kept as bytes.
#[verifier::opaque]
pub open spec fn pps_step(sc: StartCode, nri: u8, payload: Seq<u8>, st: LastSets) -> Result<(NalDataView, LastSets), Error> {
    match st.0 {
        Some(s) => match pps_parse_spec(remove_epb_spec(payload), sps_view_chroma(s)) {
            Ok(v) => Ok((NalDataView::Pps(sc, nri, v), (st.0, Some(v)))),
            Err(e) => Err(e),
        },
        None => Ok((NalDataView::Raw(sc, nri, NalUnitType::PPS, payload), st)),
    }
}

/// An access unit delimiter, an SPS extension or filler data.
#[verifier::opaque]
pub open spec fn small_step(sc: StartCode, nri: u8, t: NalUnitType, payload: Seq<u8>, st: LastSets) -> Result<(NalDataView, LastSets), Error> {
    let rbsp = remove_epb_spec(payload);
    if t == NalUnitType::AUD {
        match aud_parse_spec(rbsp) {
            Ok(v) => Ok((NalDataView::Aud(sc, nri, v), st)),
            Err(e) => Err(e),
        }
    } else if t == NalUnitType::SPSExt {
        match sps_ext_parse_spec(bytes_bits(rbsp)) {
            Ok(v) => Ok((NalDataView::SpsExt(sc, nri, v), st)),
            Err(e) => Err(e),
        }
    } else {
        Ok((NalDataView::FillerData(sc, nri, leading_ff(rbsp)), st))
    }
}

/// Taking in one NAL unit (start code, header, payload after the header
/// byte) with the parameter sets `st` in effect: its NAL data, and the
/// parameter sets after it. Payloads are read without their emulation
/// prevention bytes. Slices of kinds other than partitions A and C, and
/// kinds this crate does not read, are kept as bytes.
#[verifier::opaque]
pub open spec fn push_step(sc: StartCode, h: Header, payload: Seq<u8>, st: LastSets) -> Result<(NalDataView, LastSets), Error> {
    let nri = h.nal_ref_idc;
    let t = h.nal_unit_type;
    match t {
        NalUnitType::Unspecified(_) => Ok((NalDataView::Unspecified(sc, nri, t, payload), st)),
        NalUnitType::SliceA => slice_a_step(sc, nri, payload, st),
        NalUnitType::SliceC => slice_c_step(sc, nri, payload, st),
        NalUnitType::SEI => sei_step(sc, nri, payload, st),
        NalUnitType::SPS => sps_step(sc, nri, payload, st),
        NalUnitType::PPS => pps_step(sc, nri, payload, st),
        NalUnitType::AUD => small_step(sc, nri, t, payload, st),
        NalUnitType::SPSExt => small_step(sc, nri, t, payload, st),
        NalUnitType::FillerData => small_step(sc, nri, t, payload, st),
        NalUnitType::EOSeq => Ok((NalDataView::EOSeq(sc, nri), st)),
        NalUnitType::EOStream => Ok((NalDataView::EOStream(sc, nri), st)),
        NalUnitType::PrefixNalUnit => Ok((NalDataView::PrefixNalUnit(sc, nri, t, payload), st)),
        NalUnitType::SubsetSPS => Ok((NalDataView::SubsetSps(sc, nri, t, payload), st)),
        NalUnitType::DPS => Ok((NalDataView::Dps(sc, nri, t, payload), st)),
        NalUnitType::Reserved(_) => Ok((NalDataView::Reserved(sc, nri, t, payload), st)),
        NalUnitType::AUX => Ok((NalDataView::Aux(sc, nri, t, payload), st)),
        NalUnitType::SliceExt => Ok((NalDataView::SliceExt(sc, nri, t, payload), st)),
        NalUnitType::DepthExt => Ok((NalDataView::DepthExt(sc, nri, t, payload), st)),
        NalUnitType::Unknown(_) => Ok((NalDataView::Unknown(sc, nri, t, payload), st)),
        _ => Ok((NalDataView::Raw(sc, nri, t, payload), st)),
    }
}

/// `x` followed by the items of a result.
pub open spec fn prepend_one(x: NalDataView, r: Result<Seq<NalDataView>, Error>) -> Result<Seq<NalDataView>, Error> {
    match r {
        Ok(rest) => Ok(seq![x] + rest),
        Err(e) => Err(e),
    }
}

/// `pre` followed by the items of a result.
pub open spec fn prepend_all(pre: Seq<NalDataView>, r: Result<Seq<NalDataView>, Error>) -> Result<Seq<NalDataView>, Error> {
    match r {
        Ok(rest) => Ok(pre + rest),
        Err(e) => Err(e),
    }
}

/// Taking in NAL units `k..` of `ms` (start code, header, payload) one
/// step each, stopping at the first error.
pub open spec fn push_all_from(ms: Seq<(StartCode, Header, Seq<u8>)>, k: nat, st: LastSets) -> Result<Seq<NalDataView>, Error>
    decreases ms.len() - k,
{
    if k >= ms.len() {
        Ok(Seq::empty())
    } else {
        match push_step(ms[k as int].0, ms[k as int].1, ms[k as int].2, st) {
            Err(e) => Err(e),
            Ok((x, next)) => prepend_one(x, push_all_from(ms, k + 1, next)),
        }
    }
}

/// The parameter sets that units at `ls` and `lp` hold.
pub open spec fn last_sets(units: Seq<NalData>, ls: Option<usize>, lp: Option<usize>) -> LastSets {
    (
        match ls {
            Some(j) => match units[j as int] {
                NalData::Sps(_, _, s) => Some(s@),
                _ => None,
            },
            None => None,
        },
        match lp {
            Some(j) => match units[j as int] {
                NalData::Pps(_, _, p) => Some(p@),
                _ => None,
            },
            None => None,
        },
    )
}

/// The last-set indices point at an SPS and a PPS.
pub open spec fn last_ok(units: Seq<NalData>, ls: Option<usize>, lp: Option<usize>) -> bool {
    &&& (ls matches Some(j) ==> j < units.len() && units[j as int] is Sps)
    &&& (lp matches Some(j) ==> j < units.len() && units[j as int] is Pps)
}

/// A copy of bytes.
fn copy_all(b: &[u8]) -> (r: Vec<u8>)
    ensures
        r@ == b@,
{
    let r = copy_range(b, 0, b.len());
    assert(b@.subrange(0, b@.len() as int) =~= b@);
    r
}

/// The SEI messages read from `d` hold the model of the parse.
proof fn lemma_sei_view(sei: Sei, d: Seq<u8>, ms: Seq<(nat, nat, nat, nat)>)
    requires
        sei.sei_message@.len() == ms.len(),
        forall|k: int| 0 <= k < ms.len() ==> crate::h264::sei::sei_message_is(#[trigger] sei.sei_message@[k], bytes_bits(d), ms[k]),
    ensures
        sei_view(sei) == sei_messages_of(d, ms),
{
    assert forall|k: int| 0 <= k < ms.len() implies #[trigger] sei_view(sei)[k] == sei_messages_of(d, ms)[k] by {
        let m = sei.sei_message@[k];
        assert(crate::h264::sei::sei_message_is(m, bytes_bits(d), ms[k]));
        lemma_bits_bytes(m.payload@);
    }
    assert(sei_view(sei) =~= sei_messages_of(d, ms));
}

/// A slice data partition A.
fn slice_a_data(sc: StartCode, nri: u8, payload: &[u8], units: &Vec<NalData>, ls: Option<usize>, lp: Option<usize>) -> (r: Result<NalData, Error>)
    requires
        payload@.len() * 8 <= usize::MAX,
        last_ok(units@, ls, lp),
    ensures
        match slice_a_step(sc, nri, payload@, last_sets(units@, ls, lp)) {
            Ok((x, _)) => r matches Ok(n) && n@ == x,
            Err(e) => r == Err::<NalData, Error>(e),
        },
{
    reveal(slice_a_step);
    if let (Some(i), Some(j)) = (ls, lp) {
        if let (NalData::Sps(_, _, s), NalData::Pps(_, _, p)) = (&units[i], &units[j]) {
            if header_parsable_exec(s, p) {
                let rbsp = NalUnit::remove_emulation_prevention_bytes(payload);
                let x = SliceA::parse(rbsp.as_slice(), s, p, nri)?;
                return Ok(NalData::SliceA(sc, nri, Box::new(x)));
            }
        }
    }
    Ok(NalData::Raw(sc, nri, NalUnitType::SliceA, copy_all(payload)))
}

/// A slice data partition C.
fn slice_c_data(sc: StartCode, nri: u8, payload: &[u8], units: &Vec<NalData>, ls: Option<usize>, lp: Option<usize>) -> (r: Result<NalData, Error>)
    requires
        payload@.len() * 8 <= usize::MAX,
        last_ok(units@, ls, lp),
    ensures
        match slice_c_step(sc, nri, payload@, last_sets(units@, ls, lp)) {
            Ok((x, _)) => r matches Ok(n) && n@ == x,
            Err(e) => r == Err::<NalData, Error>(e),
        },
{
    reveal(slice_c_step);
    if let (Some(i), Some(j)) = (ls, lp) {
        if let (NalData::Sps(_, _, s), NalData::Pps(_, _, p)) = (&units[i], &units[j]) {
            let rbsp = NalUnit::remove_emulation_prevention_bytes(payload);
            let x = SliceC::parse(rbsp.as_slice(), s, p)?;
            return Ok(NalData::SliceC(sc, nri, Box::new(x)));
        }
    }
    Ok(NalData::Raw(sc, nri, NalUnitType::SliceC, copy_all(payload)))
}

/// An SEI.
fn sei_data(sc: StartCode, nri: u8, payload: &[u8], st: Ghost<LastSets>) -> (r: Result<NalData, Error>)
    ensures
        match sei_step(sc, nri, payload@, st@) {
            Ok((x, _)) => r matches Ok(n) && n@ == x,
            Err(e) => r == Err::<NalData, Error>(e),
        },
{
    reveal(sei_step);
    let rbsp = NalUnit::remove_emulation_prevention_bytes(payload);
    if rbsp.len() <= 0x0101_0101 {
        let x = Sei::parse(rbsp.as_slice())?;
        proof {
            let ms = sei_parse_spec(rbsp@, 0)->Ok_0;
            lemma_sei_view(x, rbsp@, ms);
        }
        Ok(NalData::Sei(sc, nri, Box::new(x)))
    } else {
        Ok(NalData::Raw(sc, nri, NalUnitType::SEI, copy_all(payload)))
    }
}

/// An SPS.
fn sps_data(sc: StartCode, nri: u8, payload: &[u8], st: Ghost<LastSets>) -> (r: Result<NalData, Error>)
    requires
        payload@.len() * 8 <= usize::MAX,
    ensures
        match sps_step(sc, nri, payload@, st@) {
            Ok((x, _)) => r matches Ok(n) && n@ == x,
            Err(e) => r == Err::<NalData, Error>(e),
        },
{
    reveal(sps_step);
    let rbsp = NalUnit::remove_emulation_prevention_bytes(payload);
    let x = Sps::parse(rbsp.as_slice())?;
    Ok(NalData::Sps(sc, nri, Box::new(x)))
}

/// A PPS.
#[verifier::spinoff_prover]
#[verifier::rlimit(40)]
fn pps_data(sc: StartCode, nri: u8, payload: &[u8], units: &Vec<NalData>, ls: Option<usize>, lp: Option<usize>) -> (r: Result<NalData, Error>)
    requires
        payload@.len() * 8 <= usize::MAX,
        last_ok(units@, ls, lp),
    ensures
        match pps_step(sc, nri, payload@, last_sets(units@, ls, lp)) {
            Ok((x, _)) => r matches Ok(n) && n@ == x,
            Err(e) => r == Err::<NalData, Error>(e),
        },
{
    reveal(pps_step);
    let ghost st = last_sets(units@, ls, lp);
    if let Some(i) = ls {
        if let NalData::Sps(_, _, s) = &units[i] {
            assert(st.0 == Some(s@));
            let rbsp = NalUnit::remove_emulation_prevention_bytes(payload);
            let r = Pps::parse(rbsp.as_slice(), s);
            return match r {
                Ok(x) => Ok(NalData::Pps(sc, nri, Box::new(x))),
                Err(e) => Err(e),
            };
        }
    }
    assert(st.0 is None);
    Ok(NalData::Raw(sc, nri, NalUnitType::PPS, copy_all(payload)))
}

/// An access unit delimiter, an SPS extension or filler data.
fn small_data(sc: StartCode, nri: u8, t: NalUnitType, payload: &[u8], st: Ghost<LastSets>) -> (r: Result<NalData, Error>)
    requires
        payload@.len() * 8 <= usize::MAX,
    ensures
        match small_step(sc, nri, t, payload@, st@) {
            Ok((x, _)) => r matches Ok(n) && n@ == x,
            Err(e) => r == Err::<NalData, Error>(e),
        },
{
    reveal(small_step);
    let rbsp = NalUnit::remove_emulation_prevention_bytes(payload);
    if t == NalUnitType::AUD {
        let x = Aud::parse(rbsp.as_slice())?;
        Ok(NalData::Aud(sc, nri, x))
    } else if t == NalUnitType::SPSExt {
        let x = SpsExt::parse(rbsp.as_slice())?;
        Ok(NalData::SpsExt(sc, nri, x))
    } else {
        let x = FillerData::parse(rbsp.as_slice());
        Ok(NalData::FillerData(sc, nri, x))
    }
}

/// Turn one NAL unit into NAL data with the parameter sets at `ls` and
/// `lp` of `units`.
fn nal_data_of(sc: StartCode, nal_unit: &NalUnit, units: &Vec<NalData>, ls: Option<usize>, lp: Option<usize>) -> (r: Result<NalData, Error>)
    requires
        nal_unit.rbsp@.len() * 8 <= usize::MAX,
        last_ok(units@, ls, lp),
    ensures
        match push_step(sc, nal_unit.header, nal_unit.rbsp@, last_sets(units@, ls, lp)) {
            Ok((x, _)) => r matches Ok(n) && n@ == x,
            Err(e) => r == Err::<NalData, Error>(e),
        },
{
    reveal(push_step);
    let nri = nal_unit.header.nal_ref_idc;
    let t = nal_unit.header.nal_unit_type;
    let payload = nal_unit.rbsp.as_slice();
    let ghost st = last_sets(units@, ls, lp);
    match t {
        NalUnitType::Unspecified(_) => Ok(NalData::Unspecified(sc, nri, t, copy_all(payload))),
        NalUnitType::SliceA => slice_a_data(sc, nri, payload, units, ls, lp),
        NalUnitType::SliceC => slice_c_data(sc, nri, payload, units, ls, lp),
        NalUnitType::SEI => sei_data(sc, nri, payload, Ghost(st)),
        NalUnitType::SPS => sps_data(sc, nri, payload, Ghost(st)),
        NalUnitType::PPS => pps_data(sc, nri, payload, units, ls, lp),
        NalUnitType::AUD | NalUnitType::SPSExt | NalUnitType::FillerData => small_data(sc, nri, t, payload, Ghost(st)),
        NalUnitType::EOSeq => Ok(NalData::EOSeq(sc, nri)),
        NalUnitType::EOStream => Ok(NalData::EOStream(sc, nri)),
        NalUnitType::PrefixNalUnit => Ok(NalData::PrefixNalUnit(sc, nri, t, copy_all(payload))),
        NalUnitType::SubsetSPS => Ok(NalData::SubsetSps(sc, nri, t, copy_all(payload))),
        NalUnitType::DPS => Ok(NalData::Dps(sc, nri, t, copy_all(payload))),
        NalUnitType::Reserved(_) => Ok(NalData::Reserved(sc, nri, t, copy_all(payload))),
        NalUnitType::AUX => Ok(NalData::Aux(sc, nri, t, copy_all(payload))),
        NalUnitType::SliceExt => Ok(NalData::SliceExt(sc, nri, t, copy_all(payload))),
        NalUnitType::DepthExt => Ok(NalData::DepthExt(sc, nri, t, copy_all(payload))),
        NalUnitType::Unknown(_) => Ok(NalData::Unknown(sc, nri, t, copy_all(payload))),
        _ => Ok(NalData::Raw(sc, nri, t, copy_all(payload))),
    }
}

/// A step sets the last SPS to one that it parses, the last PPS to one
/// that it parses, and keeps both otherwise.
proof fn lemma_step_next(sc: StartCode, h: Header, payload: Seq<u8>, st: LastSets)
    ensures
        push_step(sc, h, payload, st) matches Ok((x, next)) ==> match x {
            NalDataView::Sps(_, _, v) => next == (Some(v), st.1),
            NalDataView::Pps(_, _, v) => next == (st.0, Some(v)),
            _ => next == st,
        },
        push_step(sc, h, payload, st) matches Ok((x, _)) ==> start_code_view(x) == sc,
{
    reveal(push_step);
    match h.nal_unit_type {
        NalUnitType::SliceA => {
            reveal(slice_a_step);
        },
        NalUnitType::SliceC => {
            reveal(slice_c_step);
        },
        NalUnitType::SEI => {
            reveal(sei_step);
        },
        NalUnitType::SPS => {
            reveal(sps_step);
        },
        NalUnitType::PPS => {
            reveal(pps_step);
        },
        NalUnitType::AUD | NalUnitType::SPSExt | NalUnitType::FillerData => {
            reveal(small_step);
        },
        _ => {},
    }
}

/// The step from a prefix of NAL data to the next one.
proof fn lemma_push_view(out: Seq<NalData>, x: NalData, r: Result<Seq<NalDataView>, Error>)
    ensures
        prepend_all(nal_datas_view(out), prepend_one(x@, r)) == prepend_all(nal_datas_view(out.push(x)), r),
{
    assert(nal_datas_view(out.push(x)) =~= nal_datas_view(out).push(x@));
    match r {
        Ok(rest) => {
            assert(nal_datas_view(out) + (seq![x@] + rest) =~= nal_datas_view(out).push(x@) + rest);
        },
        Err(_) => {},
    }
}

/// Take in one NAL unit: its NAL data is appended to `nal_units`, and an
/// SPS or PPS becomes the last one (`last_sps`, `last_pps` index
/// `nal_units`).
fn push_nal(nal_units: &mut Vec<NalData>, last_sps: &mut Option<usize>, last_pps: &mut Option<usize>, sc: StartCode, nal_unit: &NalUnit) -> (r: Result<(), Error>)
    requires
        nal_unit.rbsp@.len() * 8 <= usize::MAX,
        last_ok(old(nal_units)@, *old(last_sps), *old(last_pps)),
    ensures
        match push_step(sc, nal_unit.header, nal_unit.rbsp@, last_sets(old(nal_units)@, *old(last_sps), *old(last_pps))) {
            Ok((x, next)) => {
                &&& r is Ok
                &&& final(nal_units)@.len() == old(nal_units)@.len() + 1
                &&& final(nal_units)@.drop_last() == old(nal_units)@
                &&& final(nal_units)@.last()@ == x
                &&& last_ok(final(nal_units)@, *final(last_sps), *final(last_pps))
                &&& last_sets(final(nal_units)@, *final(last_sps), *final(last_pps)) == next
            },
            Err(e) => r == Err::<(), Error>(e),
        },
        r is Err ==> final(nal_units)@ == old(nal_units)@ && *final(last_sps) == *old(last_sps)
            && *final(last_pps) == *old(last_pps),
{
    let ghost st = last_sets(nal_units@, *last_sps, *last_pps);
    let ghost before = nal_units@;
    let x = nal_data_of(sc, nal_unit, nal_units, *last_sps, *last_pps)?;
    proof {
        lemma_step_next(sc, nal_unit.header, nal_unit.rbsp@, st);
    }
    let kind: u8 = match &x {
        NalData::Sps(..) => 1,
        NalData::Pps(..) => 2,
        _ => 0,
    };
    nal_units.push(x);
    let idx = nal_units.len() - 1;
    if kind == 1 {
        *last_sps = Some(idx);
    } else if kind == 2 {
        *last_pps = Some(idx);
    }
    proof {
        assert(nal_units@.drop_last() =~= before);
        if let Some(j) = *last_sps {
            if kind != 1 {
                assert(nal_units@[j as int] == before[j as int]);
            }
        }
        if let Some(j) = *last_pps {
            if kind != 2 {
                assert(nal_units@[j as int] == before[j as int]);
            }
        }
    }
    Ok(())
}

impl Processor {
    /// Parse an Annex B byte stream.
    pub fn from_annex_b(pes_payload: &[u8]) -> (r: Result<Self, Error>)
        requires
            pes_payload@.len() * 8 <= usize::MAX,
        ensures
            match parse_all_from(pes_payload@, start_codes(pes_payload@), 0) {
                Ok(ms) => match push_all_from(ms, 0, (None, None)) {
                    Ok(v) => r matches Ok(p) && nal_datas_view(p.nal_units@) == v,
                    Err(e) => r matches Err(x) && x == e,
                },
                Err(e) => r matches Err(x) && x == e,
            },
    {
        let annex_b_list = parse_all(pes_payload)?;
        let ghost ms = parse_all_from(pes_payload@, start_codes(pes_payload@), 0)->Ok_0;
        let mut nal_units: Vec<NalData> = Vec::new();
        let mut last_sps: Option<usize> = None;
        let mut last_pps: Option<usize> = None;
        let mut i: usize = 0;
        proof {
            match push_all_from(ms, 0, (None, None)) {
                Ok(v) => { assert(nal_datas_view(nal_units@) + v =~= v); },
                Err(_) => {},
            }
        }
        while i < annex_b_list.len()
            invariant
                i <= annex_b_list@.len(),
                pes_payload@.len() * 8 <= usize::MAX,
                parse_all_from(pes_payload@, start_codes(pes_payload@), 0) == Ok::<Seq<(StartCode, Header, Seq<u8>)>, Error>(ms),
                ms.len() == annex_b_list@.len(),
                forall|k: int| 0 <= k < ms.len() ==> annex_b_is(#[trigger] annex_b_list@[k], ms[k]),
                forall|k: int| 0 <= k < annex_b_list@.len() ==> (#[trigger] annex_b_list@[k]).nal_unit.rbsp@.len() <= pes_payload@.len(),
                push_all_from(ms, 0, (None, None)) == prepend_all(nal_datas_view(nal_units@), push_all_from(ms, i as nat, last_sets(nal_units@, last_sps, last_pps))),
                last_ok(nal_units@, last_sps, last_pps),
            decreases annex_b_list@.len() - i,
        {
            let ab = &annex_b_list[i];
            assert(annex_b_is(annex_b_list@[i as int], ms[i as int]));
            assert(ab.nal_unit.rbsp@.len() <= pes_payload@.len());
            let ghost before = nal_units@;
            let ghost st = last_sets(before, last_sps, last_pps);
            let ghost m = ms[i as int];
            match push_nal(&mut nal_units, &mut last_sps, &mut last_pps, ab.start_code, &ab.nal_unit) {
                Ok(()) => {},
                Err(e) => {
                    assert(push_all_from(ms, i as nat, st) == Err::<Seq<NalDataView>, Error>(e));
                    return Err(e);
                },
            }
            proof {
                let (x, next) = push_step(m.0, m.1, m.2, st)->Ok_0;
                let xd = nal_units@.last();
                assert(nal_units@ == before.push(xd));
                lemma_push_view(before, xd, push_all_from(ms, i as nat + 1, next));
            }
            i = i + 1;
        }
        proof {
            assert(nal_datas_view(nal_units@) + Seq::<NalDataView>::empty() =~= nal_datas_view(nal_units@));
        }
        Ok(Processor { nal_units })
    }
}

/// The header byte of a NAL unit with `nal_ref_idc` and type `t`.
pub open spec fn hb(nri: u8, t: NalUnitType) -> u8 {
    header_byte(Header { nal_ref_idc: nri, nal_unit_type: t })
}

/// The syntax bits of SEI messages, in order.
pub open spec fn sei_view_bits(ms: Seq<SeiMessageView>) -> Seq<bool>
    decreases ms.len(),
{
    if ms.len() == 0 {
        Seq::empty()
    } else {
        sei_view_bits(ms.drop_last()) + sei_message_bits(ms.last().0, ms.last().1, ms.last().2)
    }
}

/// A header byte and the emulation-prevented bytes of syntax bits
/// (stop bit and padding included in `bits`).
pub open spec fn coded(nri: u8, t: NalUnitType, bits: Seq<bool>) -> Seq<u8> {
    seq![hb(nri, t)] + attach_epb_spec(bits_bytes(bits))
}

/// Writing one NAL unit (without start code) with the parameter sets
/// `st` in effect: its bytes, none for a slice partition without an SPS
/// and a PPS before it, and the parameter sets after it.
#[verifier::opaque]
pub open spec fn serialize_step(n: NalDataView, st: LastSets) -> (Option<Seq<u8>>, LastSets) {
    match n {
        NalDataView::SliceA(_, nri, v) => match st {
            (Some(s), Some(p)) => (Some(coded(nri, NalUnitType::SliceA, byte_aligned(slice_a_bits(v, s, p)))), st),
            _ => (None, st),
        },
        NalDataView::SliceC(_, nri, v) => match st {
            (Some(_), Some(_)) => (Some(coded(nri, NalUnitType::SliceC, byte_aligned(slice_c_bits(v)))), st),
            _ => (None, st),
        },
        NalDataView::Sei(_, nri, ms) => (Some(coded(nri, NalUnitType::SEI, rbsp_bits(sei_view_bits(ms)))), st),
        NalDataView::Sps(_, nri, v) => (Some(coded(nri, NalUnitType::SPS, rbsp_bits(sps_bits(v)))), (Some(v), st.1)),
        NalDataView::Pps(_, nri, v) => (Some(coded(nri, NalUnitType::PPS, rbsp_bits(pps_bits(v)))), (st.0, Some(v))),
        NalDataView::Aud(_, nri, t) => (
            Some(seq![hb(nri, NalUnitType::AUD)] + attach_epb_spec(seq![((primary_pic_type_value(t) << 5u8) | 0b0001_0000u8) as u8])),
            st,
        ),
        NalDataView::EOSeq(_, nri) => (Some(seq![hb(nri, NalUnitType::EOSeq)]), st),
        NalDataView::EOStream(_, nri) => (Some(seq![hb(nri, NalUnitType::EOStream)]), st),
        NalDataView::FillerData(_, nri, c) => (Some(seq![hb(nri, NalUnitType::FillerData)] + attach_epb_spec(filler_bytes(c))), st),
        NalDataView::SpsExt(_, nri, x) => (Some(coded(nri, NalUnitType::SPSExt, rbsp_bits(sps_ext_bits(x)))), st),
        NalDataView::Unspecified(_, nri, t, b) => (Some(seq![hb(nri, t)] + b), st),
        NalDataView::PrefixNalUnit(_, nri, t, b) => (Some(seq![hb(nri, t)] + b), st),
        NalDataView::SubsetSps(_, nri, t, b) => (Some(seq![hb(nri, t)] + b), st),
        NalDataView::Dps(_, nri, t, b) => (Some(seq![hb(nri, t)] + b), st),
        NalDataView::Reserved(_, nri, t, b) => (Some(seq![hb(nri, t)] + b), st),
        NalDataView::Aux(_, nri, t, b) => (Some(seq![hb(nri, t)] + b), st),
        NalDataView::SliceExt(_, nri, t, b) => (Some(seq![hb(nri, t)] + b), st),
        NalDataView::DepthExt(_, nri, t, b) => (Some(seq![hb(nri, t)] + b), st),
        NalDataView::Unknown(_, nri, t, b) => (Some(seq![hb(nri, t)] + b), st),
        NalDataView::Raw(_, nri, t, b) => (Some(seq![hb(nri, t)] + b), st),
    }
}

/// Whether one NAL unit can be written with the parameter sets `st`.
pub open spec fn nal_writable(n: NalDataView, st: LastSets) -> bool {
    match n {
        NalDataView::SliceA(_, _, v) => match st {
            (Some(s), Some(p)) => header_writable(v.slice_header, s, p) && v.slice_id < u32::MAX
                && (v.slice_data.len() == 0 || v.slice_data_bit_offset < 8),
            _ => true,
        },
        NalDataView::SliceC(_, _, v) => match st {
            (Some(_), Some(_)) => v.slice_id < u32::MAX && (v.redundant_pic_cnt matches Some(x) ==> x < u32::MAX)
                && (v.slice_data.len() == 0 || v.slice_data_bit_offset < 8),
            _ => true,
        },
        NalDataView::Sps(_, _, v) => sps_writable(v),
        NalDataView::Pps(_, _, v) => pps_writable(v),
        NalDataView::FillerData(_, _, c) => c < usize::MAX,
        NalDataView::SpsExt(_, _, x) => sps_ext_writable(x),
        _ => true,
    }
}

/// Writing a unit sets the last SPS or PPS to one that it writes and
/// keeps both otherwise.
proof fn lemma_serialize_next(n: NalDataView, st: LastSets)
    ensures
        serialize_step(n, st).1 == match n {
            NalDataView::Sps(_, _, v) => (Some(v), st.1),
            NalDataView::Pps(_, _, v) => (st.0, Some(v)),
            _ => st,
        },
{
    reveal(serialize_step);
}

/// The start code of a NAL unit.
pub open spec fn start_code_view(n: NalDataView) -> StartCode {
    match n {
        NalDataView::Unspecified(sc, ..) => sc,
        NalDataView::SliceA(sc, ..) => sc,
        NalDataView::SliceC(sc, ..) => sc,
        NalDataView::Sei(sc, ..) => sc,
        NalDataView::Sps(sc, ..) => sc,
        NalDataView::Pps(sc, ..) => sc,
        NalDataView::Aud(sc, ..) => sc,
        NalDataView::EOSeq(sc, ..) => sc,
        NalDataView::EOStream(sc, ..) => sc,
        NalDataView::FillerData(sc, ..) => sc,
        NalDataView::SpsExt(sc, ..) => sc,
        NalDataView::PrefixNalUnit(sc, ..) => sc,
        NalDataView::SubsetSps(sc, ..) => sc,
        NalDataView::Dps(sc, ..) => sc,
        NalDataView::Reserved(sc, ..) => sc,
        NalDataView::Aux(sc, ..) => sc,
        NalDataView::SliceExt(sc, ..) => sc,
        NalDataView::DepthExt(sc, ..) => sc,
        NalDataView::Unknown(sc, ..) => sc,
        NalDataView::Raw(sc, ..) => sc,
    }
}

/// Every NAL unit from `k` on can be written, each with the parameter
/// sets in effect at it.
pub open spec fn writable_from(ns: Seq<NalDataView>, k: nat, st: LastSets) -> bool
    decreases ns.len() - k,
{
    k >= ns.len() || (nal_writable(ns[k as int], st) && writable_from(ns, k + 1, serialize_step(ns[k as int], st).1))
}

/// The Annex B bytes of NAL units `k..`: each written unit after its
/// start code; units not written leave nothing.
pub open spec fn annex_b_from(ns: Seq<NalDataView>, k: nat, st: LastSets) -> Seq<u8>
    decreases ns.len() - k,
{
    if k >= ns.len() {
        Seq::empty()
    } else {
        let (b, next) = serialize_step(ns[k as int], st);
        (match b {
            Some(b) => start_code_bytes(start_code_view(ns[k as int])) + b,
            None => Seq::<u8>::empty(),
        }) + annex_b_from(ns, k + 1, next)
    }
}

/// The bits of SEI messages depend on their models alone.
proof fn lemma_sei_bits(ms: Seq<SeiMessage>)
    ensures
        sei_messages_bits(ms) == sei_view_bits(ms.map_values(|m: SeiMessage| (m.payload_type as nat, m.payload_size as nat, m.payload@))),
    decreases ms.len(),
{
    if ms.len() > 0 {
        lemma_sei_bits(ms.drop_last());
        assert(ms.drop_last().map_values(|m: SeiMessage| (m.payload_type as nat, m.payload_size as nat, m.payload@))
            =~= ms.map_values(|m: SeiMessage| (m.payload_type as nat, m.payload_size as nat, m.payload@)).drop_last());
    }
}

/// A header byte followed by `body` with emulation prevention bytes.
fn with_header(nri: u8, t: NalUnitType, body: &[u8]) -> (r: Vec<u8>)
    ensures
        r@ == seq![hb(nri, t)] + attach_epb_spec(body@),
{
    let mut buf: Vec<u8> = Vec::new();
    buf.push((nri << 5) | t.to_u8());
    let e = NalUnit::attach_emulation_prevention_bytes(body);
    extend(&mut buf, e.as_slice());
    buf
}

/// A header byte followed by raw bytes.
fn with_header_raw(nri: u8, t: NalUnitType, body: &[u8]) -> (r: Vec<u8>)
    ensures
        r@ == seq![hb(nri, t)] + body@,
{
    let mut buf: Vec<u8> = Vec::new();
    buf.push((nri << 5) | t.to_u8());
    extend(&mut buf, body);
    buf
}

/// The bytes of a slice partition with the parameter sets at `ls` and
/// `lp`.
fn slice_bytes(n: &NalData, units: &Vec<NalData>, ls: Option<usize>, lp: Option<usize>) -> (r: Option<Vec<u8>>)
    requires
        n is SliceA || n is SliceC,
        last_ok(units@, ls, lp),
        nal_writable(n@, last_sets(units@, ls, lp)),
    ensures
        match serialize_step(n@, last_sets(units@, ls, lp)).0 {
            Some(b) => r matches Some(v) && v@ == b,
            None => r is None,
        },
{
    reveal(serialize_step);
    if let (Some(i), Some(j)) = (ls, lp) {
        if let (NalData::Sps(_, _, s), NalData::Pps(_, _, p)) = (&units[i], &units[j]) {
            match n {
                NalData::SliceA(_, nri, x) => {
                    let body = x.to_bytes(s, p);
                    let body = match body {
                        Ok(b) => b,
                        Err(_) => Vec::new(),
                    };
                    proof {
                        lemma_bits_bytes(body@);
                    }
                    return Some(with_header(*nri, NalUnitType::SliceA, body.as_slice()));
                },
                NalData::SliceC(_, nri, x) => {
                    let body = x.to_bytes(s, p);
                    let body = match body {
                        Ok(b) => b,
                        Err(_) => Vec::new(),
                    };
                    proof {
                        lemma_bits_bytes(body@);
                    }
                    return Some(with_header(*nri, NalUnitType::SliceC, body.as_slice()));
                },
                _ => {
                    return None;
                },
            }
        }
    }
    None
}

/// The bytes of a NAL unit other than a slice partition.
fn other_bytes(n: &NalData, st: Ghost<LastSets>) -> (r: Vec<u8>)
    requires
        !(n is SliceA || n is SliceC),
        nal_writable(n@, st@),
    ensures
        serialize_step(n@, st@).0 == Some(r@),
{
    reveal(serialize_step);
    match n {
        NalData::Sei(_, nri, x) => {
            let body = x.to_bytes();
            proof {
                lemma_bits_bytes(body@);
                lemma_sei_bits(x.sei_message@);
            }
            with_header(*nri, NalUnitType::SEI, body.as_slice())
        },
        NalData::Sps(_, nri, x) => {
            let body = x.to_bytes();
            proof {
                lemma_bits_bytes(body@);
            }
            with_header(*nri, NalUnitType::SPS, body.as_slice())
        },
        NalData::Pps(_, nri, x) => {
            let body = x.to_bytes();
            proof {
                lemma_bits_bytes(body@);
            }
            with_header(*nri, NalUnitType::PPS, body.as_slice())
        },
        NalData::Aud(_, nri, x) => {
            let body = x.to_bytes();
            with_header(*nri, NalUnitType::AUD, body.as_slice())
        },
        NalData::EOSeq(_, nri) => with_header_raw(*nri, NalUnitType::EOSeq, &[]),
        NalData::EOStream(_, nri) => with_header_raw(*nri, NalUnitType::EOStream, &[]),
        NalData::FillerData(_, nri, x) => {
            let body = x.to_bytes();
            with_header(*nri, NalUnitType::FillerData, body.as_slice())
        },
        NalData::SpsExt(_, nri, x) => {
            let body = x.to_bytes();
            proof {
                lemma_bits_bytes(body@);
            }
            with_header(*nri, NalUnitType::SPSExt, body.as_slice())
        },
        NalData::Unspecified(_, nri, t, b) => with_header_raw(*nri, *t, b.as_slice()),
        NalData::PrefixNalUnit(_, nri, t, b) => with_header_raw(*nri, *t, b.as_slice()),
        NalData::SubsetSps(_, nri, t, b) => with_header_raw(*nri, *t, b.as_slice()),
        NalData::Dps(_, nri, t, b) => with_header_raw(*nri, *t, b.as_slice()),
        NalData::Reserved(_, nri, t, b) => with_header_raw(*nri, *t, b.as_slice()),
        NalData::Aux(_, nri, t, b) => with_header_raw(*nri, *t, b.as_slice()),
        NalData::SliceExt(_, nri, t, b) => with_header_raw(*nri, *t, b.as_slice()),
        NalData::DepthExt(_, nri, t, b) => with_header_raw(*nri, *t, b.as_slice()),
        NalData::Unknown(_, nri, t, b) => with_header_raw(*nri, *t, b.as_slice()),
        NalData::Raw(_, nri, t, b) => with_header_raw(*nri, *t, b.as_slice()),
        NalData::SliceA(..) | NalData::SliceC(..) => Vec::new(),
    }
}

/// Write unit `idx` of `units` (without start code): none for a slice
/// partition without an SPS and a PPS before it. An SPS or PPS becomes
/// the last one.
fn serialize_nal(units: &Vec<NalData>, idx: usize, last_sps: &mut Option<usize>, last_pps: &mut Option<usize>) -> (r: Result<Option<Vec<u8>>, Error>)
    requires
        idx < units@.len(),
        last_ok(units@, *old(last_sps), *old(last_pps)),
        nal_writable(units@[idx as int]@, last_sets(units@, *old(last_sps), *old(last_pps))),
    ensures
        ({
            let (b, next) = serialize_step(units@[idx as int]@, last_sets(units@, *old(last_sps), *old(last_pps)));
            &&& r matches Ok(ob) && (match b {
                Some(b) => ob matches Some(v) && v@ == b,
                None => ob is None,
            })
            &&& last_ok(units@, *final(last_sps), *final(last_pps))
            &&& last_sets(units@, *final(last_sps), *final(last_pps)) == next
        }),
{
    let n = &units[idx];
    let ghost st = last_sets(units@, *last_sps, *last_pps);
    proof {
        lemma_serialize_next(n@, st);
    }
    let out = match n {
        NalData::SliceA(..) | NalData::SliceC(..) => slice_bytes(n, units, *last_sps, *last_pps),
        _ => Some(other_bytes(n, Ghost(st))),
    };
    match n {
        NalData::Sps(..) => {
            *last_sps = Some(idx);
        },
        NalData::Pps(..) => {
            *last_pps = Some(idx);
        },
        _ => {},
    }
    Ok(out)
}

/// The start code of a NAL unit.
fn start_code_of(nal: &NalData) -> (r: StartCode)
    ensures
        r == start_code_view(nal@),
{
    match nal {
        NalData::Unspecified(sc, ..) => *sc,
        NalData::SliceA(sc, ..) => *sc,
        NalData::SliceC(sc, ..) => *sc,
        NalData::Sei(sc, ..) => *sc,
        NalData::Sps(sc, ..) => *sc,
        NalData::Pps(sc, ..) => *sc,
        NalData::Aud(sc, ..) => *sc,
        NalData::EOSeq(sc, ..) => *sc,
        NalData::EOStream(sc, ..) => *sc,
        NalData::FillerData(sc, ..) => *sc,
        NalData::SpsExt(sc, ..) => *sc,
        NalData::PrefixNalUnit(sc, ..) => *sc,
        NalData::SubsetSps(sc, ..) => *sc,
        NalData::Dps(sc, ..) => *sc,
        NalData::Reserved(sc, ..) => *sc,
        NalData::Aux(sc, ..) => *sc,
        NalData::SliceExt(sc, ..) => *sc,
        NalData::DepthExt(sc, ..) => *sc,
        NalData::Unknown(sc, ..) => *sc,
        NalData::Raw(sc, ..) => *sc,
    }
}

impl Processor {
    /// Write the NAL units as an Annex B byte stream: each written unit
    /// after its start code; a slice partition without an SPS and a PPS
    /// before it is left out.
    pub fn to_annex_b(&self) -> (r: Result<Vec<u8>, Error>)
        requires
            writable_from(nal_datas_view(self.nal_units@), 0, (None, None)),
        ensures
            r matches Ok(b) && b@ == annex_b_from(nal_datas_view(self.nal_units@), 0, (None, None)),
    {
        let ghost ns = nal_datas_view(self.nal_units@);
        let mut buf: Vec<u8> = Vec::new();
        let mut last_sps: Option<usize> = None;
        let mut last_pps: Option<usize> = None;
        let mut i: usize = 0;
        assert(buf@ + annex_b_from(ns, 0, (None, None)) =~= annex_b_from(ns, 0, (None, None)));
        while i < self.nal_units.len()
            invariant
                i <= self.nal_units@.len(),
                ns == nal_datas_view(self.nal_units@),
                last_ok(self.nal_units@, last_sps, last_pps),
                writable_from(ns, i as nat, last_sets(self.nal_units@, last_sps, last_pps)),
                buf@ + annex_b_from(ns, i as nat, last_sets(self.nal_units@, last_sps, last_pps)) == annex_b_from(ns, 0, (None, None)),
            decreases self.nal_units@.len() - i,
        {
            let ghost st = last_sets(self.nal_units@, last_sps, last_pps);
            let ghost b0 = buf@;
            assert(ns[i as int] == self.nal_units@[i as int]@);
            let out = serialize_nal(&self.nal_units, i, &mut last_sps, &mut last_pps)?;
            if let Some(bytes) = out {
                let sc = start_code_of(&self.nal_units[i]).as_bytes();
                extend(&mut buf, sc.as_slice());
                extend(&mut buf, bytes.as_slice());
            }
            proof {
                let next = serialize_step(ns[i as int], st).1;
                assert(buf@ + annex_b_from(ns, i as nat + 1, next) =~= b0 + annex_b_from(ns, i as nat, st));
            }
            i = i + 1;
        }
        assert(buf@ + annex_b_from(ns, i as nat, last_sets(self.nal_units@, last_sps, last_pps)) =~= buf@);
        Ok(buf)
    }
}

/// A NAL unit read from length-prefixed data: its header and payload, or
/// the error that reading it gave.
pub type NalItem = Result<(Header, Seq<u8>), Error>;

/// Taking in one read NAL unit, which has no start code of its own (a
/// four-byte one stands in).
pub open spec fn item_step(item: NalItem, st: LastSets) -> Result<(NalDataView, LastSets), Error> {
    match item {
        Err(e) => Err(e),
        Ok((h, payload)) => push_step(StartCode::FourBytes, h, payload, st),
    }
}

/// Taking in read NAL units in order, stopping at the first error.
pub open spec fn push_items(items: Seq<NalItem>, st: LastSets) -> Result<Seq<NalDataView>, Error>
    decreases items.len(),
{
    if items.len() == 0 {
        Ok(Seq::empty())
    } else {
        match item_step(items[0], st) {
            Err(e) => Err(e),
            Ok((x, next)) => prepend_one(x, push_items(items.drop_first(), next)),
        }
    }
}

/// The NAL units of the bits `s` of one sample from bit `p` on, each
/// after an `lb`-bit big-endian length, while at least `lb` bits remain.
/// A length running past the end, a zero length or a unit that does not
/// parse ends the list with its error.
#[verifier::opaque]
pub open spec fn sample_items(s: Seq<bool>, p: nat, lb: nat) -> Seq<NalItem>
    decreases s.len() - p,
{
    if p > s.len() || s.len() - p < lb {
        Seq::empty()
    } else {
        let v = (seq_val(s.subrange(p as int, (p + lb) as int)) % 0x1_0000_0000) as nat;
        let q = p + lb;
        if 8 * v > s.len() - q || v == 0 {
            seq![Err(Error::DataTooShort)]
        } else {
            match parse_nal_unit_spec(bits_bytes(s.subrange(q as int, (q + 8 * v) as int))) {
                Err(e) => seq![Err(e)],
                Ok(h) => seq![Ok(h)] + sample_items(s, q + 8 * v, lb),
            }
        }
    }
}

/// The NAL units of samples `j..`, in order.
pub open spec fn samples_items(samples: Seq<Seq<u8>>, j: nat, lb: nat) -> Seq<NalItem>
    decreases samples.len() - j,
{
    if j >= samples.len() {
        Seq::empty()
    } else {
        sample_items(bytes_bits(samples[j as int]), 0, lb) + samples_items(samples, j + 1, lb)
    }
}

/// The NAL units of byte strings, each parsed whole.
pub open spec fn nalus_items(v: Seq<Vec<u8>>) -> Seq<NalItem> {
    v.map_values(|b: Vec<u8>| parse_nal_unit_spec(b@))
}

/// The length prefix size in bits that an `avcC` record gives, kept to
/// eight bits.
pub open spec fn length_bits(cfg: AvccConfig) -> nat {
    (((cfg.length_size_minus_one as nat + 1) * 8) as u8) as nat
}

/// The NAL units of length-prefixed samples with their `avcC` record:
/// its SPSs, its PPSs, then those of each sample.
pub open spec fn avcc_items(samples: Seq<Seq<u8>>, cfg: AvccConfig) -> Seq<NalItem> {
    nalus_items(cfg.sps_nalus@) + nalus_items(cfg.pps_nalus@) + samples_items(samples, 0, length_bits(cfg))
}

/// Parse one NAL unit from bytes and take it in.
fn push_bytes(nal_units: &mut Vec<NalData>, last_sps: &mut Option<usize>, last_pps: &mut Option<usize>, bytes: &[u8]) -> (r: Result<(), Error>)
    requires
        bytes@.len() * 8 <= usize::MAX,
        last_ok(old(nal_units)@, *old(last_sps), *old(last_pps)),
    ensures
        match item_step(parse_nal_unit_spec(bytes@), last_sets(old(nal_units)@, *old(last_sps), *old(last_pps))) {
            Ok((x, next)) => {
                &&& r is Ok
                &&& final(nal_units)@.len() == old(nal_units)@.len() + 1
                &&& final(nal_units)@.drop_last() == old(nal_units)@
                &&& final(nal_units)@.last()@ == x
                &&& last_ok(final(nal_units)@, *final(last_sps), *final(last_pps))
                &&& last_sets(final(nal_units)@, *final(last_sps), *final(last_pps)) == next
            },
            Err(e) => r == Err::<(), Error>(e),
        },
{
    let nal_unit = NalUnit::parse(bytes)?;
    push_nal(nal_units, last_sps, last_pps, StartCode::FourBytes, &nal_unit)
}

/// The step of `push_items` after one pushed unit.
proof fn lemma_items_step(units0: Seq<NalData>, units1: Seq<NalData>, items: Seq<NalItem>, st: LastSets, next: LastSets)
    requires
        items.len() > 0,
        item_step(items[0], st) matches Ok((x, n)) && n == next && units1.len() == units0.len() + 1
            && units1.drop_last() == units0 && units1.last()@ == x,
    ensures
        prepend_all(nal_datas_view(units0), push_items(items, st)) == prepend_all(nal_datas_view(units1), push_items(items.drop_first(), next)),
{
    let xd = units1.last();
    assert(units1 == units0.push(xd));
    lemma_push_view(units0, xd, push_items(items.drop_first(), next));
}

/// Take in byte strings, each a whole NAL unit.
fn push_all_bytes(nal_units: &mut Vec<NalData>, last_sps: &mut Option<usize>, last_pps: &mut Option<usize>, list: &Vec<Vec<u8>>, rest: Ghost<Seq<NalItem>>) -> (r: Result<(), Error>)
    requires
        forall|k: int| 0 <= k < list@.len() ==> (#[trigger] list@[k])@.len() * 8 <= usize::MAX,
        last_ok(old(nal_units)@, *old(last_sps), *old(last_pps)),
    ensures
        r is Ok ==> last_ok(final(nal_units)@, *final(last_sps), *final(last_pps)),
        prepend_all(nal_datas_view(old(nal_units)@), push_items(nalus_items(list@) + rest@, last_sets(old(nal_units)@, *old(last_sps), *old(last_pps)))) == (match r {
            Ok(()) => prepend_all(nal_datas_view(final(nal_units)@), push_items(rest@, last_sets(final(nal_units)@, *final(last_sps), *final(last_pps)))),
            Err(e) => Err(e),
        }),
{
    let ghost total = prepend_all(nal_datas_view(nal_units@), push_items(nalus_items(list@) + rest@, last_sets(nal_units@, *last_sps, *last_pps)));
    let mut k: usize = 0;
    assert(nalus_items(list@).skip(0) =~= nalus_items(list@));
    while k < list.len()
        invariant
            k <= list@.len(),
            total == prepend_all(nal_datas_view(old(nal_units)@), push_items(nalus_items(list@) + rest@, last_sets(old(nal_units)@, *old(last_sps), *old(last_pps)))),
            forall|i: int| 0 <= i < list@.len() ==> (#[trigger] list@[i])@.len() * 8 <= usize::MAX,
            last_ok(nal_units@, *last_sps, *last_pps),
            total == prepend_all(nal_datas_view(nal_units@), push_items(nalus_items(list@).skip(k as int) + rest@, last_sets(nal_units@, *last_sps, *last_pps))),
        decreases list@.len() - k,
    {
        let ghost items = nalus_items(list@).skip(k as int) + rest@;
        let ghost u0 = nal_units@;
        let ghost st = last_sets(nal_units@, *last_sps, *last_pps);
        assert(items[0] == parse_nal_unit_spec(list@[k as int]@));
        assert(list@[k as int]@.len() * 8 <= usize::MAX);
        match push_bytes(nal_units, last_sps, last_pps, list[k].as_slice()) {
            Ok(()) => {},
            Err(e) => {
                assert(push_items(items, st) == Err::<Seq<NalDataView>, Error>(e));
                return Err(e);
            },
        }
        proof {
            let next = last_sets(nal_units@, *last_sps, *last_pps);
            lemma_items_step(u0, nal_units@, items, st, next);
            assert(items.drop_first() =~= nalus_items(list@).skip(k + 1) + rest@);
        }
        k = k + 1;
    }
    assert(nalus_items(list@).skip(k as int) + rest@ =~= rest@);
    Ok(())
}

/// Take in the NAL units of one sample.
#[verifier::spinoff_prover]
fn push_sample(nal_units: &mut Vec<NalData>, last_sps: &mut Option<usize>, last_pps: &mut Option<usize>, sample: &[u8], length_bits: u8, rest: Ghost<Seq<NalItem>>) -> (r: Result<(), Error>)
    requires
        sample@.len() * 8 <= usize::MAX,
        last_ok(old(nal_units)@, *old(last_sps), *old(last_pps)),
    ensures
        r is Ok ==> last_ok(final(nal_units)@, *final(last_sps), *final(last_pps)),
        prepend_all(nal_datas_view(old(nal_units)@), push_items(sample_items(bytes_bits(sample@), 0, length_bits as nat) + rest@, last_sets(old(nal_units)@, *old(last_sps), *old(last_pps)))) == (match r {
            Ok(()) => prepend_all(nal_datas_view(final(nal_units)@), push_items(rest@, last_sets(final(nal_units)@, *final(last_sps), *final(last_pps)))),
            Err(e) => Err(e),
        }),
{
    let ghost s = bytes_bits(sample@);
    let ghost lb = length_bits as nat;
    let ghost total = prepend_all(nal_datas_view(nal_units@), push_items(sample_items(s, 0, lb) + rest@, last_sets(nal_units@, *last_sps, *last_pps)));
    let mut reader = BitstreamReader::new(sample);
    while reader.remaining_bits() >= length_bits as usize
        invariant
            reader.bytes() == sample@,
            reader.bits() == s,
            reader.pos() <= s.len(),
            lb == length_bits as nat,
            total == prepend_all(nal_datas_view(old(nal_units)@), push_items(sample_items(s, 0, lb) + rest@, last_sets(old(nal_units)@, *old(last_sps), *old(last_pps)))),
            last_ok(nal_units@, *last_sps, *last_pps),
            total == prepend_all(nal_datas_view(nal_units@), push_items(sample_items(s, reader.pos(), lb) + rest@, last_sets(nal_units@, *last_sps, *last_pps))),
        decreases s.len() - reader.pos(),
    {
        let ghost p = reader.pos();
        let ghost u0 = nal_units@;
        let ghost st = last_sets(nal_units@, *last_sps, *last_pps);
        let ghost items = sample_items(s, p, lb) + rest@;
        let nal_len = match reader.read_bits(length_bits) {
            Ok(v) => v as usize,
            Err(_) => {
                return Err(Error::DataTooShort);
            },
        };
        let ghost q = reader.pos();
        let ghost v = nal_len as nat;
        assert(q == p + lb);
        assert(v == (seq_val(s.subrange(p as int, (p + lb) as int)) % 0x1_0000_0000) as nat);
        assert(sample_items(s, p, lb) == (if 8 * v > s.len() - q || v == 0 {
            seq![Err::<(Header, Seq<u8>), Error>(Error::DataTooShort)]
        } else {
            match parse_nal_unit_spec(bits_bytes(s.subrange(q as int, (q + 8 * v) as int))) {
                Err(e) => seq![Err(e)],
                Ok(h) => seq![Ok(h)] + sample_items(s, q + 8 * v, lb),
            }
        })) by {
            reveal(sample_items);
        }
        let nal_bytes = match reader.read_slice(nal_len) {
            Ok(b) => b,
            Err(_) => {
                assert(items[0] == Err::<(Header, Seq<u8>), Error>(Error::DataTooShort));
                assert(push_items(items, st) == Err::<Seq<NalDataView>, Error>(Error::DataTooShort));
                return Err(Error::DataTooShort);
            },
        };
        proof {
            lemma_bits_bytes(nal_bytes@);
        }
        if nal_len == 0 {
            assert(items[0] == Err::<(Header, Seq<u8>), Error>(Error::DataTooShort));
            assert(push_items(items, st) == Err::<Seq<NalDataView>, Error>(Error::DataTooShort));
            return Err(Error::DataTooShort);
        }
        assert(nal_bytes@ == bits_bytes(s.subrange(q as int, (q + 8 * nal_len) as int)));
        match push_bytes(nal_units, last_sps, last_pps, nal_bytes.as_slice()) {
            Ok(()) => {},
            Err(e) => {
                assert(push_items(items, st) == Err::<Seq<NalDataView>, Error>(e));
                return Err(e);
            },
        }
        proof {
            let next = last_sets(nal_units@, *last_sps, *last_pps);
            lemma_items_step(u0, nal_units@, items, st, next);
            assert(items.drop_first() =~= sample_items(s, reader.pos(), lb) + rest@);
        }
    }
    assert(sample_items(s, reader.pos(), lb) =~= Seq::<NalItem>::empty()) by {
        reveal(sample_items);
    }
    assert(sample_items(s, reader.pos(), lb) + rest@ =~= rest@);
    Ok(())
}

impl Processor {
    /// Parse length-prefixed samples with their `avcC` record: its SPSs
    /// and PPSs first, then the NAL units of each sample in order, each
    /// after a big-endian length of `length_size_minus_one + 1` bytes.
    pub fn from_avcc(samples: &[&[u8]], config: &AvccConfig) -> (r: Result<Self, Error>)
        requires
            forall|k: int| 0 <= k < samples@.len() ==> (#[trigger] samples@[k])@.len() * 8 <= usize::MAX,
            forall|k: int| 0 <= k < config.sps_nalus@.len() ==> (#[trigger] config.sps_nalus@[k])@.len() * 8 <= usize::MAX,
            forall|k: int| 0 <= k < config.pps_nalus@.len() ==> (#[trigger] config.pps_nalus@[k])@.len() * 8 <= usize::MAX,
        ensures
            match push_items(avcc_items(samples@.map_values(|s: &[u8]| s@), *config), (None, None)) {
                Ok(v) => r matches Ok(p) && nal_datas_view(p.nal_units@) == v,
                Err(e) => r matches Err(x) && x == e,
            },
    {
        let ghost ss = samples@.map_values(|s: &[u8]| s@);
        let ghost lb = length_bits(*config);
        let mut nal_units: Vec<NalData> = Vec::new();
        let mut last_sps: Option<usize> = None;
        let mut last_pps: Option<usize> = None;
        let ghost all = avcc_items(ss, *config);
        let ghost after_sps = nalus_items(config.pps_nalus@) + samples_items(ss, 0, lb);
        let ghost after_pps = samples_items(ss, 0, lb);
        assert(all =~= nalus_items(config.sps_nalus@) + after_sps);
        proof {
            match push_items(all, (None, None)) {
                Ok(v) => { assert(nal_datas_view(nal_units@) + v =~= v); },
                Err(_) => {},
            }
        }
        push_all_bytes(&mut nal_units, &mut last_sps, &mut last_pps, &config.sps_nalus, Ghost(after_sps))?;
        push_all_bytes(&mut nal_units, &mut last_sps, &mut last_pps, &config.pps_nalus, Ghost(after_pps))?;
        let length_bits: u8 = #[verifier::truncate] ((config.nal_length_size() * 8) as u8);
        assert(length_bits as nat == lb);
        let mut j: usize = 0;
        while j < samples.len()
            invariant
                j <= samples@.len(),
                ss == samples@.map_values(|s: &[u8]| s@),
                all == avcc_items(ss, *config),
                forall|k: int| 0 <= k < samples@.len() ==> (#[trigger] samples@[k])@.len() * 8 <= usize::MAX,
                length_bits as nat == lb,
                last_ok(nal_units@, last_sps, last_pps),
                push_items(all, (None, None)) == prepend_all(nal_datas_view(nal_units@), push_items(samples_items(ss, j as nat, lb), last_sets(nal_units@, last_sps, last_pps))),
            decreases samples@.len() - j,
        {
            let sample: &[u8] = samples[j];
            assert(samples@[j as int]@.len() * 8 <= usize::MAX);
            assert(ss[j as int] == sample@);
            assert(samples_items(ss, j as nat, lb) == sample_items(bytes_bits(sample@), 0, lb) + samples_items(ss, j as nat + 1, lb));
            push_sample(&mut nal_units, &mut last_sps, &mut last_pps, sample, length_bits, Ghost(samples_items(ss, j as nat + 1, lb)))?;
            j = j + 1;
        }
        proof {
            assert(nal_datas_view(nal_units@) + Seq::<NalDataView>::empty() =~= nal_datas_view(nal_units@));
        }
        Ok(Processor { nal_units })
    }
}

/// The byte strings of a list.
pub open spec fn nalus_view(v: Seq<Vec<u8>>) -> Seq<Seq<u8>> {
    v.map_values(|b: Vec<u8>| b@)
}

/// The last `ls` bytes of `v` in big-endian order.
pub open spec fn be_prefix(v: u32, ls: nat) -> Seq<u8> {
    seq![(v / 0x100_0000) as u8, ((v / 0x1_0000) % 256) as u8, ((v / 0x100) % 256) as u8, (v % 256) as u8].subrange(
        4 - ls,
        4,
    )
}

/// What writing length-prefixed NAL units builds: the sample bytes, the
/// SPS and PPS byte strings, and the profile, compatibility and level
/// bytes.
pub type AvccOut = (Seq<u8>, Seq<Seq<u8>>, Seq<Seq<u8>>, u8, u8, u8);

/// Writing one NAL unit for an `avcC` stream: an SPS goes to the SPS list
/// and gives its profile, constraint flags and level; a PPS goes to the
/// PPS list; any other written unit goes to the samples after its length
/// in `ls` bytes (the length kept to 32 bits).
pub open spec fn avcc_step(n: NalDataView, st: LastSets, ls: nat, a: AvccOut) -> AvccOut {
    match serialize_step(n, st).0 {
        None => a,
        Some(b) => match n {
            NalDataView::Sps(_, _, v) => (a.0, a.1.push(b), a.2, v.profile_idc, v.constraint_flags, v.level_idc),
            NalDataView::Pps(..) => (a.0, a.1, a.2.push(b), a.3, a.4, a.5),
            _ => (a.0 + be_prefix(b.len() as u32, ls) + b, a.1, a.2, a.3, a.4, a.5),
        },
    }
}

/// Writing NAL units `k..` for an `avcC` stream.
pub open spec fn avcc_from(ns: Seq<NalDataView>, k: nat, st: LastSets, ls: nat, a: AvccOut) -> AvccOut
    decreases ns.len() - k,
{
    if k >= ns.len() {
        a
    } else {
        avcc_from(ns, k + 1, serialize_step(ns[k as int], st).1, ls, avcc_step(ns[k as int], st, ls, a))
    }
}

/// Whether two optional extensions hold the same fields and NAL units.
pub open spec fn same_extension(a: Option<Extension>, b: Option<Extension>) -> bool {
    match (a, b) {
        (None, None) => true,
        (Some(x), Some(y)) => x.chroma_format == y.chroma_format && x.bit_depth_luma_minus8 == y.bit_depth_luma_minus8
            && x.bit_depth_chroma_minus8 == y.bit_depth_chroma_minus8 && nalus_view(x.sps_ext_nalus@) == nalus_view(y.sps_ext_nalus@),
        _ => false,
    }
}

/// A copy of a list of byte strings.
fn copy_nalus(v: &Vec<Vec<u8>>) -> (r: Vec<Vec<u8>>)
    ensures
        nalus_view(r@) == nalus_view(v@),
{
    let mut r: Vec<Vec<u8>> = Vec::new();
    let mut i: usize = 0;
    while i < v.len()
        invariant
            i <= v@.len(),
            nalus_view(r@) == nalus_view(v@.subrange(0, i as int)),
        decreases v@.len() - i,
    {
        let b = copy_all(v[i].as_slice());
        let ghost r0 = r@;
        r.push(b);
        assert(r@ == r0.push(b));
        assert(nalus_view(r@) =~= nalus_view(r0).push(b@));
        assert(nalus_view(v@.subrange(0, i + 1)) =~= nalus_view(v@.subrange(0, i as int)).push(v@[i as int]@));
        i = i + 1;
    }
    assert(v@.subrange(0, v@.len() as int) =~= v@);
    r
}

/// A copy of an optional extension.
fn copy_extension(e: &Option<Extension>) -> (r: Option<Extension>)
    ensures
        same_extension(r, *e),
{
    match e {
        Some(x) => Some(Extension {
            chroma_format: x.chroma_format,
            bit_depth_luma_minus8: x.bit_depth_luma_minus8,
            bit_depth_chroma_minus8: x.bit_depth_chroma_minus8,
            sps_ext_nalus: copy_nalus(&x.sps_ext_nalus),
        }),
        None => None,
    }
}

/// The last `ls` bytes of `v`, big-endian.
fn be_prefix_bytes(v: u32, ls: usize) -> (r: Vec<u8>)
    requires
        1 <= ls <= 4,
    ensures
        r@ == be_prefix(v, ls as nat),
{
    let all: Vec<u8> = vec![(v / 0x100_0000) as u8, ((v / 0x1_0000) % 256) as u8, ((v / 0x100) % 256) as u8, (v % 256) as u8];
    let r = copy_range(all.as_slice(), 4 - ls, 4);
    r
}

impl Processor {
    /// Write the NAL units as length-prefixed samples and an `avcC` record
    /// made from `base`: SPSs and PPSs go to the record (the last SPS
    /// giving its profile, constraint flags and level), every other
    /// written unit to the samples after its length in
    /// `length_size_minus_one + 1` bytes.
    pub fn to_avcc(&self, base: &AvccConfig) -> (r: Result<(Vec<u8>, AvccConfig), Error>)
        requires
            writable_from(nal_datas_view(self.nal_units@), 0, (None, None)),
            base.length_size_minus_one <= 3,
        ensures
            r matches Ok((buf, cfg)) && {
                let a = avcc_from(
                    nal_datas_view(self.nal_units@),
                    0,
                    (None, None),
                    base.length_size_minus_one as nat + 1,
                    (Seq::empty(), Seq::empty(), Seq::empty(), base.avc_profile_indication, base.profile_compatibility, base.avc_level_indication),
                );
                &&& buf@ == a.0
                &&& nalus_view(cfg.sps_nalus@) == a.1
                &&& nalus_view(cfg.pps_nalus@) == a.2
                &&& cfg.avc_profile_indication == a.3
                &&& cfg.profile_compatibility == a.4
                &&& cfg.avc_level_indication == a.5
                &&& cfg.configuration_version == base.configuration_version
                &&& cfg.length_size_minus_one == base.length_size_minus_one
                &&& same_extension(cfg.extension, base.extension)
            },
    {
        let ghost ns = nal_datas_view(self.nal_units@);
        let ghost ls = base.length_size_minus_one as nat + 1;
        let ghost a0: AvccOut = (Seq::empty(), Seq::empty(), Seq::empty(), base.avc_profile_indication, base.profile_compatibility, base.avc_level_indication);
        let mut config = AvccConfig {
            configuration_version: base.configuration_version,
            avc_profile_indication: base.avc_profile_indication,
            profile_compatibility: base.profile_compatibility,
            avc_level_indication: base.avc_level_indication,
            length_size_minus_one: base.length_size_minus_one,
            sps_nalus: Vec::new(),
            pps_nalus: Vec::new(),
            extension: copy_extension(&base.extension),
        };
        let length_size = config.nal_length_size();
        let mut buf: Vec<u8> = Vec::new();
        let mut last_sps: Option<usize> = None;
        let mut last_pps: Option<usize> = None;
        let mut i: usize = 0;
        assert(nalus_view(config.sps_nalus@) =~= Seq::<Seq<u8>>::empty());
        assert(nalus_view(config.pps_nalus@) =~= Seq::<Seq<u8>>::empty());
        while i < self.nal_units.len()
            invariant
                i <= self.nal_units@.len(),
                ns == nal_datas_view(self.nal_units@),
                length_size as nat == ls,
                1 <= ls <= 4,
                last_ok(self.nal_units@, last_sps, last_pps),
                writable_from(ns, i as nat, last_sets(self.nal_units@, last_sps, last_pps)),
                avcc_from(ns, 0, (None, None), ls, a0) == avcc_from(
                    ns,
                    i as nat,
                    last_sets(self.nal_units@, last_sps, last_pps),
                    ls,
                    (buf@, nalus_view(config.sps_nalus@), nalus_view(config.pps_nalus@), config.avc_profile_indication,
                        config.profile_compatibility, config.avc_level_indication),
                ),
                config.configuration_version == base.configuration_version,
                config.length_size_minus_one == base.length_size_minus_one,
                same_extension(config.extension, base.extension),
            decreases self.nal_units@.len() - i,
        {
            let ghost st = last_sets(self.nal_units@, last_sps, last_pps);
            assert(ns[i as int] == self.nal_units@[i as int]@);
            let out = serialize_nal(&self.nal_units, i, &mut last_sps, &mut last_pps)?;
            if let Some(bytes) = out {
                match &self.nal_units[i] {
                    NalData::Sps(_, _, sps) => {
                        config.avc_profile_indication = sps.profile_idc;
                        config.profile_compatibility = sps.constraint_flags;
                        config.avc_level_indication = sps.level_idc;
                        let ghost before = config.sps_nalus@;
                        config.sps_nalus.push(bytes);
                        assert(nalus_view(config.sps_nalus@) =~= nalus_view(before).push(config.sps_nalus@.last()@));
                    },
                    NalData::Pps(..) => {
                        let ghost before = config.pps_nalus@;
                        config.pps_nalus.push(bytes);
                        assert(nalus_view(config.pps_nalus@) =~= nalus_view(before).push(config.pps_nalus@.last()@));
                    },
                    _ => {
                        let prefix = be_prefix_bytes(bytes.len() as u32, length_size);
                        extend(&mut buf, prefix.as_slice());
                        extend(&mut buf, bytes.as_slice());
                    },
                }
            }
            i = i + 1;
        }
        Ok((buf, config))
    }
}

/// The Annex B bytes of entries `k..` (start code, header, payload), in
/// order.
pub open spec fn entries_bytes(ms: Seq<(StartCode, Header, Seq<u8>)>, k: nat) -> Seq<u8>
    decreases ms.len() - k,
{
    if k >= ms.len() {
        Seq::empty()
    } else {
        annex_b_bytes(ms[k as int].0, ms[k as int].1, ms[k as int].2) + entries_bytes(ms, k + 1)
    }
}

/// Each of the NAL data `w`, written with the parameter sets in effect
/// at it, gives back the header byte and payload of its entry of `ms`
/// (entries from `k` on).
pub open spec fn units_write_back(ms: Seq<(StartCode, Header, Seq<u8>)>, k: nat, w: Seq<NalDataView>, st: LastSets) -> bool
    decreases ms.len() - k,
{
    k >= ms.len() || (w.len() > 0 && serialize_step(w[0], st).0 == Some(seq![header_byte(ms[k as int].1)] + ms[k as int].2)
        && units_write_back(ms, k + 1, w.drop_first(), serialize_step(w[0], st).1))
}

/// The entries of a stream, written back, are the stream from the start
/// code of entry `k` on.
proof fn lemma_entries_bytes(d: Seq<u8>, k: nat)
    requires
        k < start_codes(d).len(),
        parse_all_from(d, start_codes(d), k) is Ok,
    ensures
        entries_bytes(parse_all_from(d, start_codes(d), k)->Ok_0, 0) == d.subrange(start_codes(d)[k as int] as int, d.len() as int),
    decreases start_codes(d).len() - k,
{
    let pos = start_codes(d);
    lemma_start_codes_from(d, 0);
    let seg = segment(d, pos, k as int);
    lemma_annex_b_roundtrip(seg);
    let x = parse_annex_b_spec(seg)->Ok_0;
    let ms = parse_all_from(d, pos, k)->Ok_0;
    let rest = parse_all_from(d, pos, k + 1)->Ok_0;
    assert(ms == seq![x] + rest);
    lemma_entries_shift(x, rest, 0);
    if k + 1 < pos.len() {
        lemma_entries_bytes(d, k + 1);
        assert(pos[k as int] < pos[(k + 1) as int]);
        assert(d.subrange(pos[k as int] as int, d.len() as int) =~= seg + d.subrange(pos[(k + 1) as int] as int, d.len() as int));
    } else {
        assert(entries_bytes(rest, 0) =~= Seq::<u8>::empty());
        assert(seg + Seq::<u8>::empty() =~= seg);
    }
}

/// Entries after a first one are written as on their own.
proof fn lemma_entries_shift(x: (StartCode, Header, Seq<u8>), rest: Seq<(StartCode, Header, Seq<u8>)>, i: nat)
    ensures
        entries_bytes(seq![x] + rest, i + 1) == entries_bytes(rest, i),
    decreases rest.len() - i,
{
    let ms = seq![x] + rest;
    if i < rest.len() {
        assert(ms[(i + 1) as int] == rest[i as int]);
        lemma_entries_shift(x, rest, i + 1);
    }
}

/// Units after a first one are written as on their own.
proof fn lemma_annex_b_shift(x: NalDataView, rest: Seq<NalDataView>, i: nat, st: LastSets)
    ensures
        annex_b_from(seq![x] + rest, i + 1, st) == annex_b_from(rest, i, st),
    decreases rest.len() - i,
{
    let ns = seq![x] + rest;
    if i < rest.len() {
        assert(ns[(i + 1) as int] == rest[i as int]);
        lemma_annex_b_shift(x, rest, i + 1, serialize_step(rest[i as int], st).1);
    }
}

/// Writing what was read from entries `k..` gives their bytes back where
/// each unit writes back its own header byte and payload.
proof fn lemma_units_roundtrip(ms: Seq<(StartCode, Header, Seq<u8>)>, k: nat, st: LastSets)
    requires
        push_all_from(ms, k, st) is Ok,
        units_write_back(ms, k, push_all_from(ms, k, st)->Ok_0, st),
    ensures
        annex_b_from(push_all_from(ms, k, st)->Ok_0, 0, st) == entries_bytes(ms, k),
    decreases ms.len() - k,
{
    let w = push_all_from(ms, k, st)->Ok_0;
    if k < ms.len() {
        let m = ms[k as int];
        let (x, next) = push_step(m.0, m.1, m.2, st)->Ok_0;
        lemma_step_next(m.0, m.1, m.2, st);
        lemma_serialize_next(x, st);
        let rest = push_all_from(ms, k + 1, next)->Ok_0;
        assert(w == seq![x] + rest);
        assert(w.drop_first() =~= rest);
        assert(serialize_step(x, st).1 == next);
        lemma_units_roundtrip(ms, k + 1, next);
        lemma_annex_b_shift(x, rest, 0, next);
    } else {
        assert(w =~= Seq::<NalDataView>::empty());
    }
}

/// Writing back what was read from an Annex B stream gives the stream
/// back from its first start code on, wherever each NAL unit, written
/// with the parameter sets in effect at it, gives back its own header
/// byte and payload (as every unit kept as bytes does).
pub proof fn lemma_annex_b_processor_roundtrip(d: Seq<u8>)
    requires
        start_codes(d).len() > 0,
        parse_all_from(d, start_codes(d), 0) is Ok,
        push_all_from(parse_all_from(d, start_codes(d), 0)->Ok_0, 0, (None, None)) is Ok,
        units_write_back(
            parse_all_from(d, start_codes(d), 0)->Ok_0,
            0,
            push_all_from(parse_all_from(d, start_codes(d), 0)->Ok_0, 0, (None, None))->Ok_0,
            (None, None),
        ),
    ensures
        annex_b_from(push_all_from(parse_all_from(d, start_codes(d), 0)->Ok_0, 0, (None, None))->Ok_0, 0, (None, None))
            == d.subrange(start_codes(d)[0] as int, d.len() as int),
{
    let ms = parse_all_from(d, start_codes(d), 0)->Ok_0;
    lemma_units_roundtrip(ms, 0, (None, None));
    lemma_entries_bytes(d, 0);
}

/// The `nal_ref_idc`, type and bytes of NAL data kept as bytes.
pub open spec fn kept_parts(x: NalDataView) -> (u8, NalUnitType, Seq<u8>) {
    match x {
        NalDataView::Unspecified(_, nri, t, b) => (nri, t, b),
        NalDataView::PrefixNalUnit(_, nri, t, b) => (nri, t, b),
        NalDataView::SubsetSps(_, nri, t, b) => (nri, t, b),
        NalDataView::Dps(_, nri, t, b) => (nri, t, b),
        NalDataView::Reserved(_, nri, t, b) => (nri, t, b),
        NalDataView::Aux(_, nri, t, b) => (nri, t, b),
        NalDataView::SliceExt(_, nri, t, b) => (nri, t, b),
        NalDataView::DepthExt(_, nri, t, b) => (nri, t, b),
        NalDataView::Unknown(_, nri, t, b) => (nri, t, b),
        NalDataView::Raw(_, nri, t, b) => (nri, t, b),
        _ => (0, NalUnitType::Unspecified(0), Seq::empty()),
    }
}

/// NAL data kept as bytes is written as its header byte and bytes.
proof fn lemma_serialize_kept(x: NalDataView, st: LastSets)
    requires
        kept_as_bytes(x),
    ensures
        serialize_step(x, st).0 == Some(seq![hb(kept_parts(x).0, kept_parts(x).1)] + kept_parts(x).2),
{
    reveal(serialize_step);
}

/// A step that keeps a unit as bytes keeps its header and payload.
proof fn lemma_kept_parts(sc: StartCode, h: Header, payload: Seq<u8>, st: LastSets)
    requires
        push_step(sc, h, payload, st) is Ok,
        kept_as_bytes(push_step(sc, h, payload, st)->Ok_0.0),
    ensures
        kept_parts(push_step(sc, h, payload, st)->Ok_0.0) == (h.nal_ref_idc, h.nal_unit_type, payload),
{
    reveal(push_step);
    match h.nal_unit_type {
        NalUnitType::SliceA => {
            reveal(slice_a_step);
        },
        NalUnitType::SliceC => {
            reveal(slice_c_step);
        },
        NalUnitType::SEI => {
            reveal(sei_step);
        },
        NalUnitType::SPS => {
            reveal(sps_step);
        },
        NalUnitType::PPS => {
            reveal(pps_step);
        },
        NalUnitType::AUD | NalUnitType::SPSExt | NalUnitType::FillerData => {
            reveal(small_step);
        },
        _ => {},
    }
}

/// A unit kept as bytes writes back its own header byte and payload,
/// whatever parameter sets are in effect.
pub proof fn lemma_kept_unit_writes_back(sc: StartCode, h: Header, payload: Seq<u8>, st: LastSets, wst: LastSets)
    requires
        push_step(sc, h, payload, st) is Ok,
        kept_as_bytes(push_step(sc, h, payload, st)->Ok_0.0),
    ensures
        serialize_step(push_step(sc, h, payload, st)->Ok_0.0, wst).0 == Some(seq![header_byte(h)] + payload),
{
    let x = push_step(sc, h, payload, st)->Ok_0.0;
    lemma_kept_parts(sc, h, payload, st);
    lemma_serialize_kept(x, wst);
    assert(Header { nal_ref_idc: h.nal_ref_idc, nal_unit_type: h.nal_unit_type } == h);
}

/// NAL data that holds the payload bytes as they came.
pub open spec fn kept_as_bytes(x: NalDataView) -> bool {
    x is Unspecified || x is PrefixNalUnit || x is SubsetSps || x is Dps || x is Reserved || x is Aux || x is SliceExt
        || x is DepthExt || x is Unknown || x is Raw
}

} // verus!
