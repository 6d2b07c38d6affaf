//! A processor for the H.264 Annex B payload of one PES packet: sequence
//! and picture parameter sets are parsed (a PPS only once an SPS has been
//! seen); every other NAL unit is kept as its bytes.

use vstd::prelude::*;
use crate::bitstream::{bytes_bits, bits_bytes, lemma_bits_bytes};
use crate::bytes::extend;
use crate::h264::annex_b::{AnnexB, StartCode, parse_all, parse_all_from, start_codes, start_code_bytes, annex_b_is};
use crate::h264::error::Error;
use crate::h264::nal::{Header, NalUnit, NalUnitType, header_byte, remove_epb_spec, attach_epb_spec};
use crate::h264::pps::{Pps, PpsView, pps_parse_spec, pps_bits, pps_writable};
use crate::h264::sps::{Sps, SpsView, sps_parse_spec, sps_bits, sps_writable};
use crate::h264::syntax::rbsp_bits;

verus! {

/// One NAL unit of the payload: start code, `nal_ref_idc`, and either a
/// parsed parameter set or the type and the bytes after the header.
#[derive(Debug)]
pub enum NalData {
    Sps(StartCode, u8, Box<Sps>),
    Pps(StartCode, u8, Box<Pps>),
    Raw(StartCode, u8, NalUnitType, Vec<u8>),
}

/// Model of `NalData`.
pub enum NalDataView {
    Sps(StartCode, u8, SpsView),
    Pps(StartCode, u8, PpsView),
    Raw(StartCode, u8, NalUnitType, Seq<u8>),
}

impl View for NalData {
    type V = NalDataView;

    open spec fn view(&self) -> NalDataView {
        match self {
            NalData::Sps(sc, nri, s) => NalDataView::Sps(*sc, *nri, s@),
            NalData::Pps(sc, nri, p) => NalDataView::Pps(*sc, *nri, p@),
            NalData::Raw(sc, nri, t, rbsp) => NalDataView::Raw(*sc, *nri, *t, rbsp@),
        }
    }
}

/// The NAL units of one PES payload.
#[derive(Debug)]
pub struct Processor {
    pub nal_units: Vec<NalData>,
}

/// The model of a list of NAL units.
pub open spec fn nal_datas_view(v: Seq<NalData>) -> Seq<NalDataView> {
    v.map_values(|n: NalData| n@)
}

/// The chroma format of an SPS model, as a PPS parse needs it.
pub open spec fn sps_view_chroma(v: SpsView) -> Option<u8> {
    match v.high_profile {
        Some(h) => Some(h.chroma_format_idc),
        None => None,
    }
}

/// `x` followed by the items of a result.
pub open spec fn prepend_one(x: NalDataView, r: Result<Seq<NalDataView>, Error>) -> Result<Seq<NalDataView>, Error> {
    match r {
        Ok(rest) => Ok(seq![x] + rest),
        Err(e) => Err(e),
    }
}

/// `pre` followed by the items of a result.
pub open spec fn prepend_all(pre: Seq<NalDataView>, r: Result<Seq<NalDataView>, Error>) -> Result<Seq<NalDataView>, Error> {
    match r {
        Ok(rest) => Ok(pre + rest),
        Err(e) => Err(e),
    }
}

/// Turning one Annex B entry into NAL data, given the chroma format of the
/// last SPS seen (`last`, `None` when none was): an SPS is parsed from its
/// payload without emulation prevention bytes and becomes the last SPS; so
/// is a PPS parsed once an SPS was seen; an unknown NAL unit type is
/// refused; anything else is kept as it came.
#[verifier::opaque]
pub open spec fn nal_data_step(m: (StartCode, Header, Seq<u8>), last: Option<Option<u8>>) -> Result<(NalDataView, Option<Option<u8>>), Error> {
    let sc = m.0;
    let nri = m.1.nal_ref_idc;
    let t = m.1.nal_unit_type;
    let payload = m.2;
    match t {
        NalUnitType::SPS => match sps_parse_spec(bytes_bits(remove_epb_spec(payload))) {
            Err(e) => Err(e),
            Ok(v) => Ok((NalDataView::Sps(sc, nri, v), Some(sps_view_chroma(v)))),
        },
        NalUnitType::PPS => match last {
            Some(c) => match pps_parse_spec(remove_epb_spec(payload), c) {
                Err(e) => Err(e),
                Ok(v) => Ok((NalDataView::Pps(sc, nri, v), last)),
            },
            None => Ok((NalDataView::Raw(sc, nri, t, payload), last)),
        },
        NalUnitType::Unknown(v) => Err(Error::InvalidNalUnitType(v)),
        _ => Ok((NalDataView::Raw(sc, nri, t, payload), last)),
    }
}

/// Turning entries `k..` of an Annex B stream into NAL data, one step each,
/// stopping at the first error.
pub open spec fn nal_datas_from(ms: Seq<(StartCode, Header, Seq<u8>)>, k: nat, last: Option<Option<u8>>) -> Result<Seq<NalDataView>, Error>
    decreases ms.len() - k,
{
    if k >= ms.len() {
        Ok(Seq::empty())
    } else {
        match nal_data_step(ms[k as int], last) {
            Err(e) => Err(e),
            Ok((x, next)) => prepend_one(x, nal_datas_from(ms, k + 1, next)),
        }
    }
}

/// Parsing a PES payload: its Annex B entries, turned into NAL data.
pub open spec fn processor_parse_spec(d: Seq<u8>) -> Result<Seq<NalDataView>, Error> {
    match parse_all_from(d, start_codes(d), 0) {
        Err(e) => Err(e),
        Ok(ms) => nal_datas_from(ms, 0, None),
    }
}

/// The bytes of one NAL unit: start code, header byte, and the payload
/// (a parameter set written with its stop bit and padding, and emulation
/// prevention bytes inserted; raw bytes as kept).
pub open spec fn nal_data_bytes(n: NalDataView) -> Seq<u8> {
    match n {
        NalDataView::Sps(sc, nri, v) => start_code_bytes(sc)
            + seq![header_byte(Header { nal_ref_idc: nri, nal_unit_type: NalUnitType::SPS })]
            + attach_epb_spec(bits_bytes(rbsp_bits(sps_bits(v)))),
        NalDataView::Pps(sc, nri, v) => start_code_bytes(sc)
            + seq![header_byte(Header { nal_ref_idc: nri, nal_unit_type: NalUnitType::PPS })]
            + attach_epb_spec(bits_bytes(rbsp_bits(pps_bits(v)))),
        NalDataView::Raw(sc, nri, t, rbsp) => start_code_bytes(sc)
            + seq![header_byte(Header { nal_ref_idc: nri, nal_unit_type: t })] + rbsp,
    }
}

/// The bytes of NAL units, in order.
pub open spec fn nal_datas_bytes(ns: Seq<NalDataView>) -> Seq<u8>
    decreases ns.len(),
{
    if ns.len() == 0 {
        Seq::empty()
    } else {
        nal_datas_bytes(ns.drop_last()) + nal_data_bytes(ns.last())
    }
}

/// Every parameter set can be written.
pub open spec fn nal_data_writable(n: NalDataView) -> bool {
    match n {
        NalDataView::Sps(_, _, v) => sps_writable(v),
        NalDataView::Pps(_, _, v) => pps_writable(v),
        NalDataView::Raw(..) => true,
    }
}

/// The bytes of one NAL unit.
fn nal_data_to_bytes(n: &NalData) -> (r: Vec<u8>)
    requires
        nal_data_writable(n@),
    ensures
        r@ == nal_data_bytes(n@),
{
    match n {
        NalData::Sps(sc, nri, sps) => {
            let mut buf = sc.as_bytes();
            buf.push((*nri << 5) | NalUnitType::SPS.to_u8());
            let body = sps.to_bytes();
            proof {
                lemma_bits_bytes(body@);
            }
            let e = NalUnit::attach_emulation_prevention_bytes(body.as_slice());
            extend(&mut buf, e.as_slice());
            buf
        },
        NalData::Pps(sc, nri, pps) => {
            let mut buf = sc.as_bytes();
            buf.push((*nri << 5) | NalUnitType::PPS.to_u8());
            let body = pps.to_bytes();
            proof {
                lemma_bits_bytes(body@);
            }
            let e = NalUnit::attach_emulation_prevention_bytes(body.as_slice());
            extend(&mut buf, e.as_slice());
            buf
        },
        NalData::Raw(sc, nri, t, rbsp) => {
            let mut buf = sc.as_bytes();
            buf.push((*nri << 5) | t.to_u8());
            extend(&mut buf, rbsp.as_slice());
            buf
        },
    }
}

impl Processor {
    /// Write the NAL units back as an Annex B byte stream.
    pub fn to_bytes(&self) -> (r: Vec<u8>)
        requires
            forall|k: int| 0 <= k < self.nal_units@.len() ==> nal_data_writable(#[trigger] self.nal_units@[k]@),
        ensures
            r@ == nal_datas_bytes(nal_datas_view(self.nal_units@)),
    {
        let ghost v = nal_datas_view(self.nal_units@);
        let mut buf: Vec<u8> = Vec::new();
        let mut i: usize = 0;
        while i < self.nal_units.len()
            invariant
                i <= self.nal_units@.len(),
                v == nal_datas_view(self.nal_units@),
                forall|k: int| 0 <= k < self.nal_units@.len() ==> nal_data_writable(#[trigger] self.nal_units@[k]@),
                buf@ == nal_datas_bytes(v.subrange(0, i as int)),
            decreases self.nal_units@.len() - i,
        {
            let b = nal_data_to_bytes(&self.nal_units[i]);
            extend(&mut buf, b.as_slice());
            proof {
                assert(v.subrange(0, i + 1).drop_last() =~= v.subrange(0, i as int));
                assert(v.subrange(0, i + 1).last() == self.nal_units@[i as int]@);
            }
            i = i + 1;
        }
        assert(v.subrange(0, v.len() as int) =~= v);
        buf
    }
}

/// The step from a prefix of NAL data to the next one.
proof fn lemma_push_view(out: Seq<NalData>, x: NalData, r: Result<Seq<NalDataView>, Error>)
    ensures
        prepend_all(nal_datas_view(out), prepend_one(x@, r)) == prepend_all(nal_datas_view(out.push(x)), r),
{
    assert(nal_datas_view(out.push(x)) =~= nal_datas_view(out).push(x@));
    match r {
        Ok(rest) => {
            assert(nal_datas_view(out) + (seq![x@] + rest) =~= nal_datas_view(out).push(x@) + rest);
        },
        Err(_) => {},
    }
}

/// A step records the chroma format of an SPS that it parses and keeps the
/// last one otherwise.
proof fn lemma_step_next(m: (StartCode, Header, Seq<u8>), last: Option<Option<u8>>)
    ensures
        nal_data_step(m, last) matches Ok((x, next)) ==> match x {
            NalDataView::Sps(_, _, v) => next == Some(sps_view_chroma(v)),
            _ => next == last,
        },
{
    reveal(nal_data_step);
}

/// The chroma format of the SPS that `last_sps` points to, if any.
pub open spec fn last_chroma(units: Seq<NalData>, last_sps: Option<usize>) -> Option<Option<u8>> {
    match last_sps {
        Some(j) => match units[j as int] {
            NalData::Sps(_, _, s) => Some(sps_view_chroma(s@)),
            _ => None,
        },
        None => None,
    }
}

/// Turn one Annex B entry into NAL data, with the last SPS at `last_sps`.
fn nal_data_of(ab: &AnnexB, units: &Vec<NalData>, last_sps: Option<usize>) -> (r: Result<NalData, Error>)
    requires
        ab.nal_unit.rbsp@.len() * 8 <= usize::MAX,
        last_sps matches Some(j) ==> j < units@.len() && units@[j as int] is Sps,
    ensures
        match nal_data_step((ab.start_code, ab.nal_unit.header, ab.nal_unit.rbsp@), last_chroma(units@, last_sps)) {
            Ok((x, _)) => r matches Ok(n) && n@ == x,
            Err(e) => r matches Err(y) && y == e,
        },
{
    reveal(nal_data_step);
    let sc = ab.start_code;
    let nri = ab.nal_unit.header.nal_ref_idc;
    let t = ab.nal_unit.header.nal_unit_type;
    match t {
        NalUnitType::SPS => {
            let rbsp = NalUnit::remove_emulation_prevention_bytes(ab.nal_unit.rbsp.as_slice());
            let sps = Sps::parse(rbsp.as_slice())?;
            Ok(NalData::Sps(sc, nri, Box::new(sps)))
        },
        NalUnitType::PPS => {
            match last_sps {
                Some(j) => {
                    let rbsp = NalUnit::remove_emulation_prevention_bytes(ab.nal_unit.rbsp.as_slice());
                    if let NalData::Sps(_, _, s) = &units[j] {
                        let pps = Pps::parse(rbsp.as_slice(), s)?;
                        Ok(NalData::Pps(sc, nri, Box::new(pps)))
                    } else {
                        Err(Error::DataTooShort)
                    }
                },
                None => {
                    let raw = crate::bytes::copy_range(ab.nal_unit.rbsp.as_slice(), 0, ab.nal_unit.rbsp.len());
                    assert(ab.nal_unit.rbsp@.subrange(0, ab.nal_unit.rbsp@.len() as int) =~= ab.nal_unit.rbsp@);
                    Ok(NalData::Raw(sc, nri, t, raw))
                },
            }
        },
        NalUnitType::Unknown(v) => Err(Error::InvalidNalUnitType(v)),
        _ => {
            let raw = crate::bytes::copy_range(ab.nal_unit.rbsp.as_slice(), 0, ab.nal_unit.rbsp.len());
            assert(ab.nal_unit.rbsp@.subrange(0, ab.nal_unit.rbsp@.len() as int) =~= ab.nal_unit.rbsp@);
            Ok(NalData::Raw(sc, nri, t, raw))
        },
    }
}

impl Processor {
    /// Parse the Annex B payload of one PES packet.
    pub fn parse(pes_payload: &[u8]) -> (r: Result<Self, Error>)
        requires
            pes_payload@.len() * 8 <= usize::MAX,
        ensures
            match processor_parse_spec(pes_payload@) {
                Ok(v) => r matches Ok(p) && nal_datas_view(p.nal_units@) == v,
                Err(e) => r matches Err(x) && x == e,
            },
    {
        let annex_b_list = parse_all(pes_payload)?;
        let ghost ms = parse_all_from(pes_payload@, start_codes(pes_payload@), 0)->Ok_0;
        let mut nal_units: Vec<NalData> = Vec::new();
        let mut last_sps: Option<usize> = None;
        let mut i: usize = 0;
        proof {
            match nal_datas_from(ms, 0, None) {
                Ok(v) => { assert(nal_datas_view(nal_units@) + v =~= v); },
                Err(_) => {},
            }
        }
        while i < annex_b_list.len()
            invariant
                i <= annex_b_list@.len(),
                pes_payload@.len() * 8 <= usize::MAX,
                parse_all_from(pes_payload@, start_codes(pes_payload@), 0) == Ok::<Seq<(StartCode, Header, Seq<u8>)>, Error>(ms),
                ms.len() == annex_b_list@.len(),
                forall|k: int| 0 <= k < ms.len() ==> annex_b_is(#[trigger] annex_b_list@[k], ms[k]),
                forall|k: int| 0 <= k < annex_b_list@.len() ==> (#[trigger] annex_b_list@[k]).nal_unit.rbsp@.len() <= pes_payload@.len(),
                nal_datas_from(ms, 0, None) == prepend_all(nal_datas_view(nal_units@), nal_datas_from(ms, i as nat, last_chroma(nal_units@, last_sps))),
                last_sps matches Some(j) ==> j < nal_units@.len() && nal_units@[j as int] is Sps,
            decreases annex_b_list@.len() - i,
        {
            let ab = &annex_b_list[i];
            assert(annex_b_is(annex_b_list@[i as int], ms[i as int]));
            assert(ab.nal_unit.rbsp@.len() <= pes_payload@.len());
            let ghost before = nal_units@;
            let ghost m = ms[i as int];
            assert(m == (ab.start_code, ab.nal_unit.header, ab.nal_unit.rbsp@));
            let ghost lc = last_chroma(before, last_sps);
            let x = match nal_data_of(ab, &nal_units, last_sps) {
                Ok(x) => x,
                Err(e) => {
                    assert(nal_datas_from(ms, i as nat, lc) == Err::<Seq<NalDataView>, Error>(e));
                    return Err(e);
                },
            };
            proof {
                lemma_step_next(m, lc);
            }
            let is_sps = match &x {
                NalData::Sps(..) => true,
                _ => false,
            };
            let ghost next = nal_data_step(m, last_chroma(before, last_sps))->Ok_0.1;
            proof {
                lemma_push_view(before, x, nal_datas_from(ms, i as nat + 1, next));
            }
            nal_units.push(x);
            if is_sps {
                last_sps = Some(nal_units.len() - 1);
            }
            proof {
                assert(nal_units@[nal_units@.len() - 1] == x);
                if let Some(j) = last_sps {
                    if !is_sps {
                        assert(nal_units@[j as int] == before[j as int]);
                    }
                }
                assert(last_chroma(nal_units@, last_sps) == next);
            }
            i = i + 1;
        }
        proof {
            assert(nal_datas_view(nal_units@) + Seq::<NalDataView>::empty() =~= nal_datas_view(nal_units@));
        }
        Ok(Processor { nal_units })
    }
}

} // verus!
