//! H.265 (HEVC) NAL unit layer: Annex B framing, two-byte NAL headers,
//! emulation prevention, access unit delimiters, and per-type payload
//! dispatch.

pub mod error;
pub mod nal;
pub mod annex_b;
pub mod aud;

use vstd::prelude::*;
use crate::bytes::extend;
use crate::h265::annex_b::{AnnexB, StartCode, parse_all_from, parse_all};
use crate::h264::annex_b::{start_code_bytes, start_codes};
use crate::h265::aud::{Aud, PicType, aud_parse_spec, aud_byte};
use crate::h265::error::Error;
use crate::h265::nal::{
    Header, NalUnit, NalUnitType, header_bytes, header_parse_spec, insert_epb_spec,
    remove_emulation_prevention_bytes, insert_emulation_prevention_bytes,
};
use crate::h264::nal::remove_epb_spec;

verus! {

/// Structured payload of a NAL unit, chosen by its `nal_unit_type`.
#[derive(Debug)]
pub enum NalPayload {
    Aud(Aud),
    Unknown(Vec<u8>),
}

/// Parsing a payload: an access unit delimiter (after removing emulation
/// prevention bytes) gives its picture type; any other type is kept as
/// bytes (`None`).
pub open spec fn payload_parse_spec(t: NalUnitType, payload: Seq<u8>) -> Result<Option<PicType>, Error> {
    match t {
        NalUnitType::AudNut => match aud_parse_spec(remove_epb_spec(payload)) {
            Ok(pt) => Ok(Some(pt)),
            Err(e) => Err(e),
        },
        _ => Ok(None),
    }
}

/// A payload holds the parse of the bytes `payload` of a unit of type `t`.
pub open spec fn payload_is(p: NalPayload, t: NalUnitType, payload: Seq<u8>) -> bool {
    match payload_parse_spec(t, payload) {
        Ok(Some(pt)) => p matches NalPayload::Aud(a) && a.pic_type == pt,
        Ok(None) => p matches NalPayload::Unknown(v) && v@ == payload,
        Err(_) => false,
    }
}

/// The bytes of a payload: an AUD's byte with emulation prevention bytes
/// inserted, or the kept bytes.
pub open spec fn payload_bytes(p: NalPayload) -> Seq<u8> {
    match p {
        NalPayload::Aud(a) => insert_epb_spec(seq![aud_byte(a.pic_type)]),
        NalPayload::Unknown(v) => v@,
    }
}

/// The payload bytes of an access unit delimiter parse back to it.
pub proof fn lemma_aud_payload_roundtrip(t: PicType)
    ensures
        payload_parse_spec(NalUnitType::AudNut, insert_epb_spec(seq![aud_byte(t)])) == Ok::<Option<PicType>, Error>(Some(t)),
{
    crate::h265::nal::lemma_insert_remove_roundtrip(seq![aud_byte(t)]);
    crate::h265::aud::lemma_aud_roundtrip(t);
}

impl NalPayload {
    /// Dispatch on the NAL unit type and parse the payload.
    pub fn parse(nal_unit_type: &NalUnitType, payload: &[u8]) -> (r: Result<Self, Error>)
        ensures
            match payload_parse_spec(*nal_unit_type, payload@) {
                Ok(_) => r matches Ok(p) && payload_is(p, *nal_unit_type, payload@),
                Err(e) => r matches Err(x) && x == e,
            },
    {
        match nal_unit_type {
            NalUnitType::AudNut => {
                let rbsp = remove_emulation_prevention_bytes(payload);
                let aud = Aud::parse(rbsp.as_slice())?;
                Ok(NalPayload::Aud(aud))
            },
            _ => {
                let v = crate::bytes::copy_range(payload, 0, payload.len());
                assert(payload@.subrange(0, payload@.len() as int) =~= payload@);
                Ok(NalPayload::Unknown(v))
            },
        }
    }

    /// Serialize the payload (emulation prevention bytes inserted again for
    /// structured payloads).
    pub fn to_bytes(&self) -> (r: Vec<u8>)
        ensures
            r@ == payload_bytes(*self),
    {
        match self {
            NalPayload::Aud(aud) => {
                let b = aud.to_bytes();
                insert_emulation_prevention_bytes(b.as_slice())
            },
            NalPayload::Unknown(raw) => {
                let v = crate::bytes::copy_range(raw.as_slice(), 0, raw.len());
                assert(raw@.subrange(0, raw@.len() as int) =~= raw@);
                v
            },
        }
    }
}

/// A parsed NAL unit: header and structured payload.
#[derive(Debug)]
pub struct NalData {
    pub header: Header,
    pub payload: NalPayload,
}

/// The bytes of a parsed NAL unit.
pub open spec fn nal_data_bytes(n: NalData) -> Seq<u8> {
    header_bytes(n.header) + payload_bytes(n.payload)
}

impl NalData {
    /// Parse one NAL unit (without start code or length prefix).
    pub fn parse(data: &[u8]) -> (r: Result<Self, Error>)
        ensures
            match header_parse_spec(data@) {
                Ok(h) => match payload_parse_spec(h.nal_unit_type, data@.subrange(2, data@.len() as int)) {
                    Ok(_) => r matches Ok(n) && n.header == h
                        && payload_is(n.payload, h.nal_unit_type, data@.subrange(2, data@.len() as int)),
                    Err(e) => r matches Err(x) && x == e,
                },
                Err(e) => r matches Err(x) && x == e,
            },
    {
        let nal = NalUnit::parse(data)?;
        let payload = NalPayload::parse(&nal.header.nal_unit_type, nal.rbsp.as_slice())?;
        Ok(NalData { header: nal.header, payload })
    }

    /// Serialize the header and payload.
    pub fn to_bytes(&self) -> (r: Vec<u8>)
        ensures
            r@ == nal_data_bytes(*self),
    {
        let mut buf = self.header.to_bytes();
        let p = self.payload.to_bytes();
        extend(&mut buf, p.as_slice());
        buf
    }
}

/// One entry of an Annex B stream: start code and parsed NAL unit.
#[derive(Debug)]
pub struct AnnexBNal {
    pub start_code: StartCode,
    pub nal: NalData,
}

/// The bytes of one entry.
pub open spec fn annex_b_nal_bytes(n: AnnexBNal) -> Seq<u8> {
    start_code_bytes(n.start_code) + nal_data_bytes(n.nal)
}

/// The bytes of entries, in order.
pub open spec fn annex_b_nals_bytes(ns: Seq<AnnexBNal>) -> Seq<u8>
    decreases ns.len(),
{
    if ns.len() == 0 {
        Seq::empty()
    } else {
        annex_b_nals_bytes(ns.drop_last()) + annex_b_nal_bytes(ns.last())
    }
}

impl AnnexBNal {
    /// Serialize the start code and the NAL unit.
    pub fn to_bytes(&self) -> (r: Vec<u8>)
        ensures
            r@ == annex_b_nal_bytes(*self),
    {
        let mut buf = self.start_code.as_bytes();
        let n = self.nal.to_bytes();
        extend(&mut buf, n.as_slice());
        buf
    }
}

/// The first payload error among entries `k..`, if any.
pub open spec fn first_payload_error(ms: Seq<(StartCode, Header, Seq<u8>)>, k: nat) -> Option<Error>
    decreases ms.len() - k,
{
    if k >= ms.len() {
        None
    } else {
        match payload_parse_spec(ms[k as int].1.nal_unit_type, ms[k as int].2) {
            Err(e) => Some(e),
            Ok(_) => first_payload_error(ms, k + 1),
        }
    }
}

/// An entry holds the parse of the model `m` (start code, header, payload bytes).
pub open spec fn annex_b_nal_is(n: AnnexBNal, m: (StartCode, Header, Seq<u8>)) -> bool {
    &&& n.start_code == m.0
    &&& n.nal.header == m.1
    &&& payload_is(n.nal.payload, m.1.nal_unit_type, m.2)
}

proof fn lemma_first_payload_error_none(ms: Seq<(StartCode, Header, Seq<u8>)>, k: nat)
    requires
        first_payload_error(ms, k) is None,
    ensures
        forall|j: int| k <= j < ms.len() ==> #[trigger] payload_parse_spec(ms[j].1.nal_unit_type, ms[j].2) is Ok,
    decreases ms.len() - k,
{
    if k < ms.len() {
        lemma_first_payload_error_none(ms, k + 1);
    }
}

proof fn lemma_first_payload_error_at(ms: Seq<(StartCode, Header, Seq<u8>)>, j: nat, k: nat)
    requires
        j <= k < ms.len(),
        forall|i: int| j <= i < k ==> #[trigger] payload_parse_spec(ms[i].1.nal_unit_type, ms[i].2) is Ok,
        payload_parse_spec(ms[k as int].1.nal_unit_type, ms[k as int].2) is Err,
    ensures
        first_payload_error(ms, j) == Some(payload_parse_spec(ms[k as int].1.nal_unit_type, ms[k as int].2)->Err_0),
    decreases k - j,
{
    if j < k {
        lemma_first_payload_error_at(ms, j + 1, k);
    }
}

/// Parse a raw Annex B byte stream into fully parsed NAL units; the first
/// error (in framing, header, or payload) is returned.
pub fn parse_annex_b(data: &[u8]) -> (r: Result<Vec<AnnexBNal>, Error>)
    ensures
        match parse_all_from(data@, start_codes(data@), 0) {
            Err(e) => r == Err::<Vec<AnnexBNal>, Error>(e),
            Ok(ms) => match first_payload_error(ms, 0) {
                Some(e) => r == Err::<Vec<AnnexBNal>, Error>(e),
                None => r matches Ok(v) && v@.len() == ms.len()
                    && forall|k: int| 0 <= k < ms.len() ==> annex_b_nal_is(#[trigger] v@[k], ms[k]),
            },
        },
{
    let entries = match parse_all(data) {
        Ok(v) => v,
        Err(e) => return Err(e),
    };
    let ghost ms = parse_all_from(data@, start_codes(data@), 0)->Ok_0;
    let mut out: Vec<AnnexBNal> = Vec::new();
    let mut i: usize = 0;
    while i < entries.len()
        invariant
            i <= entries@.len(),
            ms.len() == entries@.len(),
            parse_all_from(data@, start_codes(data@), 0) == Ok::<Seq<(StartCode, Header, Seq<u8>)>, Error>(ms),
            forall|k: int| 0 <= k < entries@.len() ==> crate::h265::annex_b::annex_b_is(#[trigger] entries@[k], ms[k]),
            out@.len() == i,
            forall|k: int| 0 <= k < i ==> annex_b_nal_is(#[trigger] out@[k], ms[k]),
            forall|k: int| 0 <= k < i ==> #[trigger] payload_parse_spec(ms[k].1.nal_unit_type, ms[k].2) is Ok,
        decreases entries@.len() - i,
    {
        let e = &entries[i];
        assert(crate::h265::annex_b::annex_b_is(entries@[i as int], ms[i as int]));
        let payload = match NalPayload::parse(&e.nal_unit.header.nal_unit_type, e.nal_unit.rbsp.as_slice()) {
            Ok(p) => p,
            Err(err) => {
                proof {
                    assert(payload_parse_spec(ms[i as int].1.nal_unit_type, ms[i as int].2) is Err);
                    lemma_first_payload_error_at(ms, 0, i as nat);
                }
                return Err(err);
            },
        };
        let ghost before = out@;
        out.push(AnnexBNal { start_code: e.start_code, nal: NalData { header: e.nal_unit.header, payload } });
        proof {
            assert forall|k: int| 0 <= k < i + 1 implies annex_b_nal_is(#[trigger] out@[k], ms[k]) by {
                if k < i {
                    assert(out@[k] == before[k]);
                }
            }
        }
        i = i + 1;
    }
    proof {
        lemma_first_payload_error_none_contra(ms, 0);
    }
    Ok(out)
}

proof fn lemma_first_payload_error_none_contra(ms: Seq<(StartCode, Header, Seq<u8>)>, k: nat)
    requires
        forall|j: int| k <= j < ms.len() ==> #[trigger] payload_parse_spec(ms[j].1.nal_unit_type, ms[j].2) is Ok,
    ensures
        first_payload_error(ms, k) is None,
    decreases ms.len() - k,
{
    if k < ms.len() {
        lemma_first_payload_error_none_contra(ms, k + 1);
    }
}

/// Serialize parsed NAL units back into an Annex B byte stream.
pub fn serialize_annex_b(nals: &[AnnexBNal]) -> (r: Vec<u8>)
    ensures
        r@ == annex_b_nals_bytes(nals@),
{
    let mut buf: Vec<u8> = Vec::new();
    let mut i: usize = 0;
    while i < nals.len()
        invariant
            i <= nals@.len(),
            buf@ == annex_b_nals_bytes(nals@.subrange(0, i as int)),
        decreases nals@.len() - i,
    {
        let b = nals[i].to_bytes();
        extend(&mut buf, b.as_slice());
        proof {
            assert(nals@.subrange(0, i + 1).drop_last() =~= nals@.subrange(0, i as int));
        }
        i = i + 1;
    }
    assert(nals@.subrange(0, nals@.len() as int) =~= nals@);
    buf
}

} // verus!
