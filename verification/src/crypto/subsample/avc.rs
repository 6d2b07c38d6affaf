//! Subsample plans of AVC samples: length-prefixed NAL units, where the
//! NAL header byte and slice header of each VCL NAL unit stay clear and
//! the slice data is encrypted; non-VCL NAL units stay clear.

use vstd::prelude::*;
use std::collections::HashMap;
use crate::bitstream::{BitstreamReader, bytes_bits};
use crate::crypto::cenc::Subsample;
use crate::crypto::error::Error;
use crate::h264::nal::{NalUnit, NalUnitType, nal_unit_type_of, remove_epb_spec};
use crate::h264::pps::{Pps, PpsView, pps_parse_spec};
use crate::h264::sps::{Sps, SpsView, sps_parse_spec};
use crate::h264::api::sps_view_chroma;
use crate::h264::slice_header::{SliceHeader, slice_header_spec, header_parsable, header_parsable_exec};
use crate::h264::syntax::{read_ue, sp_ue};

verus! {

broadcast use vstd::std_specs::hash::group_hash_axioms;

/// The largest clear byte count of one subsample (a 16-bit field).
pub const CLEAR_MAX: u64 = 0xFFFF;

/// The most body bytes read to measure a slice header before the whole
/// body is tried.
pub const SLICE_HEADER_SCAN_CAP: usize = 256;

/// NAL unit type 1 (non-IDR slice) or 5 (IDR slice).
pub open spec fn is_vcl_spec(nal_type: u8) -> bool {
    nal_type == 1 || nal_type == 5
}

/// Whether a NAL unit type carries slice data.
fn is_vcl(nal_type: u8) -> (r: bool)
    ensures
        r == is_vcl_spec(nal_type),
{
    nal_type == 1 || nal_type == 5
}

/// The parameter sets in effect: SPSs by `seq_parameter_set_id`, PPSs by
/// `pic_parameter_set_id`.
pub struct ParamModel {
    pub sps: Map<u32, SpsView>,
    pub pps: Map<u32, PpsView>,
}

/// The SPSs and PPSs available while planning the samples of a track,
/// seeded from the decoder configuration and updated by in-band
/// parameter sets.
#[derive(Debug)]
pub struct ParamSets {
    sps: HashMap<u32, Sps>,
    pps: HashMap<u32, Pps>,
}

/// The `seq_parameter_set_id` of a PPS RBSP: its second `ue(v)` field.
pub open spec fn pps_seq_id_spec(rbsp: Seq<u8>) -> Option<u32> {
    let s = bytes_bits(rbsp);
    match sp_ue(s, 0) {
        Ok((_, q)) => match sp_ue(s, q) {
            Ok((v, _)) => Some(v),
            Err(_) => None,
        },
        Err(_) => None,
    }
}

/// The `pic_parameter_set_id` of a slice header RBSP: its third `ue(v)`
/// field.
pub open spec fn slice_pps_id_spec(rbsp: Seq<u8>) -> Option<u32> {
    let s = bytes_bits(rbsp);
    match sp_ue(s, 0) {
        Ok((_, q1)) => match sp_ue(s, q1) {
            Ok((_, q2)) => match sp_ue(s, q2) {
                Ok((v, _)) => Some(v),
                Err(_) => None,
            },
            Err(_) => None,
        },
        Err(_) => None,
    }
}

/// Taking in an SPS NAL body: its RBSP parsed, stored under its id; a
/// body that fails to parse changes nothing.
#[verifier::opaque]
pub open spec fn ingest_sps_spec(m: ParamModel, body: Seq<u8>) -> ParamModel {
    match sps_parse_spec(bytes_bits(remove_epb_spec(body))) {
        Ok(v) => ParamModel { sps: m.sps.insert(v.seq_parameter_set_id as u32, v), pps: m.pps },
        Err(_) => m,
    }
}

/// Taking in a PPS NAL body: parsed against the SPS it names and stored
/// under its id; without that SPS, or when it fails to parse, nothing
/// changes.
#[verifier::opaque]
pub open spec fn ingest_pps_spec(m: ParamModel, body: Seq<u8>) -> ParamModel {
    let rbsp = remove_epb_spec(body);
    match pps_seq_id_spec(rbsp) {
        Some(id) => if m.sps.contains_key(id) {
            match pps_parse_spec(rbsp, sps_view_chroma(m.sps[id])) {
                Ok(v) => ParamModel { sps: m.sps, pps: m.pps.insert(v.pic_parameter_set_id, v) },
                Err(_) => m,
            }
        } else {
            m
        },
        None => m,
    }
}

/// The SPS and PPS a slice names through its PPS id.
pub open spec fn select_spec(m: ParamModel, pps_id: u32) -> Option<(SpsView, PpsView)> {
    if m.pps.contains_key(pps_id) && m.sps.contains_key(m.pps[pps_id].seq_parameter_set_id) {
        Some((m.sps[m.pps[pps_id].seq_parameter_set_id], m.pps[pps_id]))
    } else {
        None
    }
}

impl ParamSets {
    /// The parameter sets held.
    pub closed spec fn model(&self) -> ParamModel {
        ParamModel {
            sps: self.sps@.map_values(|s: Sps| s@),
            pps: self.pps@.map_values(|p: Pps| p@),
        }
    }

    /// No parameter sets.
    pub fn new() -> (r: Self)
        ensures
            r.model().sps == Map::<u32, SpsView>::empty(),
            r.model().pps == Map::<u32, PpsView>::empty(),
    {
        let r = ParamSets { sps: HashMap::new(), pps: HashMap::new() };
        assert(r.model().sps =~= Map::<u32, SpsView>::empty());
        assert(r.model().pps =~= Map::<u32, PpsView>::empty());
        r
    }

    /// Take in an SPS NAL body (the bytes after the header byte); a body
    /// that fails to parse is ignored.
    pub fn ingest_sps(&mut self, nal_body: &[u8])
        requires
            nal_body@.len() * 8 <= usize::MAX,
        ensures
            final(self).model() == ingest_sps_spec(old(self).model(), nal_body@),
    {
        reveal(ingest_sps_spec);
        let rbsp = NalUnit::remove_emulation_prevention_bytes(nal_body);
        match Sps::parse(rbsp.as_slice()) {
            Ok(sps) => {
                let id = sps.seq_parameter_set_id as u32;
                let ghost v = sps@;
                self.sps.insert(id, sps);
                assert(self.model().sps =~= old(self).model().sps.insert(id, v));
                assert(self.model().pps =~= old(self).model().pps);
            },
            Err(_) => {},
        }
    }

    /// Take in a PPS NAL body; without the SPS it names, or when it fails
    /// to parse, it is ignored.
    pub fn ingest_pps(&mut self, nal_body: &[u8])
        requires
            nal_body@.len() * 8 <= usize::MAX,
        ensures
            final(self).model() == ingest_pps_spec(old(self).model(), nal_body@),
    {
        reveal(ingest_pps_spec);
        let rbsp = NalUnit::remove_emulation_prevention_bytes(nal_body);
        let seq_id = match pps_seq_parameter_set_id(rbsp.as_slice()) {
            Some(id) => id,
            None => {
                return;
            },
        };
        let parsed = match self.sps.get(&seq_id) {
            Some(sps) => {
                assert(self.model().sps[seq_id] == sps@);
                Pps::parse(rbsp.as_slice(), sps)
            },
            None => {
                return;
            },
        };
        match parsed {
            Ok(pps) => {
                let id = pps.pic_parameter_set_id;
                let ghost v = pps@;
                self.pps.insert(id, pps);
                assert(self.model().pps =~= old(self).model().pps.insert(id, v));
                assert(self.model().sps =~= old(self).model().sps);
            },
            Err(_) => {},
        }
    }

    /// The SPS and PPS a slice names through its PPS id.
    fn select(&self, pps_id: u32) -> (r: Option<(&Sps, &Pps)>)
        ensures
            match select_spec(self.model(), pps_id) {
                Some((s, p)) => r matches Some((a, b)) && a@ == s && b@ == p,
                None => r is None,
            },
    {
        let pps = match self.pps.get(&pps_id) {
            Some(p) => p,
            None => {
                return None;
            },
        };
        let sps = match self.sps.get(&pps.seq_parameter_set_id) {
            Some(s) => s,
            None => {
                return None;
            },
        };
        Some((sps, pps))
    }
}

impl Default for ParamSets {
    /// No parameter sets.
    fn default() -> (r: Self)
        ensures
            r.model().sps == Map::<u32, SpsView>::empty(),
            r.model().pps == Map::<u32, PpsView>::empty(),
    {
        ParamSets::new()
    }
}

/// Read the second `ue(v)` field of a PPS RBSP.
fn pps_seq_parameter_set_id(rbsp: &[u8]) -> (r: Option<u32>)
    requires
        rbsp@.len() * 8 <= usize::MAX,
    ensures
        r == pps_seq_id_spec(rbsp@),
{
    let mut reader = BitstreamReader::new(rbsp);
    match read_ue(&mut reader) {
        Ok(_) => {},
        Err(_) => {
            return None;
        },
    }
    match read_ue(&mut reader) {
        Ok(v) => Some(v),
        Err(_) => None,
    }
}

/// Read the third `ue(v)` field of a slice header RBSP.
fn slice_pic_parameter_set_id(rbsp: &[u8]) -> (r: Option<u32>)
    requires
        rbsp@.len() * 8 <= usize::MAX,
    ensures
        r == slice_pps_id_spec(rbsp@),
{
    let mut reader = BitstreamReader::new(rbsp);
    match read_ue(&mut reader) {
        Ok(_) => {},
        Err(_) => {
            return None;
        },
    }
    match read_ue(&mut reader) {
        Ok(_) => {},
        Err(_) => {
            return None;
        },
    }
    match read_ue(&mut reader) {
        Ok(v) => Some(v),
        Err(_) => None,
    }
}

/// Where the slice header of an RBSP ends, in bits, read against `s` and
/// `p`; none where it fails to parse.
#[verifier::opaque]
pub open spec fn header_end_spec(rbsp: Seq<u8>, s: SpsView, p: PpsView, nal_type: u8, nal_ref_idc: u8) -> Option<nat> {
    match slice_header_spec(bytes_bits(rbsp), 0, s, p, nal_unit_type_of(nal_type), nal_ref_idc) {
        Ok((_, q)) => Some(q),
        Err(_) => None,
    }
}

/// Read the slice header of an RBSP and give the bits it takes.
fn header_end(rbsp: &[u8], sps: &Sps, pps: &Pps, nal_type: u8, nal_ref_idc: u8) -> (r: Option<usize>)
    requires
        rbsp@.len() * 8 <= usize::MAX,
        header_parsable(sps@, pps@),
    ensures
        match header_end_spec(rbsp@, sps@, pps@, nal_type, nal_ref_idc) {
            Some(q) => r == Some(q as usize) && q <= rbsp@.len() * 8,
            None => r is None,
        },
{
    reveal(header_end_spec);
    let mut reader = BitstreamReader::new(rbsp);
    let nut = NalUnitType::from_u8(nal_type);
    match SliceHeader::parse(&mut reader, sps, pps, nut, nal_ref_idc) {
        Ok(_) => {},
        Err(_) => {
            return None;
        },
    }
    Some(rbsp.len() * 8 - reader.remaining_bits())
}

/// The byte length of the slice header of an RBSP: the header parsed
/// against the SPS and PPS it names, its bits rounded up to bytes; none
/// where those sets are missing or it fails to parse.
#[verifier::opaque]
pub open spec fn measure_spec(rbsp: Seq<u8>, m: ParamModel, nal_type: u8, nal_ref_idc: u8) -> Option<nat> {
    match slice_pps_id_spec(rbsp) {
        Some(id) => match select_spec(m, id) {
            Some((s, p)) => if header_parsable(s, p) {
                match header_end_spec(rbsp, s, p, nal_type, nal_ref_idc) {
                    Some(q) => Some(((q + 7) / 8) as nat),
                    None => None,
                }
            } else {
                None
            },
            None => None,
        },
        None => None,
    }
}

/// Measure the slice header of an RBSP.
fn measure(rbsp: &[u8], params: &ParamSets, nal_type: u8, nal_ref_idc: u8) -> (r: Option<usize>)
    requires
        rbsp@.len() * 8 <= usize::MAX,
    ensures
        match measure_spec(rbsp@, params.model(), nal_type, nal_ref_idc) {
            Some(n) => r == Some(n as usize) && n <= rbsp@.len(),
            None => r is None,
        },
{
    reveal(measure_spec);
    let pps_id = match slice_pic_parameter_set_id(rbsp) {
        Some(id) => id,
        None => {
            return None;
        },
    };
    let (sps, pps) = match params.select(pps_id) {
        Some(x) => x,
        None => {
            return None;
        },
    };
    if !header_parsable_exec(sps, pps) {
        return None;
    }
    let consumed_bits = match header_end(rbsp, sps, pps, nal_type, nal_ref_idc) {
        Some(q) => q,
        None => {
            return None;
        },
    };
    Some(consumed_bits / 8 + if consumed_bits % 8 != 0 { 1 } else { 0 })
}

/// Counting raw bytes from `i` with `count` RBSP bytes so far until
/// `rbsp_len` RBSP bytes are covered: an emulation prevention sequence
/// `00 00 03 xx` (`xx <= 3`) counts its three raw bytes as two.
pub open spec fn raw_len_from(raw: Seq<u8>, rbsp_len: nat, i: nat, count: nat) -> nat
    decreases raw.len() - i,
{
    if i >= raw.len() || count >= rbsp_len {
        i
    } else if i + 3 < raw.len() && raw[i as int] == 0 && raw[(i + 1) as int] == 0 && raw[(i + 2) as int] == 3 && raw[(i + 3) as int] <= 3 {
        raw_len_from(raw, rbsp_len, i + 3, count + 2)
    } else {
        raw_len_from(raw, rbsp_len, i + 1, count + 1)
    }
}

/// Map a length in RBSP bytes back to the length in raw NAL bytes.
fn rbsp_len_to_raw_len(raw: &[u8], rbsp_len: usize) -> (r: usize)
    ensures
        r == raw_len_from(raw@, rbsp_len as nat, 0, 0),
        r <= raw@.len(),
{
    let mut rbsp_count: usize = 0;
    let mut i: usize = 0;
    while i < raw.len() && rbsp_count < rbsp_len
        invariant
            i <= raw@.len(),
            rbsp_count <= i,
            raw_len_from(raw@, rbsp_len as nat, 0, 0) == raw_len_from(raw@, rbsp_len as nat, i as nat, rbsp_count as nat),
        decreases raw@.len() - i,
    {
        if raw.len() - i > 3 && raw[i] == 0 && raw[i + 1] == 0 && raw[i + 2] == 3 && raw[i + 3] <= 3 {
            rbsp_count = rbsp_count + 2;
            i = i + 3;
        } else {
            rbsp_count = rbsp_count + 1;
            i = i + 1;
        }
    }
    i
}

/// The clear leader length of a VCL NAL body after its header byte: the
/// slice header measured on at most the first 256 body bytes (on the
/// whole body when that fails and the body is longer), in raw bytes.
#[verifier::opaque]
pub open spec fn slice_header_len_spec(body: Seq<u8>, nal_type: u8, nal_ref_idc: u8, m: ParamModel) -> Option<nat> {
    let cap = if body.len() < 256 { body.len() } else { 256 };
    match measure_spec(remove_epb_spec(body.take(cap as int)), m, nal_type, nal_ref_idc) {
        Some(n) => Some(raw_len_from(body, n, 0, 0)),
        None => if cap < body.len() {
            match measure_spec(remove_epb_spec(body), m, nal_type, nal_ref_idc) {
                Some(n) => Some(raw_len_from(body, n, 0, 0)),
                None => None,
            }
        } else {
            None
        },
    }
}

/// Measure the clear leader of a VCL NAL body.
fn slice_header_len(nal_body: &[u8], nal_type: u8, nal_ref_idc: u8, params: &ParamSets) -> (r: Option<usize>)
    requires
        nal_body@.len() * 8 <= usize::MAX,
    ensures
        match slice_header_len_spec(nal_body@, nal_type, nal_ref_idc, params.model()) {
            Some(n) => r == Some(n as usize) && n <= nal_body@.len(),
            None => r is None,
        },
        r matches Some(n) ==> n <= nal_body@.len(),
{
    reveal(slice_header_len_spec);
    let cap = if nal_body.len() < SLICE_HEADER_SCAN_CAP { nal_body.len() } else { SLICE_HEADER_SCAN_CAP };
    let head = nal_body.split_at(cap).0;
    assert(head@ =~= nal_body@.take(cap as int));
    let rbsp = NalUnit::remove_emulation_prevention_bytes(head);
    let n = match measure(rbsp.as_slice(), params, nal_type, nal_ref_idc) {
        Some(n) => n,
        None => {
            if cap < nal_body.len() {
                let full = NalUnit::remove_emulation_prevention_bytes(nal_body);
                match measure(full.as_slice(), params, nal_type, nal_ref_idc) {
                    Some(n) => n,
                    None => {
                        return None;
                    },
                }
            } else {
                return None;
            }
        },
    };
    Some(rbsp_len_to_raw_len(nal_body, n))
}

/// A clear run and an encrypted run as subsamples: clear-only subsamples
/// of 65535 bytes while more remain, then the rest with the encrypted
/// count (kept to 32 bits).
pub open spec fn clear_split(clear: nat, encrypted: u64) -> Seq<Subsample>
    decreases clear,
{
    if clear > 0xFFFF {
        seq![Subsample { clear: 0xFFFF, encrypted: 0 }] + clear_split((clear - 0xFFFF) as nat, encrypted)
    } else {
        seq![Subsample { clear: clear as u32, encrypted: encrypted as u32 }]
    }
}

/// Append a clear run and an encrypted run, splitting the clear run at
/// the 16-bit limit of a subsample's clear count.
fn push_clear_split(out: &mut Vec<Subsample>, clear: u64, encrypted: u64)
    ensures
        final(out)@ == old(out)@ + clear_split(clear as nat, encrypted),
{
    let mut remaining = clear;
    while remaining > CLEAR_MAX
        invariant
            old(out)@ + clear_split(clear as nat, encrypted) == out@ + clear_split(remaining as nat, encrypted),
        decreases remaining,
    {
        let ghost o0 = out@;
        out.push(Subsample { clear: 0xFFFF, encrypted: 0 });
        assert(o0 + clear_split(remaining as nat, encrypted) =~= out@ + clear_split((remaining - 0xFFFF) as nat, encrypted));
        remaining = remaining - CLEAR_MAX;
    }
    let ghost o1 = out@;
    out.push(Subsample { clear: remaining as u32, encrypted: encrypted as u32 });
    assert(out@ =~= o1 + clear_split(remaining as nat, encrypted));
}

/// The big-endian number in `b`.
pub open spec fn be_value(b: Seq<u8>) -> nat
    decreases b.len(),
{
    if b.len() == 0 {
        0
    } else {
        be_value(b.drop_last()) * 256 + b.last() as nat
    }
}

/// Planning the NAL units from `offset` on, with `pending` clear bytes
/// not yet placed and the parameter sets `m`: the subsamples appended
/// after `out` and the parameter sets at the end, or the error.
pub open spec fn plan_from(sample: Seq<u8>, ls: nat, offset: nat, pending: nat, m: ParamModel, out: Seq<Subsample>)
    -> Result<(Seq<Subsample>, ParamModel), Error>
    decreases sample.len() - offset,
{
    if offset >= sample.len() {
        if pending > 0 { Ok((out + clear_split(pending, 0), m)) } else { Ok((out, m)) }
    } else if offset + ls > sample.len() {
        Err(Error::TruncatedNal)
    } else {
        let nal_len = be_value(sample.subrange(offset as int, (offset + ls) as int));
        let prefix_end = offset + ls;
        let nal_end = prefix_end + nal_len;
        if nal_len == 0 {
            Err(Error::ZeroLengthNal)
        } else if nal_end > sample.len() {
            Err(Error::TruncatedNal)
        } else {
            let header = sample[prefix_end as int];
            let nal_type = (header % 32) as u8;
            let nri = ((header / 32) % 4) as u8;
            let body = sample.subrange((prefix_end + 1) as int, nal_end as int);
            let m2 = if nal_type == 7 { ingest_sps_spec(m, body) } else if nal_type == 8 { ingest_pps_spec(m, body) } else { m };
            if is_vcl_spec(nal_type) {
                match slice_header_len_spec(body, nal_type, nri, m2) {
                    None => Err(Error::SliceHeaderParseFailed),
                    Some(sh) => {
                        let leader = 1 + sh;
                        let clear = pending + ls + leader;
                        let encrypted = (nal_len - leader) as u64;
                        plan_from(sample, ls, nal_end, 0, m2, out + clear_split(clear, encrypted))
                    },
                }
            } else {
                plan_from(sample, ls, nal_end, pending + ls + nal_len, m2, out)
            }
        }
    }
}

/// Build the subsample plan of one AVC sample of length-prefixed NAL
/// units (`length_size` 1, 2 or 4): the NAL header byte and slice header
/// of each VCL NAL unit, together with the clear bytes before them, form
/// one subsample's clear part and the slice data its encrypted part;
/// non-VCL NAL units stay clear. In-band SPSs and PPSs update `params`
/// for this and later samples.
pub fn plan(sample: &[u8], length_size: u8, params: &mut ParamSets) -> (r: Result<Vec<Subsample>, Error>)
    requires
        sample@.len() * 8 <= usize::MAX,
    ensures
        !(length_size == 1 || length_size == 2 || length_size == 4) ==> r == Err::<Vec<Subsample>, Error>(Error::InvalidLengthSize(length_size)),
        (length_size == 1 || length_size == 2 || length_size == 4) ==> match plan_from(sample@, length_size as nat, 0, 0, old(params).model(), Seq::empty()) {
            Ok((subs, m)) => r matches Ok(v) && v@ == subs && final(params).model() == m,
            Err(e) => r == Err::<Vec<Subsample>, Error>(e),
        },
{
    if !(length_size == 1 || length_size == 2 || length_size == 4) {
        return Err(Error::InvalidLengthSize(length_size));
    }
    let ls = length_size as usize;
    let mut out: Vec<Subsample> = Vec::new();
    let mut offset: usize = 0;
    let mut pending_clear: u64 = 0;
    let ghost m0 = params.model();
    while offset < sample.len()
        invariant
            ls == length_size as usize,
            length_size == 1 || length_size == 2 || length_size == 4,
            m0 == old(params).model(),
            offset <= sample@.len(),
            sample@.len() * 8 <= usize::MAX,
            pending_clear <= offset,
            plan_from(sample@, ls as nat, 0, 0, m0, Seq::empty())
                == plan_from(sample@, ls as nat, offset as nat, pending_clear as nat, params.model(), out@),
        decreases sample@.len() - offset,
    {
        let ghost cur = plan_from(sample@, ls as nat, offset as nat, pending_clear as nat, params.model(), out@);
        if offset + ls > sample.len() {
            assert(cur == Err::<(Seq<Subsample>, ParamModel), Error>(Error::TruncatedNal));
            return Err(Error::TruncatedNal);
        }
        let nal_len = read_length(sample, offset, ls);
        if nal_len == 0 {
            assert(cur == Err::<(Seq<Subsample>, ParamModel), Error>(Error::ZeroLengthNal));
            return Err(Error::ZeroLengthNal);
        }
        let prefix_end = offset + ls;
        if nal_len > sample.len() - prefix_end {
            assert(cur == Err::<(Seq<Subsample>, ParamModel), Error>(Error::TruncatedNal));
            return Err(Error::TruncatedNal);
        }
        let nal_end = prefix_end + nal_len;
        let header_byte = sample[prefix_end];
        let nal_type = header_byte % 32;
        let nal_ref_idc = (header_byte / 32) % 4;
        let body = sample.split_at(nal_end).0.split_at(prefix_end + 1).1;
        assert(body@ =~= sample@.subrange(prefix_end + 1, nal_end as int));
        let ghost mb = params.model();
        let ghost hdr = sample@[prefix_end as int];
        assert(hdr == header_byte);
        assert(nal_type == (hdr % 32) as u8);
        assert(nal_ref_idc == ((hdr / 32) % 4) as u8);
        assert(nal_len as nat == be_value(sample@.subrange(offset as int, (offset + ls) as int)));
        if nal_type == 7 {
            params.ingest_sps(body);
        } else if nal_type == 8 {
            params.ingest_pps(body);
        }
        let ghost m2 = params.model();
        assert(m2 == (if nal_type == 7 { ingest_sps_spec(mb, body@) } else if nal_type == 8 { ingest_pps_spec(mb, body@) } else { mb }));
        if is_vcl(nal_type) {
            let sh = match slice_header_len(body, nal_type, nal_ref_idc, params) {
                Some(n) => n,
                None => {
                    assert(cur == Err::<(Seq<Subsample>, ParamModel), Error>(Error::SliceHeaderParseFailed));
                    return Err(Error::SliceHeaderParseFailed);
                },
            };
            let leader = 1 + sh;
            let clear = pending_clear + ls as u64 + leader as u64;
            let encrypted = nal_len as u64 - leader as u64;
            let ghost out0 = out@;
            assert(cur == plan_from(sample@, ls as nat, nal_end as nat, 0, m2, out0 + clear_split(clear as nat, encrypted)));
            push_clear_split(&mut out, clear, encrypted);
            pending_clear = 0;
        } else {
            assert(cur == plan_from(sample@, ls as nat, nal_end as nat, (pending_clear + ls + nal_len) as nat, m2, out@));
            pending_clear = pending_clear + ls as u64 + nal_len as u64;
        }
        assert(cur == plan_from(sample@, ls as nat, nal_end as nat, pending_clear as nat, params.model(), out@));
        offset = nal_end;
    }
    if pending_clear > 0 {
        push_clear_split(&mut out, pending_clear, 0);
    }
    Ok(out)
}

/// The big-endian length of `ls` bytes at `offset`.
fn read_length(sample: &[u8], offset: usize, ls: usize) -> (r: usize)
    requires
        1 <= ls <= 4,
        offset + ls <= sample@.len(),
    ensures
        r as nat == be_value(sample@.subrange(offset as int, offset + ls)),
{
    let mut nal_len: usize = 0;
    let mut i: usize = 0;
    while i < ls
        invariant
            i <= ls <= 4,
            offset + ls <= sample.len(),
            nal_len as nat == be_value(sample@.subrange(offset as int, offset + i)),
            nal_len < pow256(i as nat),
        decreases ls - i,
    {
        proof {
            assert(sample@.subrange(offset as int, offset + i + 1).drop_last() =~= sample@.subrange(offset as int, offset + i));
            lemma_pow256_step(i as nat);
        }
        let b = sample[offset + i];
        nal_len = nal_len * 256 + b as usize;
        i = i + 1;
    }
    nal_len
}

/// `256^n`.
pub open spec fn pow256(n: nat) -> nat
    decreases n,
{
    if n == 0 { 1 } else { 256 * pow256((n - 1) as nat) }
}

/// `256^(n + 1) = 256 * 256^n`, and `256^4` fits a 32-bit length.
proof fn lemma_pow256_step(n: nat)
    ensures
        pow256(n + 1) == 256 * pow256(n),
        n <= 3 ==> pow256(n) <= 0x100_0000,
{
    if n <= 3 {
        assert(pow256(0) == 1);
        assert(pow256(1) == 256);
        assert(pow256(2) == 0x1_0000);
        assert(pow256(3) == 0x100_0000);
    }
}

} // verus!
