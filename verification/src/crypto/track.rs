//! The parameter sets that an AVC track's `avcC` decoder configuration
//! record carries.

use vstd::prelude::*;
use crate::crypto::subsample::avc::{ParamSets, ParamModel, ingest_sps_spec, ingest_pps_spec};
use crate::h264::pps::PpsView;
use crate::h264::sps::SpsView;

verus! {

/// Taking in `n` entries of an `avcC` parameter set list from byte `p`
/// on: each is a 16-bit big-endian length and that many bytes of a NAL
/// unit, whose body (after its header byte) is taken in as an SPS (`sps`)
/// or PPS when it has one. The parameter sets after them, and the byte
/// after the list, or none where the record ends inside the list.
pub open spec fn avcc_entries(avcc: Seq<u8>, p: nat, n: nat, sps: bool, m: ParamModel) -> (ParamModel, Option<nat>)
    decreases n,
{
    if n == 0 {
        (m, Some(p))
    } else if p + 2 > avcc.len() {
        (m, None)
    } else {
        let len = avcc[p as int] as nat * 256 + avcc[(p + 1) as int] as nat;
        let q = p + 2;
        if q + len > avcc.len() {
            (m, None)
        } else {
            let nal = avcc.subrange(q as int, (q + len) as int);
            let m2 = if len > 1 {
                if sps { ingest_sps_spec(m, nal.drop_first()) } else { ingest_pps_spec(m, nal.drop_first()) }
            } else {
                m
            };
            avcc_entries(avcc, q + len, (n - 1) as nat, sps, m2)
        }
    }
}

/// Taking in an `avcC` record: its SPS list (count in the low 5 bits of
/// byte 5, entries from byte 6), then its PPS list (count in the byte
/// after the SPS list). A record that ends early keeps what was taken in
/// before.
pub open spec fn avcc_params_spec(avcc: Seq<u8>, m: ParamModel) -> ParamModel {
    if avcc.len() < 6 {
        m
    } else {
        let (m1, after) = avcc_entries(avcc, 6, (avcc[5] % 32) as nat, true, m);
        match after {
            None => m1,
            Some(p) => if p >= avcc.len() {
                m1
            } else {
                avcc_entries(avcc, p + 1, avcc[p as int] as nat, false, m1).0
            },
        }
    }
}

/// Take in the entries of one parameter set list.
fn walk_entries(avcc: &[u8], start: usize, count: u8, sps: bool, params: &mut ParamSets) -> (r: Option<usize>)
    requires
        start <= avcc@.len(),
        avcc@.len() * 8 <= usize::MAX,
    ensures
        (final(params).model(), match r { Some(p) => Some(p as nat), None => None }) == avcc_entries(
            avcc@,
            start as nat,
            count as nat,
            sps,
            old(params).model(),
        ),
        r matches Some(p) ==> p <= avcc@.len(),
{
    let mut p = start;
    let mut k: u8 = 0;
    while k < count
        invariant
            k <= count,
            p <= avcc@.len(),
            avcc@.len() * 8 <= usize::MAX,
            avcc_entries(avcc@, start as nat, count as nat, sps, old(params).model())
                == avcc_entries(avcc@, p as nat, (count - k) as nat, sps, params.model()),
        decreases count - k,
    {
        if avcc.len() - p < 2 {
            return None;
        }
        let len = avcc[p] as usize * 256 + avcc[p + 1] as usize;
        let q = p + 2;
        if avcc.len() - q < len {
            return None;
        }
        let nal = avcc.split_at(q + len).0.split_at(q).1;
        assert(nal@ =~= avcc@.subrange(q as int, (q + len) as int));
        if len > 1 {
            let body = nal.split_at(1).1;
            assert(body@ =~= nal@.drop_first());
            if sps {
                params.ingest_sps(body);
            } else {
                params.ingest_pps(body);
            }
        }
        p = q + len;
        k = k + 1;
    }
    Some(p)
}

/// Take in every SPS and PPS of an `avcC` record; entries that fail to
/// parse are skipped, and a record that ends early keeps what was taken
/// in before.
pub fn walk_avcc(avcc: &[u8], params: &mut ParamSets)
    requires
        avcc@.len() * 8 <= usize::MAX,
    ensures
        final(params).model() == avcc_params_spec(avcc@, old(params).model()),
{
    if avcc.len() < 6 {
        return;
    }
    let num_sps = avcc[5] % 32;
    let p = match walk_entries(avcc, 6, num_sps, true, params) {
        Some(p) => p,
        None => {
            return;
        },
    };
    if p >= avcc.len() {
        return;
    }
    let num_pps = avcc[p];
    let _ = walk_entries(avcc, p + 1, num_pps, false, params);
}

/// The parameter sets of an `avcC` record, taken in from none.
pub fn parse_avcc_params(avcc: &[u8]) -> (r: ParamSets)
    requires
        avcc@.len() * 8 <= usize::MAX,
    ensures
        r.model() == avcc_params_spec(
            avcc@,
            ParamModel { sps: Map::<u32, SpsView>::empty(), pps: Map::<u32, PpsView>::empty() },
        ),
{
    let mut params = ParamSets::new();
    walk_avcc(avcc, &mut params);
    params
}

} // verus!
