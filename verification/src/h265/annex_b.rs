//! Annex B byte stream of H.265 NAL units: each unit preceded by a start
//! code (`00 00 01` or `00 00 00 01`).

use vstd::prelude::*;
use crate::bytes::extend;
use crate::h265::error::Error;
use crate::h265::nal::{Header, NalUnit, header_bytes, header_parse_spec};
use crate::h264::annex_b::{start_code_bytes, be_u32_of, start_codes, segment, find_start_codes, lemma_start_codes_from};
pub use crate::h264::annex_b::StartCode;

verus! {

/// One Annex B entry: start code and NAL unit.
#[derive(Debug)]
pub struct AnnexB {
    pub start_code: StartCode,
    pub nal_unit: NalUnit,
}

/// Parsing one Annex B entry: the start code, and the NAL unit that follows.
pub open spec fn parse_annex_b_spec(d: Seq<u8>) -> Result<(StartCode, Header, Seq<u8>), Error> {
    if d.len() < 4 {
        Err(Error::DataTooShort)
    } else if d[0] == 0 && d[1] == 0 && d[2] == 1 {
        match header_parse_spec(d.subrange(3, d.len() as int)) {
            Ok(h) => Ok((StartCode::ThreeBytes, h, d.subrange(5, d.len() as int))),
            Err(e) => Err(e),
        }
    } else if d[0] == 0 && d[1] == 0 && d[2] == 0 && d[3] == 1 {
        match header_parse_spec(d.subrange(4, d.len() as int)) {
            Ok(h) => Ok((StartCode::FourBytes, h, d.subrange(6, d.len() as int))),
            Err(e) => Err(e),
        }
    } else {
        Err(Error::InvalidStartCode(be_u32_of(d)))
    }
}

/// The bytes of an Annex B entry.
pub open spec fn annex_b_bytes(sc: StartCode, h: Header, rbsp: Seq<u8>) -> Seq<u8> {
    start_code_bytes(sc) + (header_bytes(h) + rbsp)
}

impl AnnexB {
    /// Parse a single Annex B entry from a byte slice starting with a start code.
    pub fn parse(data: &[u8]) -> (r: Result<Self, Error>)
        ensures
            match parse_annex_b_spec(data@) {
                Ok((sc, h, rbsp)) => r matches Ok(a) && a.start_code == sc && a.nal_unit.header == h
                    && a.nal_unit.rbsp@ == rbsp,
                Err(e) => r == Err::<Self, Error>(e),
            },
    {
        if data.len() < 4 {
            return Err(Error::DataTooShort);
        }
        if data[0] == 0x00 && data[1] == 0x00 && data[2] == 0x01 {
            let rest = vstd::slice::slice_subrange(data, 3, data.len());
            match NalUnit::parse(rest) {
                Ok(nal_unit) => Ok(AnnexB { start_code: StartCode::ThreeBytes, nal_unit }),
                Err(e) => Err(e),
            }
        } else if data[0] == 0x00 && data[1] == 0x00 && data[2] == 0x00 && data[3] == 0x01 {
            let rest = vstd::slice::slice_subrange(data, 4, data.len());
            match NalUnit::parse(rest) {
                Ok(nal_unit) => Ok(AnnexB { start_code: StartCode::FourBytes, nal_unit }),
                Err(e) => Err(e),
            }
        } else {
            let value: u32 = (data[0] as u32) * 0x100_0000 + (data[1] as u32) * 0x1_0000
                + (data[2] as u32) * 0x100 + data[3] as u32;
            Err(Error::InvalidStartCode(value))
        }
    }

    /// Serialize the start code and NAL unit back into a byte stream.
    pub fn to_bytes(&self) -> (r: Vec<u8>)
        ensures
            r@ == annex_b_bytes(self.start_code, self.nal_unit.header, self.nal_unit.rbsp@),
    {
        let mut buf = self.start_code.as_bytes();
        let nal = self.nal_unit.to_bytes();
        extend(&mut buf, nal.as_slice());
        buf
    }
}

/// Parsing every entry of a byte stream, stopping at the first error.
pub open spec fn parse_all_from(d: Seq<u8>, pos: Seq<nat>, k: nat) -> Result<Seq<(StartCode, Header, Seq<u8>)>, Error>
    decreases pos.len() - k,
{
    if k >= pos.len() {
        Ok(Seq::empty())
    } else {
        match parse_annex_b_spec(segment(d, pos, k as int)) {
            Err(e) => Err(e),
            Ok(x) => match parse_all_from(d, pos, k + 1) {
                Err(e) => Err(e),
                Ok(rest) => Ok(seq![x] + rest),
            },
        }
    }
}

/// Whether an Annex B entry holds a given model.
pub open spec fn annex_b_is(a: AnnexB, m: (StartCode, Header, Seq<u8>)) -> bool {
    a.start_code == m.0 && a.nal_unit.header == m.1 && a.nal_unit.rbsp@ == m.2
}

/// Parse a byte stream into Annex B entries by splitting at start codes.
/// Bytes before the first start code are ignored.
pub fn parse_all(data: &[u8]) -> (r: Result<Vec<AnnexB>, Error>)
    ensures
        match parse_all_from(data@, start_codes(data@), 0) {
            Ok(ms) => r matches Ok(v) && v@.len() == ms.len() && forall|k: int|
                0 <= k < ms.len() ==> annex_b_is(#[trigger] v@[k], ms[k]),
            Err(e) => r == Err::<Vec<AnnexB>, Error>(e),
        },
{
    let mut result: Vec<AnnexB> = Vec::new();
    let positions = find_start_codes(data);
    let ghost pos = start_codes(data@);
    proof {
        lemma_start_codes_from(data@, 0);
    }
    let mut i: usize = 0;
    while i < positions.len()
        invariant
            i <= positions@.len(),
            pos == start_codes(data@),
            positions@.len() == pos.len(),
            forall|k: int| 0 <= k < positions@.len() ==> positions@[k] as nat == #[trigger] pos[k],
            forall|k: int| 0 <= k < pos.len() ==> #[trigger] pos[k] < data@.len(),
            forall|k: int, l: int| 0 <= k < l < pos.len() ==> pos[k] < pos[l],
            result@.len() == i,
            forall|k: int| 0 <= k < i ==> #[trigger] parse_annex_b_spec(segment(data@, pos, k)) is Ok,
            forall|k: int| 0 <= k < i ==> annex_b_is(#[trigger] result@[k], parse_annex_b_spec(segment(data@, pos, k))->Ok_0),
        decreases positions@.len() - i,
    {
        let start = positions[i];
        let end = if i + 1 < positions.len() { positions[i + 1] } else { data.len() };
        proof {
            assert(pos[i as int] == start as nat);
            if i + 1 < positions@.len() {
                assert(pos[i + 1] == end as nat);
            }
        }
        let seg = vstd::slice::slice_subrange(data, start, end);
        assert(seg@ == segment(data@, pos, i as int));
        match AnnexB::parse(seg) {
            Ok(a) => {
                let ghost before = result@;
                result.push(a);
                proof {
                    assert(parse_annex_b_spec(segment(data@, pos, i as int)) is Ok);
                    assert forall|k: int| 0 <= k < i + 1 implies annex_b_is(#[trigger] result@[k], parse_annex_b_spec(segment(data@, pos, k))->Ok_0) by {
                        if k < i {
                            assert(result@[k] == before[k]);
                        }
                    }
                }
            },
            Err(e) => {
                proof {
                    lemma_parse_all_prefix(data@, pos, i as nat);
                }
                return Err(e);
            },
        }
        i = i + 1;
    }
    proof {
        lemma_parse_all_ok(data@, pos, 0);
    }
    Ok(result)
}

/// When the entries before `k` parse, parsing all of them fails exactly as
/// entry `k` does.
proof fn lemma_parse_all_prefix(d: Seq<u8>, pos: Seq<nat>, k: nat)
    requires
        k < pos.len(),
        forall|j: int| 0 <= j < k ==> #[trigger] parse_annex_b_spec(segment(d, pos, j)) is Ok,
        parse_annex_b_spec(segment(d, pos, k as int)) is Err,
    ensures
        parse_all_from(d, pos, 0) == Err::<Seq<(StartCode, Header, Seq<u8>)>, Error>(
            parse_annex_b_spec(segment(d, pos, k as int))->Err_0,
        ),
    decreases k,
{
    lemma_parse_all_prefix_from(d, pos, 0, k);
}

proof fn lemma_parse_all_prefix_from(d: Seq<u8>, pos: Seq<nat>, j: nat, k: nat)
    requires
        j <= k < pos.len(),
        forall|m: int| j <= m < k ==> #[trigger] parse_annex_b_spec(segment(d, pos, m)) is Ok,
        parse_annex_b_spec(segment(d, pos, k as int)) is Err,
    ensures
        parse_all_from(d, pos, j) == Err::<Seq<(StartCode, Header, Seq<u8>)>, Error>(
            parse_annex_b_spec(segment(d, pos, k as int))->Err_0,
        ),
    decreases k - j,
{
    if j < k {
        lemma_parse_all_prefix_from(d, pos, j + 1, k);
        assert(parse_annex_b_spec(segment(d, pos, j as int)) is Ok);
    }
}

/// When every entry from `j` on parses, parsing all of them gives their models.
proof fn lemma_parse_all_ok(d: Seq<u8>, pos: Seq<nat>, j: nat)
    requires
        j <= pos.len(),
        forall|m: int| j <= m < pos.len() ==> #[trigger] parse_annex_b_spec(segment(d, pos, m)) is Ok,
    ensures
        parse_all_from(d, pos, j) is Ok,
        parse_all_from(d, pos, j)->Ok_0.len() == pos.len() - j,
        forall|m: int| 0 <= m < pos.len() - j ==> parse_all_from(d, pos, j)->Ok_0[m] == #[trigger] parse_annex_b_spec(segment(d, pos, j + m))->Ok_0,
    decreases pos.len() - j,
{
    if j < pos.len() {
        lemma_parse_all_ok(d, pos, j + 1);
        let rest = parse_all_from(d, pos, j + 1)->Ok_0;
        let x = parse_annex_b_spec(segment(d, pos, j as int))->Ok_0;
        assert(parse_all_from(d, pos, j)->Ok_0 == seq![x] + rest);
        assert forall|m: int| 0 <= m < pos.len() - j implies parse_all_from(d, pos, j)->Ok_0[m] == #[trigger] parse_annex_b_spec(segment(d, pos, j + m))->Ok_0 by {
            if m > 0 {
                assert(rest[m - 1] == parse_annex_b_spec(segment(d, pos, (j + 1) + (m - 1)))->Ok_0);
            }
        }
    }
}

/// The Annex B bytes of entries `k..`, in order.
pub open spec fn entries_bytes(ms: Seq<(StartCode, Header, Seq<u8>)>, k: nat) -> Seq<u8>
    decreases ms.len() - k,
{
    if k >= ms.len() {
        Seq::empty()
    } else {
        annex_b_bytes(ms[k as int].0, ms[k as int].1, ms[k as int].2) + entries_bytes(ms, k + 1)
    }
}

/// Entries after a first one are written as on their own.
proof fn lemma_entries_shift(x: (StartCode, Header, Seq<u8>), rest: Seq<(StartCode, Header, Seq<u8>)>, i: nat)
    ensures
        entries_bytes(seq![x] + rest, i + 1) == entries_bytes(rest, i),
    decreases rest.len() - i,
{
    let ms = seq![x] + rest;
    if i < rest.len() {
        assert(ms[(i + 1) as int] == rest[i as int]);
        lemma_entries_shift(x, rest, i + 1);
    }
}

/// The entries parsed from entry `k` on, written back, are the stream from
/// the start code of entry `k` on.
proof fn lemma_entries_bytes(d: Seq<u8>, k: nat)
    requires
        k < start_codes(d).len(),
        parse_all_from(d, start_codes(d), k) is Ok,
    ensures
        entries_bytes(parse_all_from(d, start_codes(d), k)->Ok_0, 0) == d.subrange(start_codes(d)[k as int] as int, d.len() as int),
        parse_all_from(d, start_codes(d), k)->Ok_0.len() == start_codes(d).len() - k,
    decreases start_codes(d).len() - k,
{
    let pos = start_codes(d);
    lemma_start_codes_from(d, 0);
    let seg = segment(d, pos, k as int);
    lemma_annex_b_roundtrip(seg);
    let x = parse_annex_b_spec(seg)->Ok_0;
    let ms = parse_all_from(d, pos, k)->Ok_0;
    let rest = parse_all_from(d, pos, k + 1)->Ok_0;
    assert(ms == seq![x] + rest);
    lemma_entries_shift(x, rest, 0);
    if k + 1 < pos.len() {
        lemma_entries_bytes(d, k + 1);
        assert(pos[k as int] < pos[(k + 1) as int]);
        assert(d.subrange(pos[k as int] as int, d.len() as int) =~= seg + d.subrange(pos[(k + 1) as int] as int, d.len() as int));
    } else {
        assert(entries_bytes(rest, 0) =~= Seq::<u8>::empty());
        assert(seg + Seq::<u8>::empty() =~= seg);
    }
}

/// Writing back every entry parsed from a stream gives the stream back
/// from its first start code on (the whole stream, where it begins with
/// one), and there is one entry per start code.
pub proof fn lemma_parse_all_roundtrip(d: Seq<u8>)
    requires
        start_codes(d).len() > 0,
        parse_all_from(d, start_codes(d), 0) is Ok,
    ensures
        entries_bytes(parse_all_from(d, start_codes(d), 0)->Ok_0, 0) == d.subrange(start_codes(d)[0] as int, d.len() as int),
        parse_all_from(d, start_codes(d), 0)->Ok_0.len() == start_codes(d).len(),
        (d.len() >= 3 && d[0] == 0 && d[1] == 0 && d[2] == 1)
            || (d.len() >= 4 && d[0] == 0 && d[1] == 0 && d[2] == 0 && d[3] == 1)
            ==> entries_bytes(parse_all_from(d, start_codes(d), 0)->Ok_0, 0) == d,
{
    lemma_entries_bytes(d, 0);
    assert(d.subrange(0, d.len() as int) =~= d);
}

/// An Annex B entry that parses serializes back to the same bytes.
pub proof fn lemma_annex_b_roundtrip(d: Seq<u8>)
    requires
        parse_annex_b_spec(d) is Ok,
    ensures
        ({
            let (sc, h, rbsp) = parse_annex_b_spec(d)->Ok_0;
            annex_b_bytes(sc, h, rbsp) == d
        }),
{
    let k: int = if d[0] == 0 && d[1] == 0 && d[2] == 1 { 3 } else { 4 };
    let rest = d.subrange(k, d.len() as int);
    crate::h265::nal::lemma_header_bytes_roundtrip(rest[0], rest[1]);
    let (sc, h, rbsp) = parse_annex_b_spec(d)->Ok_0;
    assert(start_code_bytes(sc) =~= d.subrange(0, k));
    assert(header_bytes(h) + rbsp =~= rest);
    assert(d =~= d.subrange(0, k) + rest);
}

} // verus!
