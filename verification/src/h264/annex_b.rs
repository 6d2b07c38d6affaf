//! Annex B byte stream: NAL units each preceded by a start code
//! (`00 00 01` or `00 00 00 01`).

use vstd::prelude::*;
use crate::bytes::extend;
use crate::h264::error::Error;
use crate::h264::nal::{Header, NalUnit, header_byte, header_of_byte, parse_nal_unit_spec, lemma_nal_unit_type_roundtrip};

verus! {

/// Start code preceding a NAL unit.
#[derive(Debug, Clone, Copy, PartialEq, Eq, Structural)]
pub enum StartCode {
    /// `[0x00, 0x00, 0x01]`
    ThreeBytes,
    /// `[0x00, 0x00, 0x00, 0x01]`
    FourBytes,
}

/// The bytes of a start code.
pub open spec fn start_code_bytes(sc: StartCode) -> Seq<u8> {
    match sc {
        StartCode::ThreeBytes => seq![0u8, 0u8, 1u8],
        StartCode::FourBytes => seq![0u8, 0u8, 0u8, 1u8],
    }
}

impl StartCode {
    /// The bytes of this start code.
    pub fn as_bytes(&self) -> (r: Vec<u8>)
        ensures
            r@ == start_code_bytes(*self),
    {
        match self {
            StartCode::ThreeBytes => {
                let v: Vec<u8> = vec![0x00, 0x00, 0x01];
                assert(v@ =~= start_code_bytes(*self));
                v
            },
            StartCode::FourBytes => {
                let v: Vec<u8> = vec![0x00, 0x00, 0x00, 0x01];
                assert(v@ =~= start_code_bytes(*self));
                v
            },
        }
    }
}

/// One Annex B entry: start code and NAL unit.
#[derive(Debug)]
pub struct AnnexB {
    pub start_code: StartCode,
    pub nal_unit: NalUnit,
}

/// The big-endian value of the first four bytes.
pub open spec fn be_u32_of(d: Seq<u8>) -> u32 {
    ((d[0] as nat) * 0x100_0000 + (d[1] as nat) * 0x1_0000 + (d[2] as nat) * 0x100 + d[3] as nat) as u32
}

/// Parsing one Annex B entry: the start code, and the NAL unit that follows.
pub open spec fn parse_annex_b_spec(d: Seq<u8>) -> Result<(StartCode, Header, Seq<u8>), Error> {
    if d.len() < 4 {
        Err(Error::DataTooShort)
    } else if d[0] == 0 && d[1] == 0 && d[2] == 1 {
        match parse_nal_unit_spec(d.subrange(3, d.len() as int)) {
            Ok((h, rbsp)) => Ok((StartCode::ThreeBytes, h, rbsp)),
            Err(e) => Err(e),
        }
    } else if d[0] == 0 && d[1] == 0 && d[2] == 0 && d[3] == 1 {
        match parse_nal_unit_spec(d.subrange(4, d.len() as int)) {
            Ok((h, rbsp)) => Ok((StartCode::FourBytes, h, rbsp)),
            Err(e) => Err(e),
        }
    } else {
        Err(Error::InvalidStartCode(be_u32_of(d)))
    }
}

/// The bytes of an Annex B entry.
pub open spec fn annex_b_bytes(sc: StartCode, h: Header, rbsp: Seq<u8>) -> Seq<u8> {
    start_code_bytes(sc) + (seq![header_byte(h)] + rbsp)
}

impl AnnexB {
    /// Parse a single Annex B entry from a byte slice starting with a start code.
    pub fn parse(data: &[u8]) -> (r: Result<Self, Error>)
        ensures
            match parse_annex_b_spec(data@) {
                Ok((sc, h, rbsp)) => r matches Ok(a) && a.start_code == sc && a.nal_unit.header == h
                    && a.nal_unit.rbsp@ == rbsp,
                Err(e) => r == Err::<Self, Error>(e),
            },
    {
        if data.len() < 4 {
            return Err(Error::DataTooShort);
        }
        if data[0] == 0x00 && data[1] == 0x00 && data[2] == 0x01 {
            let rest = vstd::slice::slice_subrange(data, 3, data.len());
            match NalUnit::parse(rest) {
                Ok(nal_unit) => Ok(AnnexB { start_code: StartCode::ThreeBytes, nal_unit }),
                Err(e) => Err(e),
            }
        } else if data[0] == 0x00 && data[1] == 0x00 && data[2] == 0x00 && data[3] == 0x01 {
            let rest = vstd::slice::slice_subrange(data, 4, data.len());
            match NalUnit::parse(rest) {
                Ok(nal_unit) => Ok(AnnexB { start_code: StartCode::FourBytes, nal_unit }),
                Err(e) => Err(e),
            }
        } else {
            let value: u32 = (data[0] as u32) * 0x100_0000 + (data[1] as u32) * 0x1_0000
                + (data[2] as u32) * 0x100 + data[3] as u32;
            Err(Error::InvalidStartCode(value))
        }
    }

    /// Serialize the start code and NAL unit back into a byte stream.
    pub fn to_bytes(&self) -> (r: Vec<u8>)
        ensures
            r@ == annex_b_bytes(self.start_code, self.nal_unit.header, self.nal_unit.rbsp@),
    {
        let mut buf = self.start_code.as_bytes();
        let nal = self.nal_unit.to_bytes();
        extend(&mut buf, nal.as_slice());
        buf
    }
}

/// A parsed header byte serializes back to the same byte.
pub proof fn lemma_header_byte_roundtrip(b: u8)
    requires
        b & 0b1000_0000u8 == 0,
    ensures
        header_byte(header_of_byte(b)) == b,
{
    let t = b & 0b0001_1111u8;
    lemma_nal_unit_type_roundtrip(t);
    assert((((b & 0b0110_0000u8) >> 5u8) << 5u8) | (b & 0b0001_1111u8) == b) by (bit_vector)
        requires b & 0b1000_0000u8 == 0;
}

/// An Annex B entry that parses serializes back to the same bytes.
pub proof fn lemma_annex_b_roundtrip(d: Seq<u8>)
    requires
        parse_annex_b_spec(d) is Ok,
    ensures
        ({
            let (sc, h, rbsp) = parse_annex_b_spec(d)->Ok_0;
            annex_b_bytes(sc, h, rbsp) == d
        }),
{
    let k: int = if d[0] == 0 && d[1] == 0 && d[2] == 1 { 3 } else { 4 };
    let rest = d.subrange(k, d.len() as int);
    lemma_header_byte_roundtrip(rest[0]);
    let (sc, h, rbsp) = parse_annex_b_spec(d)->Ok_0;
    assert(start_code_bytes(sc) =~= d.subrange(0, k));
    assert(seq![header_byte(h)] + rbsp =~= rest);
    assert(d =~= d.subrange(0, k) + rest);
}

/// Start code positions, scanning from position `i`: a start code at `i`
/// is recorded and skipped; otherwise scanning moves on by one byte.
pub open spec fn start_codes_from(d: Seq<u8>, i: nat) -> Seq<nat>
    decreases d.len() - i,
{
    if i + 2 >= d.len() {
        Seq::empty()
    } else if d[i as int] == 0 && d[i as int + 1] == 0 && d[i as int + 2] == 1 {
        seq![i] + start_codes_from(d, i + 3)
    } else if d[i as int] == 0 && d[i as int + 1] == 0 && i + 3 < d.len() && d[i as int + 2] == 0 && d[i as int + 3] == 1 {
        seq![i] + start_codes_from(d, i + 4)
    } else {
        start_codes_from(d, i + 1)
    }
}

/// Start code positions of a byte stream.
pub open spec fn start_codes(d: Seq<u8>) -> Seq<nat> {
    start_codes_from(d, 0)
}

/// The byte range of the `k`-th entry: from its start code to the next one.
pub open spec fn segment(d: Seq<u8>, pos: Seq<nat>, k: int) -> Seq<u8> {
    let end: int = if k + 1 < pos.len() { pos[k + 1] as int } else { d.len() as int };
    d.subrange(pos[k] as int, end)
}

/// Parsing every entry of a byte stream, stopping at the first error.
pub open spec fn parse_all_from(d: Seq<u8>, pos: Seq<nat>, k: nat) -> Result<Seq<(StartCode, Header, Seq<u8>)>, Error>
    decreases pos.len() - k,
{
    if k >= pos.len() {
        Ok(Seq::empty())
    } else {
        match parse_annex_b_spec(segment(d, pos, k as int)) {
            Err(e) => Err(e),
            Ok(x) => match parse_all_from(d, pos, k + 1) {
                Err(e) => Err(e),
                Ok(rest) => Ok(seq![x] + rest),
            },
        }
    }
}

/// Whether an Annex B entry holds a given model.
pub open spec fn annex_b_is(a: AnnexB, m: (StartCode, Header, Seq<u8>)) -> bool {
    a.start_code == m.0 && a.nal_unit.header == m.1 && a.nal_unit.rbsp@ == m.2
}

/// Positions of all start codes (3-byte or 4-byte) in the byte slice.
pub(crate) fn find_start_codes(data: &[u8]) -> (r: Vec<usize>)
    ensures
        r@.len() == start_codes(data@).len(),
        forall|k: int| 0 <= k < r@.len() ==> r@[k] as nat == #[trigger] start_codes(data@)[k],
{
    let mut positions: Vec<usize> = Vec::new();
    let mut i: usize = 0;
    let ghost d = data@;
    while data.len() - i > 2
        invariant
            d == data@,
            i <= data@.len(),
            positions@.map_values(|p: usize| p as nat) + start_codes_from(d, i as nat) == start_codes(d),
        decreases data@.len() - i,
    {
        let ghost before = positions@;
        if data[i] == 0x00 && data[i + 1] == 0x00 {
            if data[i + 2] == 0x01 {
                positions.push(i);
                i = i + 3;
                proof {
                    assert(positions@.map_values(|p: usize| p as nat) =~= before.map_values(|p: usize| p as nat).push((i - 3) as nat));
                    assert(positions@.map_values(|p: usize| p as nat) + start_codes_from(d, i as nat) =~= before.map_values(|p: usize| p as nat) + (seq![(i - 3) as nat] + start_codes_from(d, i as nat)));
                }
            } else if i + 3 < data.len() && data[i + 2] == 0x00 && data[i + 3] == 0x01 {
                positions.push(i);
                i = i + 4;
                proof {
                    assert(positions@.map_values(|p: usize| p as nat) =~= before.map_values(|p: usize| p as nat).push((i - 4) as nat));
                    assert(positions@.map_values(|p: usize| p as nat) + start_codes_from(d, i as nat) =~= before.map_values(|p: usize| p as nat) + (seq![(i - 4) as nat] + start_codes_from(d, i as nat)));
                }
            } else {
                i = i + 1;
            }
        } else {
            i = i + 1;
        }
    }
    proof {
        assert(start_codes_from(d, i as nat) =~= Seq::<nat>::empty());
        assert(positions@.map_values(|p: usize| p as nat) =~= start_codes(d));
        assert forall|k: int| 0 <= k < positions@.len() implies positions@[k] as nat == #[trigger] start_codes(data@)[k] by {
            assert(positions@.map_values(|p: usize| p as nat)[k] == positions@[k] as nat);
        }
    }
    positions
}

/// Facts about start code positions: increasing, and within the stream.
pub(crate) proof fn lemma_start_codes_from(d: Seq<u8>, i: nat)
    ensures
        forall|k: int| 0 <= k < start_codes_from(d, i).len() ==> i <= #[trigger] start_codes_from(d, i)[k] < d.len(),
        forall|k: int, l: int| 0 <= k < l < start_codes_from(d, i).len() ==> start_codes_from(d, i)[k] < start_codes_from(d, i)[l],
    decreases d.len() - i,
{
    let s = start_codes_from(d, i);
    if i + 2 >= d.len() {
    } else if d[i as int] == 0 && d[i as int + 1] == 0 && d[i as int + 2] == 1 {
        lemma_start_codes_from(d, i + 3);
        let t = start_codes_from(d, i + 3);
        assert(s == seq![i] + t);
        assert forall|k: int| 0 <= k < s.len() implies i <= #[trigger] s[k] < d.len() by {
            if k > 0 { assert(s[k] == t[k - 1]); }
        }
        assert forall|k: int, l: int| 0 <= k < l < s.len() implies s[k] < s[l] by {
            assert(s[l] == t[l - 1]);
            if k > 0 { assert(s[k] == t[k - 1]); }
        }
    } else if d[i as int] == 0 && d[i as int + 1] == 0 && i + 3 < d.len() && d[i as int + 2] == 0 && d[i as int + 3] == 1 {
        lemma_start_codes_from(d, i + 4);
        let t = start_codes_from(d, i + 4);
        assert(s == seq![i] + t);
        assert forall|k: int| 0 <= k < s.len() implies i <= #[trigger] s[k] < d.len() by {
            if k > 0 { assert(s[k] == t[k - 1]); }
        }
        assert forall|k: int, l: int| 0 <= k < l < s.len() implies s[k] < s[l] by {
            assert(s[l] == t[l - 1]);
            if k > 0 { assert(s[k] == t[k - 1]); }
        }
    } else {
        lemma_start_codes_from(d, i + 1);
        let t = start_codes_from(d, i + 1);
        assert(s == t);
        assert forall|k: int| 0 <= k < s.len() implies i <= #[trigger] s[k] < d.len() by {
            assert(s[k] == t[k]);
        }
    }
}

/// Parse a byte stream into Annex B entries by splitting at start codes.
/// Bytes before the first start code are ignored.
pub fn parse_all(data: &[u8]) -> (r: Result<Vec<AnnexB>, Error>)
    ensures
        match parse_all_from(data@, start_codes(data@), 0) {
            Ok(ms) => r matches Ok(v) && v@.len() == ms.len() && forall|k: int|
                0 <= k < ms.len() ==> annex_b_is(#[trigger] v@[k], ms[k]),
            Err(e) => r == Err::<Vec<AnnexB>, Error>(e),
        },
        r matches Ok(v) ==> forall|k: int| 0 <= k < v@.len() ==> (#[trigger] v@[k]).nal_unit.rbsp@.len() <= data@.len(),
{
    let mut result: Vec<AnnexB> = Vec::new();
    let positions = find_start_codes(data);
    let ghost pos = start_codes(data@);
    proof {
        lemma_start_codes_from(data@, 0);
    }
    let mut i: usize = 0;
    while i < positions.len()
        invariant
            i <= positions@.len(),
            pos == start_codes(data@),
            positions@.len() == pos.len(),
            forall|k: int| 0 <= k < positions@.len() ==> positions@[k] as nat == #[trigger] pos[k],
            forall|k: int| 0 <= k < pos.len() ==> #[trigger] pos[k] < data@.len(),
            forall|k: int, l: int| 0 <= k < l < pos.len() ==> pos[k] < pos[l],
            result@.len() == i,
            forall|k: int| 0 <= k < i ==> #[trigger] parse_annex_b_spec(segment(data@, pos, k)) is Ok,
            forall|k: int| 0 <= k < i ==> annex_b_is(#[trigger] result@[k], parse_annex_b_spec(segment(data@, pos, k))->Ok_0),
            forall|k: int| 0 <= k < i ==> (#[trigger] result@[k]).nal_unit.rbsp@.len() <= data@.len(),
        decreases positions@.len() - i,
    {
        let start = positions[i];
        let end = if i + 1 < positions.len() { positions[i + 1] } else { data.len() };
        proof {
            assert(pos[i as int] == start as nat);
            if i + 1 < positions@.len() {
                assert(pos[i + 1] == end as nat);
            }
        }
        let seg = vstd::slice::slice_subrange(data, start, end);
        assert(seg@ == segment(data@, pos, i as int));
        match AnnexB::parse(seg) {
            Ok(a) => {
                let ghost before = result@;
                result.push(a);
                proof {
                    assert(parse_annex_b_spec(segment(data@, pos, i as int)) is Ok);
                    assert forall|k: int| 0 <= k < i + 1 implies annex_b_is(#[trigger] result@[k], parse_annex_b_spec(segment(data@, pos, k))->Ok_0) by {
                        if k < i {
                            assert(result@[k] == before[k]);
                        }
                    }
                    assert(a.nal_unit.rbsp@.len() <= seg@.len());
                    assert forall|k: int| 0 <= k < i + 1 implies (#[trigger] result@[k]).nal_unit.rbsp@.len() <= data@.len() by {
                        if k < i {
                            assert(result@[k] == before[k]);
                        }
                    }
                }
            },
            Err(e) => {
                proof {
                    lemma_parse_all_prefix(data@, pos, i as nat);
                }
                return Err(e);
            },
        }
        i = i + 1;
    }
    proof {
        lemma_parse_all_ok(data@, pos, 0);
    }
    Ok(result)
}

/// When the entries before `k` parse, parsing all of them fails exactly as
/// entry `k` does.
proof fn lemma_parse_all_prefix(d: Seq<u8>, pos: Seq<nat>, k: nat)
    requires
        k < pos.len(),
        forall|j: int| 0 <= j < k ==> #[trigger] parse_annex_b_spec(segment(d, pos, j)) is Ok,
        parse_annex_b_spec(segment(d, pos, k as int)) is Err,
    ensures
        parse_all_from(d, pos, 0) == Err::<Seq<(StartCode, Header, Seq<u8>)>, Error>(
            parse_annex_b_spec(segment(d, pos, k as int))->Err_0,
        ),
    decreases k,
{
    lemma_parse_all_prefix_from(d, pos, 0, k);
}

proof fn lemma_parse_all_prefix_from(d: Seq<u8>, pos: Seq<nat>, j: nat, k: nat)
    requires
        j <= k < pos.len(),
        forall|m: int| j <= m < k ==> #[trigger] parse_annex_b_spec(segment(d, pos, m)) is Ok,
        parse_annex_b_spec(segment(d, pos, k as int)) is Err,
    ensures
        parse_all_from(d, pos, j) == Err::<Seq<(StartCode, Header, Seq<u8>)>, Error>(
            parse_annex_b_spec(segment(d, pos, k as int))->Err_0,
        ),
    decreases k - j,
{
    if j < k {
        lemma_parse_all_prefix_from(d, pos, j + 1, k);
        assert(parse_annex_b_spec(segment(d, pos, j as int)) is Ok);
    }
}

/// When every entry from `j` on parses, parsing all of them gives their models.
proof fn lemma_parse_all_ok(d: Seq<u8>, pos: Seq<nat>, j: nat)
    requires
        j <= pos.len(),
        forall|m: int| j <= m < pos.len() ==> #[trigger] parse_annex_b_spec(segment(d, pos, m)) is Ok,
    ensures
        parse_all_from(d, pos, j) is Ok,
        parse_all_from(d, pos, j)->Ok_0.len() == pos.len() - j,
        forall|m: int| 0 <= m < pos.len() - j ==> parse_all_from(d, pos, j)->Ok_0[m] == #[trigger] parse_annex_b_spec(segment(d, pos, j + m))->Ok_0,
    decreases pos.len() - j,
{
    if j < pos.len() {
        lemma_parse_all_ok(d, pos, j + 1);
        let rest = parse_all_from(d, pos, j + 1)->Ok_0;
        let x = parse_annex_b_spec(segment(d, pos, j as int))->Ok_0;
        assert(parse_all_from(d, pos, j)->Ok_0 == seq![x] + rest);
        assert forall|m: int| 0 <= m < pos.len() - j implies parse_all_from(d, pos, j)->Ok_0[m] == #[trigger] parse_annex_b_spec(segment(d, pos, j + m))->Ok_0 by {
            if m > 0 {
                assert(rest[m - 1] == parse_annex_b_spec(segment(d, pos, (j + 1) + (m - 1)))->Ok_0);
            }
        }
    }
}

} // verus!
