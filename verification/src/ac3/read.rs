//! Reading the parts of an AC-3 frame. Each reader states the bits it
//! consumed: those of the layout of the value it returns.

use vstd::prelude::*;
use vstd::arithmetic::power2::pow2;
use crate::bitstream::BitstreamReader;
use crate::ac3::error::Error;
use crate::ac3::frame::{
    SyncInfo, AudioMode, BsiExtension, Xbsi1, Xbsi2, Addbsi, BitStreamInformation, AuxiliaryData, ErrorCheck,
};
use crate::ac3::layout::{
    ub, opt_bits, audprodi_bits, fields, si_bits, mode_bits, dual_bits, ext_bits, addbsi_bits, bsi_bits,
    bsi_id_bits, bsi_mid_bits, bsi_tail_bits, aux_bits, ec_bits, cmixlev_bits, surmixlev_bits, dsurmod_bits,
    lemma_cat3, lemma_cat4, lemma_cat5,
};
use crate::ac3::mantissa::{ac3_bits, lemma_ac3_bits};

verus! {

/// Read `n` bits (`n <= 32`).
pub(crate) fn ru(r: &mut BitstreamReader, n: u8) -> (res: Result<u32, Error>)
    requires
        n <= 32,
    ensures
        final(r).bytes() == old(r).bytes(),
        match ac3_bits(old(r).bits(), old(r).pos(), n as nat) {
            Ok((v, q)) => res == Ok::<u32, Error>(v) && final(r).pos() == q,
            Err(e) => res == Err::<u32, Error>(e) && final(r).pos() == old(r).pos(),
        },
        res is Ok ==> final(r).consumed() == old(r).consumed() + ub(res->Ok_0 as int, n as nat)
            && (res->Ok_0 as nat) < pow2(n as nat),
        res is Err ==> res->Err_0 is Bitstream,
{
    let ghost s = old(r).bits();
    let ghost p = old(r).pos();
    match r.read_bits(n) {
        Ok(v) => {
            proof {
                lemma_ac3_bits(s, p, n as nat);
                assert(s.subrange(0, (p + n) as int) =~= s.subrange(0, p as int) + s.subrange(p as int, (p + n) as int));
            }
            Ok(v)
        },
        Err(e) => Err(Error::Bitstream(e)),
    }
}

/// The bits from `p` on begin with `t`.
pub open spec fn starts_with(s: Seq<bool>, p: nat, t: Seq<bool>) -> bool {
    p + t.len() <= s.len() && s.subrange(p as int, (p + t.len()) as int) == t
}

/// Two layouts of one length that the bits from `p` both begin with are
/// the same.
proof fn lemma_starts_with_same(s: Seq<bool>, p: nat, t: Seq<bool>, u: Seq<bool>)
    requires
        starts_with(s, p, t),
        starts_with(s, p, u),
        t.len() == u.len(),
    ensures
        t == u,
{
}

/// A layout that the bits from `p` begin with starts with the bit at `p`.
proof fn lemma_starts_first(s: Seq<bool>, p: nat, t: Seq<bool>)
    requires
        starts_with(s, p, t),
        t.len() > 0,
    ensures
        p < s.len(),
        t[0] == s[p as int],
{
    assert(s.subrange(p as int, (p + t.len()) as int)[0] == s[p as int]);
}

/// Beginning with `a + b` is beginning with `a`, then with `b` after it.
pub(crate) proof fn lemma_starts_with_cat(s: Seq<bool>, p: nat, a: Seq<bool>, b: Seq<bool>)
    requires
        starts_with(s, p, a + b),
    ensures
        starts_with(s, p, a),
        starts_with(s, p + a.len(), b),
{
    assert(s.subrange(p as int, (p + a.len()) as int) =~= (a + b).subrange(0, a.len() as int));
    assert(s.subrange((p + a.len()) as int, (p + a.len() + b.len()) as int) =~= (a + b).subrange(a.len() as int, (a + b).len() as int));
    assert((a + b).subrange(0, a.len() as int) =~= a);
    assert((a + b).subrange(a.len() as int, (a + b).len() as int) =~= b);
}

/// Beginning with `a`, then with `b` after it, is beginning with `a + b`.
proof fn lemma_starts_with_join(s: Seq<bool>, p: nat, a: Seq<bool>, b: Seq<bool>)
    requires
        starts_with(s, p, a),
        starts_with(s, p + a.len(), b),
    ensures
        starts_with(s, p, a + b),
{
    assert forall|i: int| 0 <= i < (a + b).len() implies s.subrange(p as int, (p + a.len() + b.len()) as int)[i] == (a + b)[i] by {
        if i < a.len() {
            assert(s.subrange(p as int, (p + a.len()) as int)[i] == s[p + i]);
        } else {
            assert(s.subrange((p + a.len()) as int, (p + a.len() + b.len()) as int)[i - a.len()] == s[p + i]);
        }
    }
    assert(s.subrange(p as int, (p + a.len() + b.len()) as int) =~= a + b);
}

/// What a reader consumed from `p` on, the bits begin with.
proof fn lemma_consumed_starts(s: Seq<bool>, p: nat, q: nat, t: Seq<bool>)
    requires
        p <= s.len(),
        q <= s.len(),
        s.subrange(0, q as int) == s.subrange(0, p as int) + t,
    ensures
        starts_with(s, p, t),
        q == p + t.len(),
{
    assert(s.subrange(0, q as int).len() == q);
    assert forall|i: int| 0 <= i < t.len() implies s.subrange(p as int, (p + t.len()) as int)[i] == t[i] by {
        assert(s.subrange(0, q as int)[p + i] == s[p + i]);
        assert((s.subrange(0, p as int) + t)[p + i] == t[i]);
    }
    assert(s.subrange(p as int, (p + t.len()) as int) =~= t);
}

/// Equal layouts of values below `2^n` are of equal values.
proof fn lemma_ub_injective(v: int, w: int, n: nat)
    requires
        n <= 32,
        0 <= v < pow2(n),
        0 <= w < pow2(n),
        ub(v, n) == ub(w, n),
    ensures
        v == w,
{
    vstd::arithmetic::power2::lemma2_to64();
    if n < 32 {
        vstd::arithmetic::power2::lemma_pow2_strictly_increases(n, 32);
    }
    crate::bitstream::lemma_seq_val_u32_bits(v as u32, n);
    crate::bitstream::lemma_seq_val_u32_bits(w as u32, n);
    vstd::arithmetic::div_mod::lemma_small_mod(v as nat, pow2(n));
    vstd::arithmetic::div_mod::lemma_small_mod(w as nat, pow2(n));
}

/// The bits of a time code: a presence flag and 14 bits.
pub open spec fn timecod_bits(o: Option<u16>) -> Seq<bool> {
    match o {
        Some(t) => seq![true] + ub(t as int, 14),
        None => seq![false],
    }
}

/// Read an `n`-bit field (`n <= 8`) into a byte.
pub(crate) fn ru8(r: &mut BitstreamReader, n: u8) -> (res: Result<u8, Error>)
    requires
        n <= 8,
    ensures
        final(r).bytes() == old(r).bytes(),
        res is Ok <==> old(r).pos() + n <= old(r).bits().len(),
        res is Ok ==> final(r).consumed() == old(r).consumed() + ub(res->Ok_0 as int, n as nat)
            && (res->Ok_0 as nat) < pow2(n as nat) && final(r).pos() == old(r).pos() + n,
        res is Err ==> res->Err_0 is Bitstream && final(r).pos() == old(r).pos(),
{
    let v = ru(r, n)?;
    proof {
        vstd::arithmetic::power2::lemma2_to64();
        if n < 8 {
            vstd::arithmetic::power2::lemma_pow2_strictly_increases(n as nat, 8);
        }
    }
    Ok(v as u8)
}

/// Read an `n`-bit field (`n <= 16`) into a 16-bit number.
pub(crate) fn ru16(r: &mut BitstreamReader, n: u8) -> (res: Result<u16, Error>)
    requires
        n <= 16,
    ensures
        final(r).bytes() == old(r).bytes(),
        res is Ok <==> old(r).pos() + n <= old(r).bits().len(),
        res is Ok ==> final(r).consumed() == old(r).consumed() + ub(res->Ok_0 as int, n as nat)
            && (res->Ok_0 as nat) < pow2(n as nat) && final(r).pos() == old(r).pos() + n,
        res is Err ==> res->Err_0 is Bitstream && final(r).pos() == old(r).pos(),
{
    let v = ru(r, n)?;
    proof {
        vstd::arithmetic::power2::lemma2_to64();
        if n < 16 {
            vstd::arithmetic::power2::lemma_pow2_strictly_increases(n as nat, 16);
        }
    }
    Ok(v as u16)
}

/// Read a one-bit flag.
pub(crate) fn rflag(r: &mut BitstreamReader) -> (res: Result<bool, Error>)
    ensures
        final(r).bytes() == old(r).bytes(),
        res is Ok <==> old(r).pos() < old(r).bits().len(),
        res is Ok ==> final(r).consumed() == old(r).consumed() + seq![res->Ok_0] && final(r).pos() == old(r).pos() + 1,
        res is Err ==> res->Err_0 is Bitstream && final(r).pos() == old(r).pos(),
{
    let ghost s = old(r).bits();
    let ghost p = old(r).pos();
    match r.read_bit() {
        Ok(b) => {
            proof {
                assert(s.subrange(0, (p + 1) as int) =~= s.subrange(0, p as int) + seq![b]);
            }
            Ok(b)
        },
        Err(e) => Err(Error::Bitstream(e)),
    }
}

/// Read a presence flag and an `n`-bit field behind it.
pub(crate) fn ropt(r: &mut BitstreamReader, n: u8) -> (res: Result<Option<u8>, Error>)
    requires
        n <= 8,
    ensures
        final(r).bytes() == old(r).bytes(),
        res is Ok ==> final(r).consumed() == old(r).consumed() + opt_bits(res->Ok_0, n as nat)
            && (res->Ok_0 matches Some(v) ==> (v as nat) < pow2(n as nat))
            && old(r).pos() < final(r).pos() <= old(r).pos() + 1 + n,
        res is Err ==> res->Err_0 is Bitstream,
        old(r).pos() + 1 + n <= old(r).bits().len() ==> res is Ok,
        old(r).pos() < old(r).bits().len() && !old(r).bits()[old(r).pos() as int] ==> res is Ok,
        res matches Ok(o) ==> (o is Some <==> old(r).bits()[old(r).pos() as int])
            && final(r).pos() == old(r).pos() + 1 + (if o is Some { n as nat } else { 0nat }),
        res is Ok ==> starts_with(old(r).bits(), old(r).pos(), opt_bits(res->Ok_0, n as nat))
            && final(r).pos() == old(r).pos() + opt_bits(res->Ok_0, n as nat).len(),
        forall|x: Option<u8>| #[trigger] starts_with(old(r).bits(), old(r).pos(), opt_bits(x, n as nat))
            ==> res is Ok && opt_bits(res->Ok_0, n as nat) == opt_bits(x, n as nat),
{
    let ghost s = old(r).bits();
    let ghost p = old(r).pos();
    proof {
        assert forall|x: Option<u8>| #[trigger] starts_with(s, p, opt_bits(x, n as nat)) implies p < s.len() && opt_bits(x, n as nat)[0] == s[p as int] by {
            lemma_starts_first(s, p, opt_bits(x, n as nat));
        }
    }
    let ghost c0 = r.consumed();
    let ghost s = old(r).bits();
    let ghost p = old(r).pos();
    let flag = rflag(r)?;
    assert(r.consumed()[p as int] == s[p as int]);
    if flag {
        assert(r.consumed()[p as int] == s[p as int]);
        let v = ru8(r, n)?;
        assert(r.consumed() =~= c0 + opt_bits(Some(v), n as nat));
        proof {
            lemma_consumed_starts(s, p, r.pos(), opt_bits(Some(v), n as nat));
            assert forall|y: Option<u8>| #[trigger] starts_with(s, p, opt_bits(y, n as nat)) implies opt_bits(Some(v), n as nat) == opt_bits(y, n as nat) by {
                lemma_starts_first(s, p, opt_bits(y, n as nat));
                lemma_starts_first(s, p, opt_bits(Some(v), n as nat));
                lemma_starts_with_same(s, p, opt_bits(Some(v), n as nat), opt_bits(y, n as nat));
            }
        }
        Ok(Some(v))
    } else {
        assert(r.consumed()[p as int] == s[p as int]);
        assert(r.consumed() =~= c0 + opt_bits(None, n as nat));
        proof {
            lemma_consumed_starts(s, p, r.pos(), opt_bits(None, n as nat));
            assert forall|y: Option<u8>| #[trigger] starts_with(s, p, opt_bits(y, n as nat)) implies opt_bits(None, n as nat) == opt_bits(y, n as nat) by {
                lemma_starts_first(s, p, opt_bits(y, n as nat));
                lemma_starts_first(s, p, opt_bits(None, n as nat));
                lemma_starts_with_same(s, p, opt_bits(None, n as nat), opt_bits(y, n as nat));
            }
        }
        Ok(None)
    }
}

/// Read a presence flag and `(mixlevel, roomtyp)`.
fn raudprodi(r: &mut BitstreamReader) -> (res: Result<Option<(u8, u8)>, Error>)
    ensures
        final(r).bytes() == old(r).bytes(),
        res is Ok ==> final(r).consumed() == old(r).consumed() + audprodi_bits(res->Ok_0)
            && (res->Ok_0 matches Some((m, t)) ==> m < 32 && t < 4)
            && old(r).pos() < final(r).pos() <= old(r).pos() + 8,
        res is Err ==> res->Err_0 is Bitstream,
        old(r).pos() + 8 <= old(r).bits().len() ==> res is Ok,
        res is Ok ==> starts_with(old(r).bits(), old(r).pos(), audprodi_bits(res->Ok_0))
            && final(r).pos() == old(r).pos() + audprodi_bits(res->Ok_0).len(),
        forall|x: Option<(u8, u8)>| #[trigger] starts_with(old(r).bits(), old(r).pos(), audprodi_bits(x))
            ==> res is Ok && audprodi_bits(res->Ok_0) == audprodi_bits(x),
{
    let ghost s = old(r).bits();
    let ghost p = old(r).pos();
    proof {
        assert forall|x: Option<(u8, u8)>| #[trigger] starts_with(s, p, audprodi_bits(x)) implies p < s.len() && audprodi_bits(x)[0] == s[p as int] by {
            lemma_starts_first(s, p, audprodi_bits(x));
        }
    }
    let ghost c0 = r.consumed();
    proof {
        vstd::arithmetic::power2::lemma2_to64();
    }
    let flag = rflag(r)?;
    assert(r.consumed()[p as int] == s[p as int]);
    if flag {
        let m = ru8(r, 5)?;
        let t = ru8(r, 2)?;
        assert(r.consumed() =~= c0 + audprodi_bits(Some((m, t))));
        proof {
            lemma_consumed_starts(s, p, r.pos(), audprodi_bits(Some((m, t))));
            assert forall|y: Option<(u8, u8)>| #[trigger] starts_with(s, p, audprodi_bits(y)) implies audprodi_bits(Some((m, t))) == audprodi_bits(y) by {
                lemma_starts_first(s, p, audprodi_bits(y));
                lemma_starts_first(s, p, audprodi_bits(Some((m, t))));
                lemma_starts_with_same(s, p, audprodi_bits(Some((m, t))), audprodi_bits(y));
            }
        }
        Ok(Some((m, t)))
    } else {
        assert(r.consumed() =~= c0 + audprodi_bits(None));
        proof {
            lemma_consumed_starts(s, p, r.pos(), audprodi_bits(None));
            assert forall|y: Option<(u8, u8)>| #[trigger] starts_with(s, p, audprodi_bits(y)) implies audprodi_bits(None) == audprodi_bits(y) by {
                lemma_starts_first(s, p, audprodi_bits(y));
                lemma_starts_first(s, p, audprodi_bits(None));
                lemma_starts_with_same(s, p, audprodi_bits(None), audprodi_bits(y));
            }
        }
        Ok(None)
    }
}

/// Read `n` fields of `k` bits each (`k <= 8`).
pub(crate) fn rfields(r: &mut BitstreamReader, n: usize, k: u8) -> (res: Result<Vec<u8>, Error>)
    requires
        k <= 8,
    ensures
        final(r).bytes() == old(r).bytes(),
        res is Ok ==> final(r).consumed() == old(r).consumed() + fields(res->Ok_0@, k as nat)
            && res->Ok_0@.len() == n
            && forall|i: int| 0 <= i < n ==> (#[trigger] res->Ok_0@[i] as nat) < pow2(k as nat),
        res is Ok ==> final(r).pos() == old(r).pos() + n * k,
        res is Ok && n > 0 ==> final(r).pos() <= old(r).bits().len(),
        res is Err ==> res->Err_0 is Bitstream,
        old(r).pos() + n * k <= old(r).bits().len() ==> res is Ok,
{
    let ghost c0 = r.consumed();
    let mut v: Vec<u8> = Vec::new();
    let mut i: usize = 0;
    while i < n
        invariant
            k <= 8,
            i <= n,
            v@.len() == i,
            r.bytes() == old(r).bytes(),
            r.consumed() == c0 + fields(v@, k as nat),
            forall|j: int| 0 <= j < i ==> (#[trigger] v@[j] as nat) < pow2(k as nat),
            r.pos() == old(r).pos() + i * k,
            r.bits() == old(r).bits(),
            old(r).pos() + n * k <= old(r).bits().len() ==> old(r).pos() + n * k <= r.bits().len(),
            i > 0 ==> r.pos() <= r.bits().len(),
        decreases n - i,
    {
        let ghost p0 = old(r).pos();
        let ghost pc = r.pos();
        let ghost len = r.bits().len();
        assert(p0 + n * k <= len ==> pc + k <= len) by (nonlinear_arith)
            requires pc == p0 + i * k, i < n;
        let x = ru8(r, k)?;
        let ghost pn = r.pos();
        assert(pn == p0 + (i + 1) * k) by (nonlinear_arith)
            requires pn == p0 + i * k + k;
        let ghost v0 = v@;
        v.push(x);
        assert(v@.drop_last() =~= v0);
        i = i + 1;
    }
    Ok(v)
}

/// The fields of a sync information fit their widths.
pub open spec fn si_wf(si: SyncInfo) -> bool {
    si.fscod < 4 && si.frmsizecod < 64
}

/// Read the sync information (40 bits).
pub(crate) fn parse_si(r: &mut BitstreamReader) -> (res: Result<SyncInfo, Error>)
    ensures
        final(r).bytes() == old(r).bytes(),
        res is Ok <==> old(r).pos() + 40 <= old(r).bits().len(),
        res is Ok ==> final(r).consumed() == old(r).consumed() + si_bits(res->Ok_0) && si_wf(res->Ok_0),
        res is Err ==> res->Err_0 is Bitstream,
{
    let ghost c0 = r.consumed();
    proof {
        vstd::arithmetic::power2::lemma2_to64();
    }
    let syncword = ru16(r, 16)?;
    let crc1 = ru16(r, 16)?;
    let fscod = ru8(r, 2)?;
    let frmsizecod = ru8(r, 6)?;
    let si = SyncInfo { syncword, crc1, fscod, frmsizecod };
    assert(r.consumed() =~= c0 + si_bits(si));
    Ok(si)
}

/// The coding mode's fields fit their widths, and the mode is the one of
/// `acmod`.
pub open spec fn audio_mode_wf(acmod: u8, m: AudioMode) -> bool {
    match m {
        AudioMode::DualMono { dialnorm2, compr2, langcod2, audprodi2 } => acmod == 0 && dialnorm2 < 32
            && (audprodi2 matches Some((x, y)) ==> x < 32 && y < 4),
        AudioMode::Center => acmod == 1,
        AudioMode::Stereo { dsurmod } => acmod == 2 && dsurmod < 4,
        AudioMode::ThreeFront { cmixlev } => acmod == 3 && cmixlev < 4,
        AudioMode::StereoSurround { surmixlev } => acmod == 4 && surmixlev < 4,
        AudioMode::LcrSurround { cmixlev, surmixlev } => acmod == 5 && cmixlev < 4 && surmixlev < 4,
        AudioMode::Quad { surmixlev } => acmod == 6 && surmixlev < 4,
        AudioMode::FiveChannel { cmixlev, surmixlev } => acmod == 7 && cmixlev < 4 && surmixlev < 4,
    }
}

/// The extension is the one of `bsid`, its fields fit their widths.
pub open spec fn ext_wf(bsid: u8, e: BsiExtension) -> bool {
    match e {
        BsiExtension::AltBsi { xbsi1, xbsi2 } => bsid == 6
            && (xbsi1 matches Some(x) ==> x.dmixmod < 4 && x.ltrtcmixlev < 8 && x.ltrtsurmixlev < 8
                && x.lorocmixlev < 8 && x.lorosurmixlev < 8)
            && (xbsi2 matches Some(x) ==> x.dsurexmod < 4 && x.dheadphonmod < 4),
        BsiExtension::Standard { timecod1, timecod2 } => bsid != 6
            && (timecod1 matches Some(t) ==> t < 0x4000) && (timecod2 matches Some(t) ==> t < 0x4000),
    }
}

/// The fields of a bit stream information fit their widths, the coding
/// mode is the one of `acmod`, the extension the one of `bsid`, and the
/// additional BSI has `addbsil + 1` bytes.
pub open spec fn bsi_wf(b: BitStreamInformation) -> bool {
    &&& b.bsid < 32 && b.bsmod < 8 && b.acmod < 8 && b.dialnorm < 32
    &&& audio_mode_wf(b.acmod, b.audio_mode)
    &&& (b.audprodi matches Some((x, y)) ==> x < 32 && y < 4)
    &&& ext_wf(b.bsid, b.ext)
    &&& (b.addbsi matches Some(a) ==> a.addbsil < 64 && a.addbsi@.len() == a.addbsil + 1)
}

/// The most bits that a bit stream information takes.
pub open spec fn bsi_max_bits() -> nat {
    700
}

/// Read the mix levels and surround mode that the coding mode carries,
/// and the fields of a dual mono stream's second channel; build the mode.
fn parse_mode(r: &mut BitstreamReader, acmod: u8) -> (res: Result<AudioMode, Error>)
    requires
        acmod < 8,
        old(r).pos() <= old(r).bits().len(),
    ensures
        res is Ok ==> starts_with(old(r).bits(), old(r).pos(), mode_bits(acmod, res->Ok_0))
            && final(r).pos() == old(r).pos() + mode_bits(acmod, res->Ok_0).len(),
        forall|m: AudioMode| audio_mode_wf(acmod, m) && #[trigger] starts_with(old(r).bits(), old(r).pos(), mode_bits(acmod, m))
            ==> res is Ok && mode_bits(acmod, res->Ok_0) == mode_bits(acmod, m),
        final(r).bytes() == old(r).bytes(),
        res is Ok ==> final(r).consumed() == old(r).consumed() + mode_bits(acmod, res->Ok_0)
            && audio_mode_wf(acmod, res->Ok_0),
        res is Ok ==> old(r).pos() <= final(r).pos() <= old(r).pos() + 6,
        res is Err ==> res->Err_0 is Bitstream,
        old(r).pos() + 6 <= old(r).bits().len() ==> res is Ok,
{
    let ghost c0 = r.consumed();
    proof {
        vstd::arithmetic::power2::lemma2_to64();
    }
    proof {
        crate::ac3::layout::lemma_acmod_bits(acmod);
    }
    let ghost s = old(r).bits();
    let ghost p = old(r).pos();
    proof {
        assert forall|m: AudioMode| audio_mode_wf(acmod, m) && #[trigger] starts_with(s, p, mode_bits(acmod, m))
            implies p + mode_len(acmod) <= s.len() by {
            lemma_mode_len(acmod, m);
        }
    }
    let cmixlev = if (acmod & 0x1) != 0 && acmod != 0x1 { ru8(r, 2)? } else { 0 };
    let ghost c1 = r.consumed();
    let surmixlev = if (acmod & 0x4) != 0 { ru8(r, 2)? } else { 0 };
    let ghost c2 = r.consumed();
    let dsurmod = if acmod == 0x2 { ru8(r, 2)? } else { 0 };
    let m = match acmod {
        0 => AudioMode::DualMono { dialnorm2: 0, compr2: None, langcod2: None, audprodi2: None },
        1 => AudioMode::Center,
        2 => AudioMode::Stereo { dsurmod },
        3 => AudioMode::ThreeFront { cmixlev },
        4 => AudioMode::StereoSurround { surmixlev },
        5 => AudioMode::LcrSurround { cmixlev, surmixlev },
        6 => AudioMode::Quad { surmixlev },
        _ => AudioMode::FiveChannel { cmixlev, surmixlev },
    };
    assert(c1 == c0 + cmixlev_bits(acmod, m));
    assert(c2 == c1 + surmixlev_bits(acmod, m));
    assert(r.consumed() == c2 + dsurmod_bits(m));
    proof {
        lemma_cat3(c0, cmixlev_bits(acmod, m), surmixlev_bits(acmod, m), dsurmod_bits(m));
        lemma_mode_len(acmod, m);
        lemma_consumed_starts(s, p, r.pos(), mode_bits(acmod, m));
        assert forall|x: AudioMode| audio_mode_wf(acmod, x) && #[trigger] starts_with(s, p, mode_bits(acmod, x))
            implies mode_bits(acmod, m) == mode_bits(acmod, x) by {
            lemma_mode_len(acmod, x);
            lemma_starts_with_same(s, p, mode_bits(acmod, m), mode_bits(acmod, x));
        }
    }
    Ok(m)
}

/// The number of mix level and surround mode bits that coding mode
/// `acmod` carries.
pub open spec fn mode_len(acmod: u8) -> nat {
    if acmod == 5 || acmod == 7 { 4 } else if acmod >= 2 { 2 } else { 0 }
}

/// The mode bits of a mode of `acmod` take `mode_len(acmod)` bits.
proof fn lemma_mode_len(acmod: u8, m: AudioMode)
    requires
        audio_mode_wf(acmod, m),
    ensures
        mode_bits(acmod, m).len() == mode_len(acmod),
{
}

/// Read the second channel's fields of a dual mono stream.
fn parse_dual(r: &mut BitstreamReader) -> (res: Result<AudioMode, Error>)
    ensures
        final(r).bytes() == old(r).bytes(),
        res is Ok ==> final(r).consumed() == old(r).consumed() + dual_bits(res->Ok_0)
            && audio_mode_wf(0, res->Ok_0),
        res is Ok ==> old(r).pos() <= final(r).pos() <= old(r).pos() + 31,
        res is Err ==> res->Err_0 is Bitstream,
        old(r).pos() + 31 <= old(r).bits().len() ==> res is Ok,
        res is Ok ==> starts_with(old(r).bits(), old(r).pos(), dual_bits(res->Ok_0))
            && final(r).pos() == old(r).pos() + dual_bits(res->Ok_0).len(),
        forall|m: AudioMode| audio_mode_wf(0, m) && #[trigger] starts_with(old(r).bits(), old(r).pos(), dual_bits(m))
            ==> res is Ok && dual_bits(res->Ok_0) == dual_bits(m),
{
    let ghost c0 = r.consumed();
    let ghost s = old(r).bits();
    let ghost p = old(r).pos();
    proof {
        vstd::arithmetic::power2::lemma2_to64();
        assert forall|m: AudioMode| audio_mode_wf(0, m) && #[trigger] starts_with(s, p, dual_bits(m)) implies {
            let a = ub(m->dialnorm2 as int, 5);
            let b = opt_bits(m->compr2, 8);
            let c = opt_bits(m->langcod2, 8);
            let d = audprodi_bits(m->audprodi2);
            &&& p + 5 <= s.len()
            &&& starts_with(s, p + 5, b)
            &&& starts_with(s, p + 5 + b.len(), c)
            &&& starts_with(s, p + 5 + b.len() + c.len(), d)
        } by {
            let a = ub(m->dialnorm2 as int, 5);
            let b = opt_bits(m->compr2, 8);
            let c = opt_bits(m->langcod2, 8);
            let d = audprodi_bits(m->audprodi2);
            assert(dual_bits(m) == a + (b + (c + d))) by {
                assert(dual_bits(m) =~= a + (b + (c + d)));
            }
            lemma_starts_with_cat(s, p, a, b + (c + d));
            lemma_starts_with_cat(s, p + a.len(), b, c + d);
            lemma_starts_with_cat(s, p + a.len() + b.len(), c, d);
        }
    }
    let dialnorm2 = ru8(r, 5)?;
    let compr2 = ropt(r, 8)?;
    let langcod2 = ropt(r, 8)?;
    let audprodi2 = raudprodi(r)?;
    let m = AudioMode::DualMono { dialnorm2, compr2, langcod2, audprodi2 };
    proof {
        lemma_cat4(c0, ub(dialnorm2 as int, 5), opt_bits(compr2, 8), opt_bits(langcod2, 8), audprodi_bits(audprodi2));
        let a = ub(dialnorm2 as int, 5);
        let b = opt_bits(compr2, 8);
        let c = opt_bits(langcod2, 8);
        let d = audprodi_bits(audprodi2);
        assert(s.subrange(0, (p + 5) as int) == s.subrange(0, p as int) + a);
        lemma_consumed_starts(s, p, p + 5, a);
        lemma_starts_with_join(s, p + a.len() + b.len(), c, d);
        lemma_starts_with_join(s, p + a.len(), b, c + d);
        lemma_starts_with_join(s, p, a, b + (c + d));
        assert(dual_bits(m) =~= a + (b + (c + d)));
        assert forall|x: AudioMode| audio_mode_wf(0, x) && #[trigger] starts_with(s, p, dual_bits(x))
            implies dual_bits(m) == dual_bits(x) by {
            assert(dual_bits(x) =~= ub(x->dialnorm2 as int, 5) + (opt_bits(x->compr2, 8) + (opt_bits(x->langcod2, 8)
                + audprodi_bits(x->audprodi2))));
            lemma_starts_with_cat(s, p, ub(x->dialnorm2 as int, 5), opt_bits(x->compr2, 8) + (opt_bits(x->langcod2, 8)
                + audprodi_bits(x->audprodi2)));
            lemma_starts_with_same(s, p, a, ub(x->dialnorm2 as int, 5));
        }
    }
    Ok(m)
}

/// Read the alternate syntax extension fields.
fn parse_alt_ext(r: &mut BitstreamReader) -> (res: Result<BsiExtension, Error>)
    ensures
        final(r).bytes() == old(r).bytes(),
        res is Ok ==> final(r).consumed() == old(r).consumed() + ext_bits(res->Ok_0) && ext_wf(6, res->Ok_0),
        res is Ok ==> old(r).pos() <= final(r).pos() <= old(r).pos() + 30,
        res is Err ==> res->Err_0 is Bitstream,
        old(r).pos() + 30 <= old(r).bits().len() ==> res is Ok,
        res is Ok ==> starts_with(old(r).bits(), old(r).pos(), ext_bits(res->Ok_0))
            && final(r).pos() == old(r).pos() + ext_bits(res->Ok_0).len(),
        forall|e: BsiExtension| ext_wf(6, e) && #[trigger] starts_with(old(r).bits(), old(r).pos(), ext_bits(e))
            ==> res is Ok && ext_bits(res->Ok_0) == ext_bits(e),
{
    let ghost c0 = r.consumed();
    let ghost s = old(r).bits();
    let ghost p = old(r).pos();
    proof {
        vstd::arithmetic::power2::lemma2_to64();
        assert forall|e: BsiExtension| ext_wf(6, e) && #[trigger] starts_with(s, p, ext_bits(e)) implies
            starts_with(s, p, xbsi1_bits(e->xbsi1))
            && starts_with(s, p + xbsi1_bits(e->xbsi1).len(), xbsi2_bits(e->xbsi2)) by {
            assert(ext_bits(e) == xbsi1_bits(e->xbsi1) + xbsi2_bits(e->xbsi2));
            lemma_starts_with_cat(s, p, xbsi1_bits(e->xbsi1), xbsi2_bits(e->xbsi2));
        }
    }
    let xbsi1 = parse_xbsi1(r)?;
    let ghost p1 = r.pos();
    let xbsi2 = parse_xbsi2(r)?;
    let e = BsiExtension::AltBsi { xbsi1, xbsi2 };
    proof {
        assert(ext_bits(e) == xbsi1_bits(xbsi1) + xbsi2_bits(xbsi2));
        lemma_starts_with_join(s, p, xbsi1_bits(xbsi1), xbsi2_bits(xbsi2));
        assert forall|x: BsiExtension| ext_wf(6, x) && #[trigger] starts_with(s, p, ext_bits(x))
            implies ext_bits(e) == ext_bits(x) by {
            assert(ext_bits(x) == xbsi1_bits(x->xbsi1) + xbsi2_bits(x->xbsi2));
        }
    }
    Ok(e)
}

/// The bits of extra BSI 1.
pub open spec fn xbsi1_bits(o: Option<Xbsi1>) -> Seq<bool> {
    match o {
        Some(x) => seq![true] + ub(x.dmixmod as int, 2) + ub(x.ltrtcmixlev as int, 3)
            + ub(x.ltrtsurmixlev as int, 3) + ub(x.lorocmixlev as int, 3) + ub(x.lorosurmixlev as int, 3),
        None => seq![false],
    }
}

/// The bits of extra BSI 2.
pub open spec fn xbsi2_bits(o: Option<Xbsi2>) -> Seq<bool> {
    match o {
        Some(x) => seq![true] + ub(x.dsurexmod as int, 2) + ub(x.dheadphonmod as int, 2)
            + seq![x.adconvtyp] + ub(x.xbsi2 as int, 8) + seq![x.encinfo],
        None => seq![false],
    }
}

/// Read extra BSI 1.
fn parse_xbsi1(r: &mut BitstreamReader) -> (res: Result<Option<Xbsi1>, Error>)
    ensures
        final(r).bytes() == old(r).bytes(),
        res is Ok ==> final(r).consumed() == old(r).consumed() + xbsi1_bits(res->Ok_0)
            && (res->Ok_0 matches Some(x) ==> x.dmixmod < 4 && x.ltrtcmixlev < 8 && x.ltrtsurmixlev < 8
                && x.lorocmixlev < 8 && x.lorosurmixlev < 8)
            && old(r).pos() < final(r).pos() <= old(r).pos() + 15,
        res is Err ==> res->Err_0 is Bitstream,
        old(r).pos() + 15 <= old(r).bits().len() ==> res is Ok,
        res is Ok ==> starts_with(old(r).bits(), old(r).pos(), xbsi1_bits(res->Ok_0))
            && final(r).pos() == old(r).pos() + xbsi1_bits(res->Ok_0).len(),
        forall|x: Option<Xbsi1>| #[trigger] starts_with(old(r).bits(), old(r).pos(), xbsi1_bits(x))
            ==> res is Ok && xbsi1_bits(res->Ok_0) == xbsi1_bits(x),
{
    let ghost s = old(r).bits();
    let ghost p = old(r).pos();
    proof {
        assert forall|x: Option<Xbsi1>| #[trigger] starts_with(s, p, xbsi1_bits(x)) implies p < s.len() && xbsi1_bits(x)[0] == s[p as int] by {
            lemma_starts_first(s, p, xbsi1_bits(x));
        }
    }
    let ghost c0 = r.consumed();
    proof {
        vstd::arithmetic::power2::lemma2_to64();
    }
    let flag = rflag(r)?;
    assert(r.consumed()[p as int] == s[p as int]);
    if flag {
        let dmixmod = ru8(r, 2)?;
        let ltrtcmixlev = ru8(r, 3)?;
        let ltrtsurmixlev = ru8(r, 3)?;
        let lorocmixlev = ru8(r, 3)?;
        let lorosurmixlev = ru8(r, 3)?;
        let x = Xbsi1 { dmixmod, ltrtcmixlev, ltrtsurmixlev, lorocmixlev, lorosurmixlev };
        assert(r.consumed() =~= c0 + xbsi1_bits(Some(x)));
        proof {
            lemma_consumed_starts(s, p, r.pos(), xbsi1_bits(Some(x)));
            assert forall|y: Option<Xbsi1>| #[trigger] starts_with(s, p, xbsi1_bits(y)) implies xbsi1_bits(Some(x)) == xbsi1_bits(y) by {
                lemma_starts_first(s, p, xbsi1_bits(y));
                lemma_starts_first(s, p, xbsi1_bits(Some(x)));
                lemma_starts_with_same(s, p, xbsi1_bits(Some(x)), xbsi1_bits(y));
            }
        }
        Ok(Some(x))
    } else {
        assert(r.consumed() =~= c0 + xbsi1_bits(None));
        proof {
            lemma_consumed_starts(s, p, r.pos(), xbsi1_bits(None));
            assert forall|y: Option<Xbsi1>| #[trigger] starts_with(s, p, xbsi1_bits(y)) implies xbsi1_bits(None) == xbsi1_bits(y) by {
                lemma_starts_first(s, p, xbsi1_bits(y));
                lemma_starts_first(s, p, xbsi1_bits(None));
                lemma_starts_with_same(s, p, xbsi1_bits(None), xbsi1_bits(y));
            }
        }
        Ok(None)
    }
}

/// Read extra BSI 2.
fn parse_xbsi2(r: &mut BitstreamReader) -> (res: Result<Option<Xbsi2>, Error>)
    ensures
        final(r).bytes() == old(r).bytes(),
        res is Ok ==> final(r).consumed() == old(r).consumed() + xbsi2_bits(res->Ok_0)
            && (res->Ok_0 matches Some(x) ==> x.dsurexmod < 4 && x.dheadphonmod < 4)
            && old(r).pos() < final(r).pos() <= old(r).pos() + 15,
        res is Err ==> res->Err_0 is Bitstream,
        old(r).pos() + 15 <= old(r).bits().len() ==> res is Ok,
        res is Ok ==> starts_with(old(r).bits(), old(r).pos(), xbsi2_bits(res->Ok_0))
            && final(r).pos() == old(r).pos() + xbsi2_bits(res->Ok_0).len(),
        forall|x: Option<Xbsi2>| #[trigger] starts_with(old(r).bits(), old(r).pos(), xbsi2_bits(x))
            ==> res is Ok && xbsi2_bits(res->Ok_0) == xbsi2_bits(x),
{
    let ghost s = old(r).bits();
    let ghost p = old(r).pos();
    proof {
        assert forall|x: Option<Xbsi2>| #[trigger] starts_with(s, p, xbsi2_bits(x)) implies p < s.len() && xbsi2_bits(x)[0] == s[p as int] by {
            lemma_starts_first(s, p, xbsi2_bits(x));
        }
    }
    let ghost c0 = r.consumed();
    proof {
        vstd::arithmetic::power2::lemma2_to64();
    }
    let flag = rflag(r)?;
    assert(r.consumed()[p as int] == s[p as int]);
    if flag {
        let dsurexmod = ru8(r, 2)?;
        let dheadphonmod = ru8(r, 2)?;
        let adconvtyp = rflag(r)?;
        let x2 = ru8(r, 8)?;
        let encinfo = rflag(r)?;
        let x = Xbsi2 { dsurexmod, dheadphonmod, adconvtyp, xbsi2: x2, encinfo };
        assert(r.consumed() =~= c0 + xbsi2_bits(Some(x)));
        proof {
            lemma_consumed_starts(s, p, r.pos(), xbsi2_bits(Some(x)));
            assert forall|y: Option<Xbsi2>| #[trigger] starts_with(s, p, xbsi2_bits(y)) implies xbsi2_bits(Some(x)) == xbsi2_bits(y) by {
                lemma_starts_first(s, p, xbsi2_bits(y));
                lemma_starts_first(s, p, xbsi2_bits(Some(x)));
                lemma_starts_with_same(s, p, xbsi2_bits(Some(x)), xbsi2_bits(y));
            }
        }
        Ok(Some(x))
    } else {
        assert(r.consumed() =~= c0 + xbsi2_bits(None));
        proof {
            lemma_consumed_starts(s, p, r.pos(), xbsi2_bits(None));
            assert forall|y: Option<Xbsi2>| #[trigger] starts_with(s, p, xbsi2_bits(y)) implies xbsi2_bits(None) == xbsi2_bits(y) by {
                lemma_starts_first(s, p, xbsi2_bits(y));
                lemma_starts_first(s, p, xbsi2_bits(None));
                lemma_starts_with_same(s, p, xbsi2_bits(None), xbsi2_bits(y));
            }
        }
        Ok(None)
    }
}

/// Read a presence flag and a 14-bit time code.
fn parse_timecod(r: &mut BitstreamReader) -> (res: Result<Option<u16>, Error>)
    ensures
        final(r).bytes() == old(r).bytes(),
        res is Ok ==> final(r).consumed() == old(r).consumed() + timecod_bits(res->Ok_0)
            && (res->Ok_0 matches Some(t) ==> t < 0x4000)
            && old(r).pos() < final(r).pos() <= old(r).pos() + 15,
        res is Err ==> res->Err_0 is Bitstream,
        old(r).pos() + 15 <= old(r).bits().len() ==> res is Ok,
        res is Ok ==> starts_with(old(r).bits(), old(r).pos(), timecod_bits(res->Ok_0))
            && final(r).pos() == old(r).pos() + timecod_bits(res->Ok_0).len(),
        forall|x: Option<u16>| #[trigger] starts_with(old(r).bits(), old(r).pos(), timecod_bits(x))
            ==> res is Ok && timecod_bits(res->Ok_0) == timecod_bits(x),
{
    let ghost s = old(r).bits();
    let ghost p = old(r).pos();
    proof {
        assert forall|x: Option<u16>| #[trigger] starts_with(s, p, timecod_bits(x)) implies p < s.len() && timecod_bits(x)[0] == s[p as int] by {
            lemma_starts_first(s, p, timecod_bits(x));
        }
    }
    let ghost c0 = r.consumed();
    proof {
        vstd::arithmetic::power2::lemma2_to64();
    }
    let flag = rflag(r)?;
    assert(r.consumed()[p as int] == s[p as int]);
    if flag {
        let t = ru16(r, 14)?;
        assert(r.consumed() =~= c0 + timecod_bits(Some(t)));
        proof {
            lemma_consumed_starts(s, p, r.pos(), timecod_bits(Some(t)));
            assert forall|y: Option<u16>| #[trigger] starts_with(s, p, timecod_bits(y)) implies timecod_bits(Some(t)) == timecod_bits(y) by {
                lemma_starts_first(s, p, timecod_bits(y));
                lemma_starts_first(s, p, timecod_bits(Some(t)));
                lemma_starts_with_same(s, p, timecod_bits(Some(t)), timecod_bits(y));
            }
        }
        Ok(Some(t))
    } else {
        assert(r.consumed() =~= c0 + timecod_bits(None));
        proof {
            lemma_consumed_starts(s, p, r.pos(), timecod_bits(None));
            assert forall|y: Option<u16>| #[trigger] starts_with(s, p, timecod_bits(y)) implies timecod_bits(None) == timecod_bits(y) by {
                lemma_starts_first(s, p, timecod_bits(y));
                lemma_starts_first(s, p, timecod_bits(None));
                lemma_starts_with_same(s, p, timecod_bits(None), timecod_bits(y));
            }
        }
        Ok(None)
    }
}

/// Read the extension fields: the alternate syntax for `bsid == 6`, time
/// codes otherwise.
fn parse_ext(r: &mut BitstreamReader, bsid: u8) -> (res: Result<BsiExtension, Error>)
    ensures
        final(r).bytes() == old(r).bytes(),
        res is Ok ==> final(r).consumed() == old(r).consumed() + ext_bits(res->Ok_0) && ext_wf(bsid, res->Ok_0),
        res is Ok ==> old(r).pos() <= final(r).pos() <= old(r).pos() + 30,
        res is Err ==> res->Err_0 is Bitstream,
        old(r).pos() + 30 <= old(r).bits().len() ==> res is Ok,
        res is Ok ==> starts_with(old(r).bits(), old(r).pos(), ext_bits(res->Ok_0))
            && final(r).pos() == old(r).pos() + ext_bits(res->Ok_0).len(),
        forall|e: BsiExtension| ext_wf(bsid, e) && #[trigger] starts_with(old(r).bits(), old(r).pos(), ext_bits(e))
            ==> res is Ok && ext_bits(res->Ok_0) == ext_bits(e),
{
    if bsid == 6 {
        parse_alt_ext(r)
    } else {
        let ghost s = old(r).bits();
        let ghost p = old(r).pos();
        proof {
            assert forall|e: BsiExtension| ext_wf(bsid, e) && #[trigger] starts_with(s, p, ext_bits(e)) implies
                starts_with(s, p, timecod_bits(e->timecod1))
                && starts_with(s, p + timecod_bits(e->timecod1).len(), timecod_bits(e->timecod2)) by {
                assert(ext_bits(e) == timecod_bits(e->timecod1) + timecod_bits(e->timecod2));
                lemma_starts_with_cat(s, p, timecod_bits(e->timecod1), timecod_bits(e->timecod2));
            }
        }
        let timecod1 = parse_timecod(r)?;
        let timecod2 = parse_timecod(r)?;
        let e = BsiExtension::Standard { timecod1, timecod2 };
        proof {
            assert(ext_bits(e) == timecod_bits(timecod1) + timecod_bits(timecod2));
            lemma_starts_with_join(s, p, timecod_bits(timecod1), timecod_bits(timecod2));
            assert forall|x: BsiExtension| ext_wf(bsid, x) && #[trigger] starts_with(s, p, ext_bits(x))
                implies ext_bits(e) == ext_bits(x) by {
                assert(ext_bits(x) == timecod_bits(x->timecod1) + timecod_bits(x->timecod2));
            }
        }
        Ok(e)
    }
}

/// Read the additional BSI.
fn parse_addbsi(r: &mut BitstreamReader) -> (res: Result<Option<Addbsi>, Error>)
    ensures
        final(r).bytes() == old(r).bytes(),
        res is Ok ==> final(r).consumed() == old(r).consumed() + addbsi_bits(res->Ok_0)
            && (res->Ok_0 matches Some(a) ==> a.addbsil < 64 && a.addbsi@.len() == a.addbsil + 1),
        res is Err ==> res->Err_0 is Bitstream,
        old(r).pos() + 7 + 64 * 8 <= old(r).bits().len() ==> res is Ok,
        res is Ok ==> old(r).pos() <= final(r).pos(),
        res is Ok ==> starts_with(old(r).bits(), old(r).pos(), addbsi_bits(res->Ok_0))
            && final(r).pos() == old(r).pos() + addbsi_bits(res->Ok_0).len(),
        forall|x: Option<Addbsi>| addbsi_wf(x) && #[trigger] starts_with(old(r).bits(), old(r).pos(), addbsi_bits(x))
            ==> res is Ok && addbsi_bits(res->Ok_0) == addbsi_bits(x),
{
    let ghost c0 = r.consumed();
    let ghost s = old(r).bits();
    let ghost p = old(r).pos();
    proof {
        vstd::arithmetic::power2::lemma2_to64();
        assert forall|x: Option<Addbsi>| addbsi_wf(x) && #[trigger] starts_with(s, p, addbsi_bits(x)) implies
            p < s.len() && addbsi_bits(x)[0] == s[p as int]
            && (x matches Some(a) ==> {
                &&& addbsi_bits(x).len() == 7 + 8 * (a.addbsil + 1)
                &&& starts_with(s, p + 1, ub(a.addbsil as int, 6))
            }) by {
            lemma_starts_first(s, p, addbsi_bits(x));
            if let Some(a) = x {
                lemma_fields_len(a.addbsi@, 8);
                assert(addbsi_bits(x) == seq![true] + (ub(a.addbsil as int, 6) + fields(a.addbsi@, 8)));
                lemma_starts_with_cat(s, p, seq![true], ub(a.addbsil as int, 6) + fields(a.addbsi@, 8));
                lemma_starts_with_cat(s, p + 1, ub(a.addbsil as int, 6), fields(a.addbsi@, 8));
            }
        }
    }
    let flag = rflag(r)?;
    assert(r.consumed()[p as int] == s[p as int]);
    if flag {
        let addbsil = ru8(r, 6)?;
        proof {
            assert(r.consumed() =~= s.subrange(0, (p + 1) as int) + ub(addbsil as int, 6));
            assert(s.subrange(0, (p + 1) as int) =~= s.subrange(0, p as int) + seq![true]);
            lemma_consumed_starts(s, p + 1, p + 7, ub(addbsil as int, 6));
            assert forall|x: Option<Addbsi>| addbsi_wf(x) && #[trigger] starts_with(s, p, addbsi_bits(x)) implies
                x->Some_0.addbsil == addbsil by {
                lemma_starts_with_same(s, p + 1, ub(addbsil as int, 6), ub(x->Some_0.addbsil as int, 6));
                lemma_ub_injective(addbsil as int, x->Some_0.addbsil as int, 6);
            }
        }
        let len = addbsil as usize + 1;
        let ghost p1 = r.pos();
        let data = rfields(r, len, 8)?;
        let a = Addbsi { addbsil, addbsi: data };
        assert(r.consumed() =~= c0 + addbsi_bits(Some(a)));
        proof {
            lemma_fields_len(data@, 8);
            lemma_consumed_starts(s, p, r.pos(), addbsi_bits(Some(a)));
            assert forall|x: Option<Addbsi>| addbsi_wf(x) && #[trigger] starts_with(s, p, addbsi_bits(x))
                implies addbsi_bits(Some(a)) == addbsi_bits(x) by {
                lemma_starts_with_same(s, p, addbsi_bits(Some(a)), addbsi_bits(x));
            }
        }
        Ok(Some(a))
    } else {
        assert(r.consumed() =~= c0 + addbsi_bits(None));
        proof {
            lemma_consumed_starts(s, p, r.pos(), addbsi_bits(None));
            assert forall|x: Option<Addbsi>| addbsi_wf(x) && #[trigger] starts_with(s, p, addbsi_bits(x))
                implies addbsi_bits(None) == addbsi_bits(x) by {
                lemma_starts_first(s, p, addbsi_bits(None));
                lemma_starts_with_same(s, p, addbsi_bits(None), addbsi_bits(x));
            }
        }
        Ok(None)
    }
}

/// The additional BSI has `addbsil + 1` bytes, `addbsil` fitting six bits.
pub open spec fn addbsi_wf(x: Option<Addbsi>) -> bool {
    x matches Some(a) ==> a.addbsil < 64 && a.addbsi@.len() == a.addbsil + 1
}

/// The fields of `d`, `n` bits each, take `n * d.len()` bits.
proof fn lemma_fields_len(d: Seq<u8>, n: nat)
    ensures
        fields(d, n).len() == n * d.len(),
    decreases d.len(),
{
    if d.len() > 0 {
        lemma_fields_len(d.drop_last(), n);
        assert(n * d.len() == n * (d.len() - 1) + n) by (nonlinear_arith);
    }
}

/// Read the effects flag, dialogue normalisation, compression, language
/// and production information.
#[verifier::spinoff_prover]
#[verifier::rlimit(60)]
fn parse_bsi_mid(r: &mut BitstreamReader) -> (res: Result<(bool, u8, Option<u8>, Option<u8>, Option<(u8, u8)>), Error>)
    ensures
        final(r).bytes() == old(r).bytes(),
        res matches Ok((lfeon, dialnorm, compr, langcod, audprodi)) ==> final(r).consumed() == old(r).consumed()
            + seq![lfeon] + ub(dialnorm as int, 5) + opt_bits(compr, 8) + opt_bits(langcod, 8) + audprodi_bits(audprodi)
            && dialnorm < 32 && (audprodi matches Some((x, y)) ==> x < 32 && y < 4),
        res is Ok ==> old(r).pos() <= final(r).pos() <= old(r).pos() + 32,
        res is Err ==> res->Err_0 is Bitstream,
        old(r).pos() + 32 <= old(r).bits().len() ==> res is Ok,
        res matches Ok((lfeon, dialnorm, compr, langcod, audprodi)) ==> {
            let t = seq![lfeon] + ub(dialnorm as int, 5) + opt_bits(compr, 8) + opt_bits(langcod, 8) + audprodi_bits(audprodi);
            starts_with(old(r).bits(), old(r).pos(), t) && final(r).pos() == old(r).pos() + t.len()
        },
        forall|b: BitStreamInformation| bsi_wf(b) && #[trigger] starts_with(old(r).bits(), old(r).pos(), bsi_mid_bits(b))
            ==> (res matches Ok((lfeon, dialnorm, compr, langcod, audprodi)) && seq![lfeon] + ub(dialnorm as int, 5)
                + opt_bits(compr, 8) + opt_bits(langcod, 8) + audprodi_bits(audprodi) == bsi_mid_bits(b)),
{
    let ghost s = old(r).bits();
    let ghost p = old(r).pos();
    let ghost c0 = r.consumed();
    proof {
        vstd::arithmetic::power2::lemma2_to64();
        assert forall|b: BitStreamInformation| bsi_wf(b) && #[trigger] starts_with(s, p, bsi_mid_bits(b)) implies {
            let a = seq![b.lfeon] + ub(b.dialnorm as int, 5);
            let c = opt_bits(b.compr, 8);
            let lg = opt_bits(b.langcod, 8);
            let d = audprodi_bits(b.audprodi);
            &&& p + 6 <= s.len()
            &&& starts_with(s, p + 6, c)
            &&& starts_with(s, p + 6 + c.len(), lg)
            &&& starts_with(s, p + 6 + c.len() + lg.len(), d)
        } by {
            let a = seq![b.lfeon] + ub(b.dialnorm as int, 5);
            let c = opt_bits(b.compr, 8);
            let lg = opt_bits(b.langcod, 8);
            let d = audprodi_bits(b.audprodi);
            assert(bsi_mid_bits(b) =~= a + (c + (lg + d)));
            lemma_starts_with_cat(s, p, a, c + (lg + d));
            lemma_starts_with_cat(s, p + a.len(), c, lg + d);
            lemma_starts_with_cat(s, p + a.len() + c.len(), lg, d);
        }
    }
    let lfeon = rflag(r)?;
    let dialnorm = ru8(r, 5)?;
    let compr = ropt(r, 8)?;
    let langcod = ropt(r, 8)?;
    let audprodi = raudprodi(r)?;
    proof {
        let a = seq![lfeon] + ub(dialnorm as int, 5);
        let c = opt_bits(compr, 8);
        let lg = opt_bits(langcod, 8);
        let d = audprodi_bits(audprodi);
        assert(s.subrange(0, (p + 6) as int) =~= s.subrange(0, p as int) + a);
        lemma_consumed_starts(s, p, p + 6, a);
        lemma_starts_with_join(s, p + a.len() + c.len(), lg, d);
        lemma_starts_with_join(s, p + a.len(), c, lg + d);
        lemma_starts_with_join(s, p, a, c + (lg + d));
        assert(a + c + lg + d =~= a + (c + (lg + d)));
        assert forall|b: BitStreamInformation| bsi_wf(b) && #[trigger] starts_with(s, p, bsi_mid_bits(b))
            implies a + c + lg + d == bsi_mid_bits(b) by {
            let ab = seq![b.lfeon] + ub(b.dialnorm as int, 5);
            assert(bsi_mid_bits(b) =~= ab + (opt_bits(b.compr, 8) + (opt_bits(b.langcod, 8) + audprodi_bits(b.audprodi))));
            lemma_starts_with_cat(s, p, ab, opt_bits(b.compr, 8) + (opt_bits(b.langcod, 8) + audprodi_bits(b.audprodi)));
            lemma_starts_with_same(s, p, a, ab);
        }
    }
    Ok((lfeon, dialnorm, compr, langcod, audprodi))
}

/// Read the copyright and original flags, the extension and the
/// additional BSI.
#[verifier::spinoff_prover]
#[verifier::rlimit(60)]
fn parse_bsi_tail(r: &mut BitstreamReader, bsid: u8) -> (res: Result<(bool, bool, BsiExtension, Option<Addbsi>), Error>)
    ensures
        final(r).bytes() == old(r).bytes(),
        res matches Ok((c, o, e, a)) ==> final(r).consumed() == old(r).consumed() + seq![c, o] + ext_bits(e) + addbsi_bits(a)
            && ext_wf(bsid, e) && (a matches Some(x) ==> x.addbsil < 64 && x.addbsi@.len() == x.addbsil + 1),
        res is Err ==> res->Err_0 is Bitstream,
        old(r).pos() + 32 + 7 + 64 * 8 <= old(r).bits().len() ==> res is Ok,
        res matches Ok((c, o, e, a)) ==> starts_with(old(r).bits(), old(r).pos(), seq![c, o] + ext_bits(e) + addbsi_bits(a))
            && final(r).pos() == old(r).pos() + (seq![c, o] + ext_bits(e) + addbsi_bits(a)).len(),
        forall|b: BitStreamInformation| bsi_wf(b) && b.bsid == bsid
            && #[trigger] starts_with(old(r).bits(), old(r).pos(), bsi_tail_bits(b))
            ==> (res matches Ok((c, o, e, a)) && seq![c, o] + ext_bits(e) + addbsi_bits(a) == bsi_tail_bits(b)),
{
    let ghost c0 = r.consumed();
    let ghost s = old(r).bits();
    let ghost p = old(r).pos();
    proof {
        assert forall|b: BitStreamInformation| bsi_wf(b) && b.bsid == bsid
            && #[trigger] starts_with(s, p, bsi_tail_bits(b)) implies
            p + 2 <= s.len() && starts_with(s, p + 2, ext_bits(b.ext))
            && starts_with(s, p + 2 + ext_bits(b.ext).len(), addbsi_bits(b.addbsi)) by {
            assert(bsi_tail_bits(b) =~= seq![b.copyrightb, b.origbs] + (ext_bits(b.ext) + addbsi_bits(b.addbsi)));
            lemma_starts_with_cat(s, p, seq![b.copyrightb, b.origbs], ext_bits(b.ext) + addbsi_bits(b.addbsi));
            lemma_starts_with_cat(s, p + 2, ext_bits(b.ext), addbsi_bits(b.addbsi));
        }
    }
    let copyrightb = rflag(r)?;
    let origbs = rflag(r)?;
    assert(r.consumed() =~= c0 + seq![copyrightb, origbs]);
    let ext = parse_ext(r, bsid)?;
    let addbsi = parse_addbsi(r)?;
    proof {
        let h = seq![copyrightb, origbs];
        lemma_consumed_starts(s, p, p + 2, h);
        lemma_starts_with_join(s, p + 2, ext_bits(ext), addbsi_bits(addbsi));
        lemma_starts_with_join(s, p, h, ext_bits(ext) + addbsi_bits(addbsi));
        assert(h + ext_bits(ext) + addbsi_bits(addbsi) =~= h + (ext_bits(ext) + addbsi_bits(addbsi)));
        assert forall|b: BitStreamInformation| bsi_wf(b) && b.bsid == bsid
            && #[trigger] starts_with(s, p, bsi_tail_bits(b)) implies
            h + ext_bits(ext) + addbsi_bits(addbsi) == bsi_tail_bits(b) by {
            let hb = seq![b.copyrightb, b.origbs];
            assert(bsi_tail_bits(b) =~= hb + (ext_bits(b.ext) + addbsi_bits(b.addbsi)));
            lemma_starts_with_cat(s, p, hb, ext_bits(b.ext) + addbsi_bits(b.addbsi));
            lemma_starts_with_same(s, p, h, hb);
        }
    }
    Ok((copyrightb, origbs, ext, addbsi))
}

/// Read the bit stream information.
#[verifier::spinoff_prover]
#[verifier::rlimit(100)]
pub(crate) fn parse_bsi(r: &mut BitstreamReader) -> (res: Result<BitStreamInformation, Error>)
    ensures
        final(r).bytes() == old(r).bytes(),
        res is Ok ==> final(r).consumed() == old(r).consumed() + bsi_bits(res->Ok_0) && bsi_wf(res->Ok_0),
        res is Err ==> res->Err_0 is Bitstream,
        old(r).pos() + bsi_max_bits() <= old(r).bits().len() ==> res is Ok,
        forall|b: BitStreamInformation| bsi_wf(b) && #[trigger] starts_with(old(r).bits(), old(r).pos(), bsi_bits(b))
            ==> res is Ok && bsi_bits(res->Ok_0) == bsi_bits(b),
{
    let ghost c0 = r.consumed();
    let ghost s = old(r).bits();
    let ghost p = old(r).pos();
    proof {
        vstd::arithmetic::power2::lemma2_to64();
        assert forall|b: BitStreamInformation| bsi_wf(b) && #[trigger] starts_with(s, p, bsi_bits(b)) implies {
            let q1 = p + 11;
            let q2 = q1 + mode_bits(b.acmod, b.audio_mode).len();
            let q3 = q2 + bsi_mid_bits(b).len();
            let q4 = q3 + dual_bits(b.audio_mode).len();
            &&& starts_with(s, p, bsi_id_bits(b))
            &&& starts_with(s, q1, mode_bits(b.acmod, b.audio_mode))
            &&& starts_with(s, q2, bsi_mid_bits(b))
            &&& starts_with(s, q3, dual_bits(b.audio_mode))
            &&& starts_with(s, q4, bsi_tail_bits(b))
        } by {
            let a = bsi_id_bits(b);
            let m = mode_bits(b.acmod, b.audio_mode);
            let mi = bsi_mid_bits(b);
            let du = dual_bits(b.audio_mode);
            let t = bsi_tail_bits(b);
            assert(bsi_bits(b) =~= a + (m + (mi + (du + t))));
            lemma_starts_with_cat(s, p, a, m + (mi + (du + t)));
            lemma_starts_with_cat(s, p + a.len(), m, mi + (du + t));
            lemma_starts_with_cat(s, p + a.len() + m.len(), mi, du + t);
            lemma_starts_with_cat(s, p + a.len() + m.len() + mi.len(), du, t);
        }
    }
    let bsid = ru8(r, 5)?;
    let bsmod = ru8(r, 3)?;
    let acmod = ru8(r, 3)?;
    let ghost c1 = r.consumed();
    proof {
        let a = ub(bsid as int, 5) + ub(bsmod as int, 3) + ub(acmod as int, 3);
        assert(c1 =~= s.subrange(0, p as int) + a);
        lemma_consumed_starts(s, p, r.pos(), a);
        assert forall|b: BitStreamInformation| bsi_wf(b) && #[trigger] starts_with(s, p, bsi_bits(b)) implies
            b.bsid == bsid && b.acmod == acmod by {
            lemma_starts_with_same(s, p, a, bsi_id_bits(b));
            let ab = bsi_id_bits(b);
            assert(ab.subrange(0, 5) =~= ub(b.bsid as int, 5));
            assert(a.subrange(0, 5) =~= ub(bsid as int, 5));
            assert(ab.subrange(8, 11) =~= ub(b.acmod as int, 3));
            assert(a.subrange(8, 11) =~= ub(acmod as int, 3));
            lemma_ub_injective(bsid as int, b.bsid as int, 5);
            lemma_ub_injective(acmod as int, b.acmod as int, 3);
        }
    }
    let mode0 = parse_mode(r, acmod)?;
    let ghost c2 = r.consumed();
    let (lfeon, dialnorm, compr, langcod, audprodi) = parse_bsi_mid(r)?;
    let ghost c3 = r.consumed();
    let audio_mode = if acmod == 0 { parse_dual(r)? } else { mode0 };
    let ghost c4 = r.consumed();
    let (copyrightb, origbs, ext, addbsi) = parse_bsi_tail(r, bsid)?;
    let b = BitStreamInformation {
        bsid, bsmod, acmod, audio_mode, lfeon, dialnorm, compr, langcod, audprodi, copyrightb, origbs, ext, addbsi,
    };
    assert(c1 == c0 + bsi_id_bits(b)) by {
        lemma_cat3(c0, ub(bsid as int, 5), ub(bsmod as int, 3), ub(acmod as int, 3));
    }
    assert(mode_bits(acmod, mode0) == mode_bits(acmod, audio_mode));
    assert(c3 == c2 + bsi_mid_bits(b)) by {
        lemma_cat5(c2, seq![lfeon], ub(dialnorm as int, 5), opt_bits(compr, 8), opt_bits(langcod, 8), audprodi_bits(audprodi));
    }
    assert(r.consumed() == c4 + bsi_tail_bits(b)) by {
        lemma_cat3(c4, seq![copyrightb, origbs], ext_bits(ext), addbsi_bits(addbsi));
    }
    proof {
        lemma_cat5(c0, bsi_id_bits(b), mode_bits(acmod, audio_mode), bsi_mid_bits(b), dual_bits(audio_mode), bsi_tail_bits(b));
        assert forall|x: BitStreamInformation| bsi_wf(x) && #[trigger] starts_with(s, p, bsi_bits(x)) implies
            bsi_bits(b) == bsi_bits(x) by {
            assert(bsi_id_bits(b) == bsi_id_bits(x));
            assert(mode_bits(acmod, audio_mode) == mode_bits(x.acmod, x.audio_mode));
            assert(bsi_mid_bits(b) == bsi_mid_bits(x));
            assert(dual_bits(audio_mode) == dual_bits(x.audio_mode));
            assert(bsi_tail_bits(b) == bsi_tail_bits(x));
        }
    }
    Ok(b)
}

/// Read the auxiliary data: all bits but the last 17 (the error check),
/// as whole bytes and a partial last byte.
pub(crate) fn parse_auxdata(r: &mut BitstreamReader) -> (res: Result<AuxiliaryData, Error>)
    ensures
        final(r).bytes() == old(r).bytes(),
        res is Ok,
        final(r).consumed() == old(r).consumed() + aux_bits(res->Ok_0),
        final(r).pos() == (if old(r).pos() + 17 <= old(r).bits().len() { old(r).bits().len() - 17 } else { old(r).pos() as int }),
        res->Ok_0.last_byte_bits <= 8,
        res->Ok_0.auxdata@.len() == 0 <==> res->Ok_0.last_byte_bits == 0,
{
    let ghost c0 = r.consumed();
    let remaining = r.remaining_bits();
    let aux_bits_n: usize = if remaining >= 17 { remaining - 17 } else { 0 };
    let aux_full_bytes = aux_bits_n / 8;
    let aux_leftover_bits = aux_bits_n % 8;
    let ghost p0 = r.pos();
    let ghost len = r.bits().len();
    let full = rfields(r, aux_full_bytes, 8);
    assert(p0 + aux_full_bytes * 8 <= len) by (nonlinear_arith)
        requires aux_full_bytes == aux_bits_n / 8, aux_bits_n <= len - p0, p0 <= len;
    let mut auxdata = match full {
        Ok(v) => v,
        Err(_) => {
            assert(false);
            Vec::new()
        },
    };
    let ghost c1 = r.consumed();
    let ghost d1 = auxdata@;
    if aux_leftover_bits > 0 {
        let v = match ru8(r, aux_leftover_bits as u8) {
            Ok(v) => v,
            Err(_) => {
                assert(false);
                0
            },
        };
        auxdata.push(v);
        assert(auxdata@.drop_last() =~= d1);
    }
    let last_byte_bits: u8 = if aux_leftover_bits > 0 {
        aux_leftover_bits as u8
    } else if aux_full_bytes > 0 {
        8
    } else {
        0
    };
    let aux = AuxiliaryData { auxdata, last_byte_bits };
    assert(r.consumed() == c0 + aux_bits(aux));
    Ok(aux)
}

/// Read the error check (17 bits).
pub(crate) fn parse_errorcheck(r: &mut BitstreamReader) -> (res: Result<ErrorCheck, Error>)
    ensures
        final(r).bytes() == old(r).bytes(),
        res is Ok <==> old(r).pos() + 17 <= old(r).bits().len(),
        res is Ok ==> final(r).consumed() == old(r).consumed() + ec_bits(res->Ok_0) && final(r).pos() == old(r).pos() + 17,
        res is Err ==> res->Err_0 is Bitstream,
{
    let ghost c0 = r.consumed();
    proof {
        vstd::arithmetic::power2::lemma2_to64();
    }
    let crcrsv = rflag(r)?;
    let crc2 = ru16(r, 16)?;
    let ec = ErrorCheck { crcrsv, crc2 };
    assert(r.consumed() =~= c0 + ec_bits(ec));
    Ok(ec)
}

} // verus!
