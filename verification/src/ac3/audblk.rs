//! Reading an audio block: its fields, the state it hands to the next
//! block, and the mantissas, whose layout follows from the exponents and
//! bit allocation decoded from the fields.

use vstd::prelude::*;
use vstd::arithmetic::power2::pow2;
use crate::bitstream::{BitstreamReader, seq_val, lemma_seq_val_u32_bits};
use crate::ac3::error::Error;
use crate::ac3::frame::{
    CplStrategy, CplChannelCoord, CplCoord, Rematrixing, ExponentStrategy, CouplingChannelExponent,
    FullBandwidthChannelExponent, FullBandwidthChannelExponents, LowFrequencyEffectChannel, BitAllocParams,
    SnrOffset, CplLeak, QuantizedMantissaValues, DeltBaSegment, DeltaBitAllocationInformation, UnusedDummyData, EffectiveDeltBa,
    AudblkDecodedState, AudioBlock, BitAllocationParametricInformation, Cpl,
};
use crate::ac3::layout::{
    ub, opt_bits, opt_flags, fields, CplState, cpl_state_after, strategy_bits, bands_bits, chan_coord_bits,
    chans_read_bits, coord_read_bits, remat_bits, expstr_bits, bw_bits, bw_count, lemma_cat3, lemma_cat4, lemma_cat5,
    lemma_bw_bits_prefix, cpl_exps_bits, fb_exps_bits, lfe_exps_bits, bai_bits, snr_bits, snr_ch_bits, leak_bits,
    seg_list_bits, segs_bits, ch_segs_bits, deltba_bits, dummy_bits, head_bits, exp_part_bits, alloc_part_bits,
    rest_part_bits, audblk_tail_bits, audblk_bits, dummy_complete,
};
use crate::ac3::read::{ru8, ru16, rflag, ropt, rfields};
use crate::ac3::write::{need_bw, bw_ok, bw_safe, expstr_ok, end_safe};
use crate::ac3::bap::{BapParams, compute_bap, compute_bap_spec};
use crate::ac3::mantissa::{MantissaParams, MantissaParamsView, GroupedQuantizer, parse_mantissas, params_valid,
    lemma_mantissas_rewrite, actions_bits, mantissas_spec, chmant_view};
use crate::ac3::write::{audblk_ok, audblk_safe, actions_ok, tail_ok, tail_safe, snr_ok, snr_safe, deltba_ok, deltba_safe, strategy_ok};
use crate::ac3::mantissa::action_ok;

verus! {

/// Read `n` flags.
pub(crate) fn rflags(r: &mut BitstreamReader, n: usize) -> (res: Result<Vec<bool>, Error>)
    ensures
        final(r).bytes() == old(r).bytes(),
        res is Ok ==> final(r).consumed() == old(r).consumed() + res->Ok_0@ && res->Ok_0@.len() == n,
        res is Err ==> res->Err_0 is Bitstream,
        old(r).pos() + n <= old(r).bits().len() ==> res is Ok,
        res is Ok ==> final(r).pos() == old(r).pos() + n,
{
    let ghost c0 = r.consumed();
    let ghost p0 = old(r).pos();
    let mut v: Vec<bool> = Vec::new();
    let mut i: usize = 0;
    while i < n
        invariant
            i <= n,
            v@.len() == i,
            r.bytes() == old(r).bytes(),
            r.bits() == old(r).bits(),
            r.consumed() == c0 + v@,
            r.pos() == p0 + i,
            p0 == old(r).pos(),
        decreases n - i,
    {
        let b = rflag(r)?;
        let ghost v0 = v@;
        v.push(b);
        assert(c0 + v@ =~= c0 + v0 + seq![b]);
        i = i + 1;
    }
    Ok(v)
}

/// The length of the block header read at bit `p`: block switch and
/// dither flags, then the dynamic range word (and, in 1+1 mode, the
/// second), each a flag and eight bits when the flag is set.
pub open spec fn head_len(s: Seq<bool>, p: nat, nfchans: nat, acmod: u8) -> nat {
    let p1 = p + 2 * nfchans;
    let p2 = p1 + 1 + (if s[p1 as int] { 8nat } else { 0nat });
    let p3 = if acmod == 0 { p2 + 1 + (if s[p2 as int] { 8nat } else { 0nat }) } else { p2 };
    (p3 - p) as nat
}

/// The bits from `p` on hold a whole block header.
pub open spec fn head_fits(s: Seq<bool>, p: nat, nfchans: nat, acmod: u8) -> bool {
    let p1 = p + 2 * nfchans;
    &&& p1 < s.len()
    &&& (acmod == 0 ==> p1 + 1 + (if s[p1 as int] { 8nat } else { 0nat }) < s.len())
    &&& p + head_len(s, p, nfchans, acmod) <= s.len()
}

/// The coupling fields read at `p` (after the strategy flags) put the
/// coupling begin frequency more than three above the end frequency.
pub open spec fn inuse_inverted(s: Seq<bool>, p: nat, nfchans: nat, acmod: u8) -> bool {
    let c = p + nfchans + (if acmod == 2 { 1nat } else { 0nat });
    &&& c + 8 <= s.len()
    &&& seq_val(s.subrange(c as int, (c + 4) as int)) > seq_val(s.subrange((c + 4) as int, (c + 8) as int)) + 3
}

/// The coupling strategy read at `p` is new, puts coupling in use, and
/// has an inverted coupling range.
pub open spec fn strategy_inverted(s: Seq<bool>, p: nat, nfchans: nat, acmod: u8) -> bool {
    &&& p + 2 <= s.len()
    &&& s[p as int] && s[(p + 1) as int]
    &&& inuse_inverted(s, p + 2, nfchans, acmod)
}

/// The audio block read at `p` has a whole header, then a new coupling
/// strategy with an inverted coupling range.
pub open spec fn inverted_cpl_range(s: Seq<bool>, p: nat, nfchans: nat, acmod: u8) -> bool {
    head_fits(s, p, nfchans, acmod) && strategy_inverted(s, p + head_len(s, p, nfchans, acmod), nfchans, acmod)
}

/// Block switch and dither flags, dynamic range words.
#[verifier::spinoff_prover]
pub(crate) fn parse_head(r: &mut BitstreamReader, nfchans: u8, acmod: u8)
    -> (res: Result<(Vec<bool>, Vec<bool>, Option<u8>, Option<u8>), Error>)
    ensures
        final(r).bytes() == old(r).bytes(),
        res matches Ok((blksw, dithflag, dynrng, dynrng2)) ==> final(r).consumed() == old(r).consumed()
            + blksw@ + dithflag@ + opt_bits(dynrng, 8) + (if acmod == 0 { opt_bits(dynrng2, 8) } else { Seq::empty() })
            && blksw@.len() == nfchans && dithflag@.len() == nfchans && (acmod != 0 ==> dynrng2 is None),
        res is Ok ==> final(r).pos() == old(r).pos() + head_len(old(r).bits(), old(r).pos(), nfchans as nat, acmod),
        res is Err ==> res->Err_0 is Bitstream,
        head_fits(old(r).bits(), old(r).pos(), nfchans as nat, acmod) ==> res is Ok,
{
    let ghost c0 = r.consumed();
    let ghost s = old(r).bits();
    let ghost p = old(r).pos();
    let blksw = rflags(r, nfchans as usize)?;
    let dithflag = rflags(r, nfchans as usize)?;
    assert(r.pos() == p + 2 * nfchans);
    let dynrng = ropt(r, 8)?;
    let ghost c1 = r.consumed();
    assert(r.pos() == p + 2 * nfchans + 1 + (if s[(p + 2 * nfchans) as int] { 8nat } else { 0nat }));
    let dynrng2 = if acmod == 0 { ropt(r, 8)? } else { None };
    assert(r.consumed() =~= c1 + (if acmod == 0 { opt_bits(dynrng2, 8) } else { Seq::empty() }));
    Ok((blksw, dithflag, dynrng, dynrng2))
}

/// The coupling fields of a strategy fit their widths and the band
/// structure flags are one fewer than the subbands.
pub open spec fn strategy_wf(s: CplStrategy, acmod: u8, nfchans: nat) -> bool {
    match s {
        CplStrategy::InUse { chincpl, phsflginu, cplbegf, cplendf, cplbndstrc } => {
            &&& chincpl@.len() == nfchans
            &&& (phsflginu is Some <==> acmod == 2)
            &&& cplbegf < 16 && cplendf < 16 && cplbegf <= cplendf + 3
            &&& cplbndstrc@.len() == (if cplendf + 3 - cplbegf > 0 { cplendf + 3 - cplbegf - 1 } else { 0 })
        },
        _ => true,
    }
}

/// Read the coupling strategy. Returns the strategy and the coupling
/// state it leaves: in use, channels in coupling, phase flags in use,
/// number of coupling bands.
#[verifier::spinoff_prover]
pub(crate) fn parse_strategy(r: &mut BitstreamReader, nfchans: u8, acmod: u8, cplinu0: bool, chincpl0: &Vec<bool>,
    phsflginu0: bool, ncplbnd0: usize) -> (res: Result<(CplStrategy, bool, Vec<bool>, bool, usize), Error>)
    requires
        chincpl0@.len() == nfchans,
        ncplbnd0 <= 18,
    ensures
        final(r).bytes() == old(r).bytes(),
        res matches Ok((s, cplinu, chincpl, phs, ncplbnd)) ==> {
            &&& final(r).consumed() == old(r).consumed() + strategy_bits(s, acmod)
            &&& strategy_wf(s, acmod, nfchans as nat)
            &&& CplState { cplinu, chincpl: chincpl@ } == cpl_state_after(CplState { cplinu: cplinu0, chincpl: chincpl0@ }, s, nfchans as nat)
            &&& chincpl@.len() == nfchans
            &&& ncplbnd <= 18
            &&& (s is Reuse ==> phs == phsflginu0 && ncplbnd == ncplbnd0)
        },
        res matches Err(e) ==> e is Bitstream || e is InvalidState,
        strategy_inverted(old(r).bits(), old(r).pos(), nfchans as nat, acmod) ==> res == Err::<(CplStrategy, bool, Vec<bool>, bool, usize), Error>(
            Error::InvalidState("invalid coupling range: ncplsubnd would be negative")),
{
    let ghost c0 = r.consumed();
    let ghost s = old(r).bits();
    let ghost p = old(r).pos();
    proof {
        vstd::arithmetic::power2::lemma2_to64();
    }
    let cplstre = rflag(r)?;
    assert(r.consumed()[p as int] == s[p as int]);
    if !cplstre {
        let c = chincpl0.clone();
        assert(c@ =~= chincpl0@);
        return Ok((CplStrategy::Reuse, cplinu0, c, phsflginu0, ncplbnd0));
    }
    let cplinu = rflag(r)?;
    assert(r.consumed()[(p + 1) as int] == s[(p + 1) as int]);
    if !cplinu {
        let c = crate::ac3::write::all_false(nfchans);
        assert(r.consumed() =~= c0 + strategy_bits(CplStrategy::NotInUse, acmod));
        return Ok((CplStrategy::NotInUse, false, c, false, 0));
    }
    let (st, chincpl, phsflginu, ncplbnd) = parse_inuse(r, nfchans, acmod)?;
    assert(r.consumed() =~= c0 + strategy_bits(st, acmod));
    Ok((st, true, chincpl, phsflginu, ncplbnd))
}

/// Read the fields of a strategy that puts coupling in use.
#[verifier::spinoff_prover]
fn parse_inuse(r: &mut BitstreamReader, nfchans: u8, acmod: u8) -> (res: Result<(CplStrategy, Vec<bool>, bool, usize), Error>)
    ensures
        final(r).bytes() == old(r).bytes(),
        res matches Ok((s, chincpl, phs, ncplbnd)) ==> {
            &&& s matches CplStrategy::InUse { chincpl: ci, phsflginu, cplbegf, cplendf, cplbndstrc } && {
                &&& final(r).consumed() == old(r).consumed() + ci@ + (if acmod == 2 { seq![phsflginu->Some_0] } else { Seq::empty() })
                    + ub(cplbegf as int, 4) + ub(cplendf as int, 4) + cplbndstrc@
                &&& ci@ == chincpl@
            }
            &&& strategy_wf(s, acmod, nfchans as nat)
            &&& chincpl@.len() == nfchans
            &&& ncplbnd <= 18
        },
        res matches Err(e) ==> e is Bitstream || e is InvalidState,
        inuse_inverted(old(r).bits(), old(r).pos(), nfchans as nat, acmod) ==> res == Err::<(CplStrategy, Vec<bool>, bool, usize), Error>(
            Error::InvalidState("invalid coupling range: ncplsubnd would be negative")),
{
    let ghost c0 = r.consumed();
    let ghost s = old(r).bits();
    let ghost p = old(r).pos();
    proof {
        vstd::arithmetic::power2::lemma2_to64();
    }
    let chincpl = rflags(r, nfchans as usize)?;
    let ghost c1 = r.consumed();
    let phsflginu = if acmod == 0x2 { rflag(r)? } else { false };
    let ghost c2 = r.consumed();
    let ghost pc = r.pos();
    assert(pc == p + nfchans + (if acmod == 2 { 1nat } else { 0nat }));
    let cplbegf = ru8(r, 4)?;
    let cplendf = ru8(r, 4)?;
    proof {
        assert(s.subrange(pc as int, (pc + 4) as int) =~= r.consumed().subrange(pc as int, (pc + 4) as int));
        assert(r.consumed().subrange(pc as int, (pc + 4) as int) =~= ub(cplbegf as int, 4));
        assert(s.subrange((pc + 4) as int, (pc + 8) as int) =~= r.consumed().subrange((pc + 4) as int, (pc + 8) as int));
        assert(r.consumed().subrange((pc + 4) as int, (pc + 8) as int) =~= ub(cplendf as int, 4));
        lemma_seq_val_u32_bits(cplbegf as u32, 4);
        lemma_seq_val_u32_bits(cplendf as u32, 4);
    }
    if 3 + cplendf < cplbegf {
        return Err(Error::InvalidState("invalid coupling range: ncplsubnd would be negative"));
    }
    let ncplsubnd = (3 + cplendf - cplbegf) as usize;
    let nstrc: usize = if ncplsubnd > 0 { ncplsubnd - 1 } else { 0 };
    let ghost c3 = r.consumed();
    let cplbndstrc = rflags(r, nstrc)?;
    let mut ncplbnd: usize = 1;
    let mut i: usize = 0;
    while i < cplbndstrc.len()
        invariant
            i <= cplbndstrc@.len() <= 17,
            ncplbnd <= 1 + i,
        decreases cplbndstrc@.len() - i,
    {
        if !cplbndstrc[i] {
            ncplbnd = ncplbnd + 1;
        }
        i = i + 1;
    }
    let c = chincpl.clone();
    assert(c@ =~= chincpl@);
    let pf = if acmod == 0x2 { Some(phsflginu) } else { None };
    assert(c2 =~= c1 + (if acmod == 2 { seq![pf->Some_0] } else { Seq::empty() }));
    let s = CplStrategy::InUse { chincpl: c, phsflginu: pf, cplbegf, cplendf, cplbndstrc };
    Ok((s, chincpl, phsflginu, ncplbnd))
}

/// Read one channel's coordinates behind its `cplcoe` flag.
fn parse_chan_coord(r: &mut BitstreamReader, ncplbnd: usize) -> (res: Result<Option<CplChannelCoord>, Error>)
    ensures
        final(r).bytes() == old(r).bytes(),
        res is Ok ==> final(r).consumed() == old(r).consumed() + chan_coord_bits(res->Ok_0),
        res is Err ==> res->Err_0 is Bitstream,
{
    let ghost c0 = r.consumed();
    if rflag(r)? {
        let mstrcplco = ru8(r, 2)?;
        let ghost c1 = r.consumed();
        let mut bands: Vec<(u8, u8)> = Vec::new();
        let mut i: usize = 0;
        while i < ncplbnd
            invariant
                i <= ncplbnd,
                bands@.len() == i,
                r.bytes() == old(r).bytes(),
                r.consumed() == c1 + bands_bits(bands@),
            decreases ncplbnd - i,
        {
            let e = ru8(r, 4)?;
            let m = ru8(r, 4)?;
            let ghost b0 = bands@;
            bands.push((e, m));
            assert(bands@.drop_last() =~= b0);
            i = i + 1;
        }
        let cc = CplChannelCoord { mstrcplco, bands };
        assert(r.consumed() =~= c0 + chan_coord_bits(Some(cc)));
        Ok(Some(cc))
    } else {
        assert(r.consumed() =~= c0 + chan_coord_bits(None));
        Ok(None)
    }
}

/// Read the coupling coordinates of the channels in coupling and the
/// phase flags (2/0 stream with phase flags in use and coordinates for
/// one of its two channels).
pub(crate) fn parse_coord(r: &mut BitstreamReader, cplinu: bool, chincpl: &Vec<bool>, ncplbnd: usize, acmod: u8,
    phsflginu: bool) -> (res: Result<Option<CplCoord>, Error>)
    ensures
        final(r).bytes() == old(r).bytes(),
        res is Ok ==> final(r).consumed() == old(r).consumed() + coord_read_bits(res->Ok_0, chincpl@)
            && (res->Ok_0 is Some <==> cplinu)
            && (res->Ok_0 matches Some(c) ==> c.channels@.len() == chincpl@.len()
                && forall|i: int| 0 <= i < chincpl@.len() && !chincpl@[i] ==> #[trigger] c.channels@[i] is None),
        res is Err ==> res->Err_0 is Bitstream,
{
    if !cplinu {
        return Ok(None);
    }
    let ghost c0 = r.consumed();
    let mut channels: Vec<Option<CplChannelCoord>> = Vec::new();
    let mut cplcoe: Vec<bool> = Vec::new();
    let mut i: usize = 0;
    while i < chincpl.len()
        invariant
            i <= chincpl@.len(),
            channels@.len() == i,
            cplcoe@.len() == i,
            r.bytes() == old(r).bytes(),
            r.consumed() == c0 + chans_read_bits(channels@, chincpl@),
            forall|k: int| 0 <= k < i && !chincpl@[k] ==> #[trigger] channels@[k] is None,
        decreases chincpl@.len() - i,
    {
        let ghost ch0 = channels@;
        if chincpl[i] {
            let c = parse_chan_coord(r, ncplbnd)?;
            cplcoe.push(c.is_some());
            channels.push(c);
        } else {
            cplcoe.push(false);
            channels.push(None);
        }
        assert(channels@.drop_last() =~= ch0);
        i = i + 1;
    }
    let ghost c1 = r.consumed();
    let any_coe = (cplcoe.len() > 0 && cplcoe[0]) || (cplcoe.len() > 1 && cplcoe[1]);
    let phsflg = if acmod == 0x2 && phsflginu && any_coe {
        Some(rflags(r, ncplbnd)?)
    } else {
        None
    };
    let c = CplCoord { channels, phsflg };
    assert(r.consumed() =~= c0 + coord_read_bits(Some(c), chincpl@));
    Ok(Some(c))
}

/// Read the rematrixing flags of a 2/0 stream: four bands, fewer where
/// coupling starts low.
pub(crate) fn parse_remat(r: &mut BitstreamReader, acmod: u8, cplinu: bool, rematcplbegf: Option<u8>)
    -> (res: Result<Rematrixing, Error>)
    ensures
        final(r).bytes() == old(r).bytes(),
        res is Ok ==> final(r).consumed() == old(r).consumed() + remat_bits(res->Ok_0, acmod),
        res is Err ==> res->Err_0 is Bitstream,
{
    let ghost c0 = r.consumed();
    if acmod == 0x2 {
        if rflag(r)? {
            let nrematbnds: usize = if !cplinu || rematcplbegf.is_none() || rematcplbegf.unwrap() > 2 {
                4
            } else if rematcplbegf.unwrap() > 0 {
                3
            } else {
                2
            };
            let flags = rflags(r, nrematbnds)?;
            let m = Rematrixing { rematflg: Some(flags) };
            assert(r.consumed() =~= c0 + remat_bits(m, acmod));
            Ok(m)
        } else {
            let m = Rematrixing { rematflg: None };
            assert(r.consumed() =~= c0 + remat_bits(m, acmod));
            Ok(m)
        }
    } else {
        let m = Rematrixing { rematflg: None };
        assert(r.consumed() =~= c0 + remat_bits(m, acmod));
        Ok(m)
    }
}

/// The exponent strategies and bandwidth codes fit their widths, there
/// is one of each per channel, and every bandwidth code to be written is
/// there.
pub open spec fn expstr_wf(es: ExponentStrategy, cplinu: bool, lfeon: bool, chincpl: Seq<bool>, nfchans: nat) -> bool {
    &&& (es.cplexpstr is Some <==> cplinu) && (es.cplexpstr matches Some(c) ==> c < 4)
    &&& es.chexpstr@.len() == nfchans && (forall|i: int| 0 <= i < nfchans ==> #[trigger] es.chexpstr@[i] < 4)
    &&& (es.lfeexpstr is Some <==> lfeon)
    &&& es.chbwcod@.len() == nfchans
    &&& forall|i: int| 0 <= i < nfchans && #[trigger] es.chexpstr@[i] != 0 && !chincpl[i]
        ==> (es.chbwcod@[i] matches Some(b) && b < 64)
    &&& forall|i: int| 0 <= i < nfchans ==> (#[trigger] es.chbwcod@[i] matches Some(b) ==> b < 64)
}

/// Read the exponent strategies and the bandwidth codes of the channels
/// with new exponents outside coupling; the others keep theirs.
#[verifier::spinoff_prover]
pub(crate) fn parse_expstr(r: &mut BitstreamReader, nfchans: u8, cplinu: bool, lfeon: bool, chincpl: &Vec<bool>,
    prev_chbwcod: &Vec<Option<u8>>) -> (res: Result<ExponentStrategy, Error>)
    requires
        chincpl@.len() == nfchans,
        forall|i: int| 0 <= i < prev_chbwcod@.len() ==> (#[trigger] prev_chbwcod@[i] matches Some(b) ==> b < 64),
    ensures
        final(r).bytes() == old(r).bytes(),
        res is Ok ==> final(r).consumed() == old(r).consumed() + expstr_bits(res->Ok_0, cplinu, lfeon)
                + bw_bits(res->Ok_0.chexpstr@, res->Ok_0.chbwcod@, chincpl@, bw_count(res->Ok_0, chincpl@))
            && expstr_wf(res->Ok_0, cplinu, lfeon, chincpl@, nfchans as nat),
        res is Err ==> res->Err_0 is Bitstream,
{
    let ghost c0 = r.consumed();
    proof {
        vstd::arithmetic::power2::lemma2_to64();
    }
    let cplexpstr = if cplinu { Some(ru8(r, 2)?) } else { None };
    let chexpstr = rfields(r, nfchans as usize, 2)?;
    let lfeexpstr = if lfeon { Some(rflag(r)?) } else { None };
    let ghost c1 = r.consumed();
    let mut chbwcod: Vec<Option<u8>> = Vec::new();
    let mut ch: usize = 0;
    while ch < nfchans as usize
        invariant
            ch <= nfchans,
            chexpstr@.len() == nfchans,
            chincpl@.len() == nfchans,
            chbwcod@.len() == ch,
            r.bytes() == old(r).bytes(),
            forall|i: int| 0 <= i < ch && #[trigger] chexpstr@[i] != 0 && !chincpl@[i]
                ==> (chbwcod@[i] matches Some(b) && b < 64),
            forall|i: int| 0 <= i < ch ==> (#[trigger] chbwcod@[i] matches Some(b) ==> b < 64),
            forall|i: int| 0 <= i < prev_chbwcod@.len() ==> (#[trigger] prev_chbwcod@[i] matches Some(b) ==> b < 64),
            r.consumed() == c1 + bw_bits(chexpstr@, chbwcod@, chincpl@, ch as nat),
        decreases nfchans - ch,
    {
        let ghost cb0 = chbwcod@;
        let ghost cons0 = r.consumed();
        proof {
            vstd::arithmetic::power2::lemma2_to64();
        }
        if chexpstr[ch] != 0 {
            if !chincpl[ch] {
                let b = ru8(r, 6)?;
                chbwcod.push(Some(b));
            } else {
                chbwcod.push(None);
            }
        } else {
            let keep = if ch < prev_chbwcod.len() { prev_chbwcod[ch] } else { None };
            chbwcod.push(keep);
        }
        proof {
            lemma_bw_bits_prefix(chexpstr@, cb0, chbwcod@, chincpl@, ch as nat);
            assert(r.consumed() =~= cons0 + (if chexpstr@[ch as int] != 0 && !chincpl@[ch as int] {
                ub(chbwcod@[ch as int]->Some_0 as int, 6)
            } else {
                Seq::empty()
            }));
        }
        ch = ch + 1;
    }
    let es = ExponentStrategy { cplexpstr, chexpstr, lfeexpstr, chbwcod };
    assert(r.consumed() == c1 + bw_bits(es.chexpstr@, es.chbwcod@, chincpl@, bw_count(es, chincpl@)));
    assert(c1 =~= c0 + expstr_bits(es, cplinu, lfeon));
    Ok(es)
}

/// The number of 7-bit exponent groups of `endmant` coefficients coded
/// with strategy `expstr` (1, 2 or 3).
pub open spec fn nchgrps_spec(expstr: u8, endmant: nat) -> nat {
    if expstr == 1 { ((endmant - 1) / 3) as nat } else if expstr == 2 { ((endmant + 2) / 6) as nat } else { ((endmant + 8) / 12) as nat }
}

/// The end of a channel's mantissas: where coupling starts for a channel
/// in coupling, from its bandwidth code otherwise.
pub open spec fn endmant_spec(incpl: bool, cplbegf: Option<u8>, chbwcod: Option<u8>) -> Option<nat> {
    if incpl {
        match cplbegf { Some(b) => Some(37 + 12 * b as nat), None => None }
    } else {
        match chbwcod { Some(c) => Some(73 + 3 * c as nat), None => None }
    }
}

/// Read the coupling channel exponents: the absolute exponent and the
/// groups of the coupling subbands.
pub(crate) fn parse_cpl_exps(r: &mut BitstreamReader, cplinu: bool, cplexpstr: Option<u8>, cplbegf: Option<u8>,
    cplendf: Option<u8>) -> (res: Result<Option<CouplingChannelExponent>, Error>)
    requires
        cplexpstr matches Some(c) ==> c < 4,
        cplbegf matches Some(b) ==> cplendf matches Some(e) && b <= e + 3 && e < 16,
    ensures
        final(r).bytes() == old(r).bytes(),
        res is Ok ==> final(r).consumed() == old(r).consumed() + cpl_exps_bits(res->Ok_0)
            && (res->Ok_0 is Some <==> cplinu && cplexpstr is Some && cplexpstr->Some_0 != 0)
            && (res->Ok_0 matches Some(x) ==> x.cplabsexp < 16 && x.cplexps@.len() <= 72),
        res matches Err(e) ==> e is Bitstream || e is InvalidState,
{
    let ghost c0 = r.consumed();
    proof {
        vstd::arithmetic::power2::lemma2_to64();
    }
    if !cplinu {
        return Ok(None);
    }
    let cplexpstr_val = match cplexpstr {
        Some(v) => v,
        None => {
            return Err(Error::InvalidState("cplexpstr missing while cplinu"));
        },
    };
    if cplexpstr_val == 0 {
        return Ok(None);
    }
    let cplabsexp = ru8(r, 4)?;
    let endf = match cplendf {
        Some(e) => e,
        None => {
            return Err(Error::InvalidState("cplendf missing"));
        },
    };
    let begf = match cplbegf {
        Some(b) => b,
        None => {
            return Err(Error::InvalidState("cplbegf missing"));
        },
    };
    let ncplsubnd = (3 + endf - begf) as usize;
    let ncplgrps: usize = if cplexpstr_val == 1 { ncplsubnd * 4 } else if cplexpstr_val == 2 { ncplsubnd * 2 } else { ncplsubnd };
    let cplexps = rfields(r, ncplgrps, 7)?;
    let x = CouplingChannelExponent { cplabsexp, cplexps };
    assert(r.consumed() =~= c0 + cpl_exps_bits(Some(x)));
    Ok(Some(x))
}

/// The exponents read for the full-bandwidth channels: new ones exactly
/// for the channels with a new strategy, with the groups that strategy
/// and the channel's mantissa count call for.
pub open spec fn fb_wf(c: Seq<Option<FullBandwidthChannelExponent>>, chexpstr: Seq<u8>, chincpl: Seq<bool>,
    cplbegf: Option<u8>, chbwcod: Seq<Option<u8>>, nfchans: nat) -> bool {
    &&& c.len() == nfchans
    &&& forall|ch: int| 0 <= ch < nfchans ==> (#[trigger] c[ch] is Some <==> chexpstr[ch] != 0)
    &&& forall|ch: int| 0 <= ch < nfchans && #[trigger] c[ch] is Some ==> {
        &&& endmant_spec(chincpl[ch], cplbegf, chbwcod[ch]) is Some
        &&& c[ch]->Some_0.exps@.len() == nchgrps_spec(chexpstr[ch], endmant_spec(chincpl[ch], cplbegf, chbwcod[ch])->Some_0)
        &&& c[ch]->Some_0.abs_exp < 16
    }
}

/// Read one channel's new exponents.
fn parse_fb_channel(r: &mut BitstreamReader, expstr: u8, endmant: usize) -> (res: Result<FullBandwidthChannelExponent, Error>)
    requires
        1 <= expstr < 4,
        1 <= endmant <= 262,
    ensures
        final(r).bytes() == old(r).bytes(),
        res is Ok ==> final(r).consumed() == old(r).consumed() + ub(res->Ok_0.abs_exp as int, 4)
                + fields(res->Ok_0.exps@, 7) + ub(res->Ok_0.gainrng as int, 2)
            && res->Ok_0.exps@.len() == nchgrps_spec(expstr, endmant as nat) && res->Ok_0.abs_exp < 16,
        res is Err ==> res->Err_0 is Bitstream,
{
    proof {
        vstd::arithmetic::power2::lemma2_to64();
    }
    let abs_exp = ru8(r, 4)?;
    let nchgrps: usize = if expstr == 1 { (endmant - 1) / 3 } else if expstr == 2 { (endmant + 2) / 6 } else { (endmant + 8) / 12 };
    let exps = rfields(r, nchgrps, 7)?;
    let gainrng = ru8(r, 2)?;
    Ok(FullBandwidthChannelExponent { abs_exp, exps, gainrng })
}

/// Read the full-bandwidth channel exponents.
#[verifier::spinoff_prover]
pub(crate) fn parse_fb_exps(r: &mut BitstreamReader, nfchans: u8, chexpstr: &Vec<u8>, chincpl: &Vec<bool>,
    cplbegf: Option<u8>, chbwcod: &Vec<Option<u8>>) -> (res: Result<FullBandwidthChannelExponents, Error>)
    requires
        chexpstr@.len() == nfchans,
        chincpl@.len() == nfchans,
        chbwcod@.len() == nfchans,
        forall|i: int| 0 <= i < nfchans ==> #[trigger] chexpstr@[i] < 4,
        cplbegf matches Some(b) ==> b < 16,
        forall|i: int| 0 <= i < nfchans ==> (#[trigger] chbwcod@[i] matches Some(b) ==> b < 64),
    ensures
        final(r).bytes() == old(r).bytes(),
        res is Ok ==> final(r).consumed() == old(r).consumed() + fb_exps_bits(res->Ok_0.channels@)
            && fb_wf(res->Ok_0.channels@, chexpstr@, chincpl@, cplbegf, chbwcod@, nfchans as nat),
        res matches Err(e) ==> e is Bitstream || e is InvalidState,
{
    let ghost c0 = r.consumed();
    let mut channels: Vec<Option<FullBandwidthChannelExponent>> = Vec::new();
    let mut ch: usize = 0;
    while ch < nfchans as usize
        invariant
            ch <= nfchans,
            chexpstr@.len() == nfchans,
            chincpl@.len() == nfchans,
            chbwcod@.len() == nfchans,
            forall|i: int| 0 <= i < nfchans ==> #[trigger] chexpstr@[i] < 4,
            cplbegf matches Some(b) ==> b < 16,
            forall|i: int| 0 <= i < nfchans ==> (#[trigger] chbwcod@[i] matches Some(b) ==> b < 64),
            channels@.len() == ch,
            r.bytes() == old(r).bytes(),
            r.consumed() == c0 + fb_exps_bits(channels@),
            forall|k: int| 0 <= k < ch ==> (#[trigger] channels@[k] is Some <==> chexpstr@[k] != 0),
            forall|k: int| 0 <= k < ch && #[trigger] channels@[k] is Some ==> {
                &&& endmant_spec(chincpl@[k], cplbegf, chbwcod@[k]) is Some
                &&& channels@[k]->Some_0.exps@.len() == nchgrps_spec(chexpstr@[k], endmant_spec(chincpl@[k], cplbegf, chbwcod@[k])->Some_0)
                &&& channels@[k]->Some_0.abs_exp < 16
            },
        decreases nfchans - ch,
    {
        let ghost ch0 = channels@;
        if chexpstr[ch] != 0 {
            let endmant: usize = if chincpl[ch] {
                match cplbegf {
                    Some(b) => 37 + 12 * b as usize,
                    None => {
                        return Err(Error::InvalidState("cplbegf missing"));
                    },
                }
            } else {
                match chbwcod[ch] {
                    Some(c) => 73 + 3 * c as usize,
                    None => {
                        return Err(Error::InvalidState("chbwcod missing"));
                    },
                }
            };
            let x = parse_fb_channel(r, chexpstr[ch], endmant)?;
            channels.push(Some(x));
        } else {
            channels.push(None);
        }
        assert(channels@.drop_last() =~= ch0);
        ch = ch + 1;
    }
    Ok(FullBandwidthChannelExponents { channels })
}

/// Read the effects channel exponents: new ones (absolute exponent and
/// two groups) when its strategy says so.
pub(crate) fn parse_lfe_exps(r: &mut BitstreamReader, lfeon: bool, lfeexpstr: Option<bool>)
    -> (res: Result<Option<Option<LowFrequencyEffectChannel>>, Error>)
    ensures
        final(r).bytes() == old(r).bytes(),
        res is Ok ==> final(r).consumed() == old(r).consumed() + lfe_exps_bits(res->Ok_0)
            && (res->Ok_0 is Some <==> lfeon)
            && (res->Ok_0 matches Some(Some(x)) ==> lfeexpstr == Some(true) && x.lfeexps@.len() == 2)
            && (res->Ok_0 matches Some(None) ==> lfeexpstr != Some(true)),
        res is Err ==> res->Err_0 is Bitstream,
{
    let ghost c0 = r.consumed();
    if !lfeon {
        return Ok(None);
    }
    if lfeexpstr == Some(true) {
        let abs_exp = ru8(r, 4)?;
        let lfeexps = rfields(r, 2, 7)?;
        let x = LowFrequencyEffectChannel { abs_exp, lfeexps };
        assert(r.consumed() =~= c0 + lfe_exps_bits(Some(Some(x))));
        Ok(Some(Some(x)))
    } else {
        Ok(Some(None))
    }
}

/// Read the bit allocation parameters.
#[verifier::spinoff_prover]
pub(crate) fn parse_bai(r: &mut BitstreamReader) -> (res: Result<Option<BitAllocParams>, Error>)
    ensures
        final(r).bytes() == old(r).bytes(),
        res is Ok ==> final(r).consumed() == old(r).consumed() + bai_bits(res->Ok_0)
            && (res->Ok_0 matches Some(b) ==> bai_valid(b)),
        res is Err ==> res->Err_0 is Bitstream,
{
    let ghost c0 = r.consumed();
    proof {
        vstd::arithmetic::power2::lemma2_to64();
    }
    if rflag(r)? {
        let sdcycod = ru8(r, 2)?;
        let fdcycod = ru8(r, 2)?;
        let sgaincod = ru8(r, 2)?;
        let dbpbcod = ru8(r, 2)?;
        let floorcod = ru8(r, 3)?;
        let b = BitAllocParams { sdcycod, fdcycod, sgaincod, dbpbcod, floorcod };
        assert(r.consumed() =~= c0 + bai_bits(Some(b)));
        Ok(Some(b))
    } else {
        assert(r.consumed() =~= c0 + bai_bits(None));
        Ok(None)
    }
}

/// Bit allocation parameter codes index their tables.
pub open spec fn bai_valid(b: BitAllocParams) -> bool {
    b.sdcycod < 4 && b.fdcycod < 4 && b.sgaincod < 4 && b.dbpbcod < 4 && b.floorcod < 8
}

/// SNR offsets as read for `nfchans` channels: coupling fields when
/// coupling is in use, effects fields when the effects channel is on,
/// gain codes below 8.
pub open spec fn snr_wf(x: SnrOffset, cplinu: bool, lfeon: bool, nfchans: nat) -> bool {
    &&& (x.cplfsnroffst is Some <==> cplinu) && (x.cplfgaincod is Some <==> cplinu)
    &&& (x.cplfgaincod matches Some(g) ==> g < 8)
    &&& x.fsnroffst@.len() == nfchans && x.fgaincod@.len() == nfchans
    &&& forall|i: int| 0 <= i < nfchans ==> #[trigger] x.fgaincod@[i] < 8
    &&& (x.lfefsnroffst is Some <==> lfeon) && (x.lfefgaincod is Some <==> lfeon)
    &&& (x.lfefgaincod matches Some(g) ==> g < 8)
}

/// Read two optional 4- and 3-bit fields.
fn r43(r: &mut BitstreamReader, on: bool) -> (res: Result<(Option<u8>, Option<u8>), Error>)
    ensures
        final(r).bytes() == old(r).bytes(),
        res matches Ok((a, b)) ==> final(r).consumed() == old(r).consumed()
            + (if on { ub(a->Some_0 as int, 4) + ub(b->Some_0 as int, 3) } else { Seq::empty() })
            && (a is Some <==> on) && (b is Some <==> on) && (b matches Some(g) ==> g < 8),
        res is Err ==> res->Err_0 is Bitstream,
{
    let ghost c0 = r.consumed();
    proof {
        vstd::arithmetic::power2::lemma2_to64();
    }
    if on {
        let a = ru8(r, 4)?;
        let b = ru8(r, 3)?;
        Ok((Some(a), Some(b)))
    } else {
        assert(r.consumed() =~= c0 + Seq::<bool>::empty());
        Ok((None, None))
    }
}

/// Read the SNR offsets.
pub(crate) fn parse_snr(r: &mut BitstreamReader, cplinu: bool, lfeon: bool, nfchans: u8) -> (res: Result<Option<SnrOffset>, Error>)
    ensures
        final(r).bytes() == old(r).bytes(),
        res is Ok ==> final(r).consumed() == old(r).consumed() + snr_bits(res->Ok_0, cplinu, lfeon, nfchans as nat)
            && (res->Ok_0 matches Some(x) ==> snr_wf(x, cplinu, lfeon, nfchans as nat)),
        res is Err ==> res->Err_0 is Bitstream,
{
    let ghost c0 = r.consumed();
    proof {
        vstd::arithmetic::power2::lemma2_to64();
    }
    if !rflag(r)? {
        assert(r.consumed() =~= c0 + snr_bits(None, cplinu, lfeon, nfchans as nat));
        return Ok(None);
    }
    let csnroffst = ru8(r, 6)?;
    let ghost c1 = r.consumed();
    let (cplfsnroffst, cplfgaincod) = r43(r, cplinu)?;
    let ghost c2 = r.consumed();
    let mut fsnroffst: Vec<u8> = Vec::new();
    let mut fgaincod: Vec<u8> = Vec::new();
    let mut ch: usize = 0;
    while ch < nfchans as usize
        invariant
            ch <= nfchans,
            fsnroffst@.len() == ch,
            fgaincod@.len() == ch,
            forall|i: int| 0 <= i < ch ==> #[trigger] fgaincod@[i] < 8,
            r.bytes() == old(r).bytes(),
            r.consumed() == c2 + snr_ch_bits(fsnroffst@, fgaincod@, ch as nat),
        decreases nfchans - ch,
    {
        proof {
            vstd::arithmetic::power2::lemma2_to64();
        }
        let ghost f0 = fsnroffst@;
        let ghost g0 = fgaincod@;
        let a = ru8(r, 4)?;
        let b = ru8(r, 3)?;
        fsnroffst.push(a);
        fgaincod.push(b);
        proof {
            lemma_snr_ch_bits_prefix(f0, fsnroffst@, g0, fgaincod@, ch as nat);
        }
        ch = ch + 1;
    }
    let ghost c3 = r.consumed();
    let (lfefsnroffst, lfefgaincod) = r43(r, lfeon)?;
    let x = SnrOffset { csnroffst, cplfsnroffst, cplfgaincod, fsnroffst, fgaincod, lfefsnroffst, lfefgaincod };
    proof {
        lemma_cat5(c0, seq![true], ub(csnroffst as int, 6),
            (if cplinu { ub(cplfsnroffst->Some_0 as int, 4) + ub(cplfgaincod->Some_0 as int, 3) } else { Seq::empty() }),
            snr_ch_bits(x.fsnroffst@, x.fgaincod@, nfchans as nat),
            (if lfeon { ub(lfefsnroffst->Some_0 as int, 4) + ub(lfefgaincod->Some_0 as int, 3) } else { Seq::empty() }));
    }
    Ok(Some(x))
}

/// The SNR bits of the first `n` channels depend on their fields only.
proof fn lemma_snr_ch_bits_prefix(f0: Seq<u8>, f1: Seq<u8>, g0: Seq<u8>, g1: Seq<u8>, n: nat)
    requires
        n <= f0.len() && n <= f1.len() && n <= g0.len() && n <= g1.len(),
        forall|i: int| 0 <= i < n ==> f0[i] == f1[i] && g0[i] == g1[i],
    ensures
        snr_ch_bits(f0, g0, n) == snr_ch_bits(f1, g1, n),
    decreases n,
{
    if n > 0 {
        lemma_snr_ch_bits_prefix(f0, f1, g0, g1, (n - 1) as nat);
    }
}

/// Read the coupling leak values.
pub(crate) fn parse_leak(r: &mut BitstreamReader, cplinu: bool) -> (res: Result<Option<CplLeak>, Error>)
    ensures
        final(r).bytes() == old(r).bytes(),
        res is Ok ==> final(r).consumed() == old(r).consumed() + leak_bits(res->Ok_0, cplinu)
            && (res->Ok_0 is Some ==> cplinu),
        res is Err ==> res->Err_0 is Bitstream,
{
    let ghost c0 = r.consumed();
    if cplinu && rflag(r)? {
        let cplfleak = ru8(r, 3)?;
        let cplsleak = ru8(r, 3)?;
        let x = CplLeak { cplfleak, cplsleak };
        assert(r.consumed() =~= c0 + leak_bits(Some(x), cplinu));
        Ok(Some(x))
    } else {
        assert(r.consumed() =~= c0 + leak_bits(None, cplinu));
        Ok(None)
    }
}

/// Read a segment list: the count less one (3 bits), then the segments.
fn parse_segs(r: &mut BitstreamReader) -> (res: Result<Vec<DeltBaSegment>, Error>)
    ensures
        final(r).bytes() == old(r).bytes(),
        res is Ok ==> final(r).consumed() == old(r).consumed() + segs_bits(res->Ok_0@)
            && 0 < res->Ok_0@.len() <= 8,
        res is Err ==> res->Err_0 is Bitstream,
{
    let ghost c0 = r.consumed();
    proof {
        vstd::arithmetic::power2::lemma2_to64();
    }
    let nseg = ru8(r, 3)? as usize;
    let ghost c1 = r.consumed();
    let mut segs: Vec<DeltBaSegment> = Vec::new();
    let mut i: usize = 0;
    while i <= nseg
        invariant
            nseg < 8,
            i <= nseg + 1,
            segs@.len() == i,
            r.bytes() == old(r).bytes(),
            r.consumed() == c1 + seg_list_bits(segs@),
        decreases nseg + 1 - i,
    {
        let deltoffst = ru8(r, 5)?;
        let deltlen = ru8(r, 4)?;
        let deltba = ru8(r, 3)?;
        let ghost s0 = segs@;
        segs.push(DeltBaSegment { deltoffst, deltlen, deltba });
        assert(segs@.drop_last() =~= s0);
        i = i + 1;
    }
    Ok(segs)
}

/// A segment list behind its count, if any.
pub open spec fn opt_segs_bits(o: Option<Vec<DeltBaSegment>>) -> Seq<bool> {
    match o {
        Some(s) => segs_bits(s@),
        None => Seq::empty(),
    }
}

/// Delta bit allocation information as read for `nfchans` channels.
pub open spec fn deltba_wf(d: DeltaBitAllocationInformation, cplinu: bool, nfchans: nat) -> bool {
    &&& (d.cpldeltbae is Some <==> cplinu)
    &&& d.deltbae@.len() == nfchans && d.deltsegs@.len() == nfchans
    &&& (d.cpldeltsegs matches Some(s) ==> s@.len() > 0)
    &&& forall|i: int| 0 <= i < d.deltsegs@.len() ==> (#[trigger] d.deltsegs@[i] matches Some(s) ==> s@.len() > 0)
}

/// Read the delta bit allocation information.
#[verifier::spinoff_prover]
pub(crate) fn parse_deltba(r: &mut BitstreamReader, cplinu: bool, nfchans: u8)
    -> (res: Result<Option<DeltaBitAllocationInformation>, Error>)
    ensures
        final(r).bytes() == old(r).bytes(),
        res is Ok ==> final(r).consumed() == old(r).consumed() + deltba_bits(res->Ok_0, cplinu)
            && (res->Ok_0 matches Some(d) ==> deltba_wf(d, cplinu, nfchans as nat)),
        res is Err ==> res->Err_0 is Bitstream,
{
    let ghost c0 = r.consumed();
    proof {
        vstd::arithmetic::power2::lemma2_to64();
    }
    if !rflag(r)? {
        assert(r.consumed() =~= c0 + deltba_bits(None, cplinu));
        return Ok(None);
    }
    let cpldeltbae = if cplinu { Some(ru8(r, 2)?) } else { None };
    let ghost c1 = r.consumed();
    let deltbae = rfields(r, nfchans as usize, 2)?;
    let ghost c2 = r.consumed();
    let cpldeltsegs = if cplinu && cpldeltbae == Some(1u8) { Some(parse_segs(r)?) } else { None };
    let ghost c3 = r.consumed();
    assert(c3 =~= c2 + opt_segs_bits(cpldeltsegs));
    let mut deltsegs: Vec<Option<Vec<DeltBaSegment>>> = Vec::new();
    let mut ch: usize = 0;
    while ch < nfchans as usize
        invariant
            ch <= nfchans,
            deltbae@.len() == nfchans,
            deltsegs@.len() == ch,
            r.bytes() == old(r).bytes(),
            r.consumed() == c3 + ch_segs_bits(deltsegs@),
            forall|i: int| 0 <= i < ch ==> (#[trigger] deltsegs@[i] matches Some(s) ==> s@.len() > 0),
        decreases nfchans - ch,
    {
        let ghost d0 = deltsegs@;
        if deltbae[ch] == 1 {
            let sg = parse_segs(r)?;
            deltsegs.push(Some(sg));
        } else {
            deltsegs.push(None);
        }
        assert(deltsegs@.drop_last() =~= d0);
        ch = ch + 1;
    }
    let d = DeltaBitAllocationInformation { cpldeltbae, deltbae, cpldeltsegs, deltsegs };
    proof {
        lemma_cat5(c0, seq![true], (if cplinu { ub(cpldeltbae->Some_0 as int, 2) } else { Seq::empty() }),
            fields(d.deltbae@, 2), opt_segs_bits(d.cpldeltsegs), ch_segs_bits(d.deltsegs@));
    }
    Ok(Some(d))
}

/// Read the unused dummy data: its length and as many of its bytes as
/// remain; when fewer remain, the remaining bits are skipped.
pub(crate) fn parse_dummy(r: &mut BitstreamReader) -> (res: Result<Option<UnusedDummyData>, Error>)
    ensures
        final(r).bytes() == old(r).bytes(),
        res is Ok ==> (dummy_complete(res->Ok_0) ==> final(r).consumed() == old(r).consumed() + dummy_bits(res->Ok_0)),
        res is Ok ==> (res->Ok_0 matches Some(d) ==> d.skipfld@.len() <= d.skipl),
        res is Err ==> res->Err_0 is Bitstream,
{
    let ghost c0 = r.consumed();
    proof {
        vstd::arithmetic::power2::lemma2_to64();
    }
    if !rflag(r)? {
        assert(r.consumed() =~= c0 + dummy_bits(None));
        return Ok(None);
    }
    let skipl = ru16(r, 9)?;
    let ghost c1 = r.consumed();
    let skip_bytes = skipl as usize;
    let mut skipfld: Vec<u8> = Vec::new();
    let mut i: usize = 0;
    while i < skip_bytes
        invariant_except_break
            r.consumed() == c1 + fields(skipfld@, 8),
        invariant
            i <= skip_bytes,
            skipfld@.len() == i,
            r.bytes() == old(r).bytes(),
        ensures
            skipfld@.len() <= skip_bytes,
            r.bytes() == old(r).bytes(),
            skipfld@.len() == skip_bytes ==> r.consumed() == c1 + fields(skipfld@, 8),
        decreases skip_bytes - i,
    {
        if r.remaining_bits() >= 8 {
            let b = ru8(r, 8)?;
            let ghost s0 = skipfld@;
            skipfld.push(b);
            assert(skipfld@.drop_last() =~= s0);
        } else {
            let rem = r.remaining_bits();
            r.skip_bits(rem);
            break;
        }
        i = i + 1;
    }
    let d = UnusedDummyData { skipl, skipfld };
    proof {
        if d.skipfld@.len() == skipl {
            assert(r.consumed() =~= c0 + dummy_bits(Some(d)));
        }
    }
    Ok(Some(d))
}

/// The number of coefficients that share one exponent under strategy
/// `expstr`: 1, 2 or 4.
pub open spec fn grpsize_spec(expstr: u8) -> int {
    if expstr == 1 { 1 } else if expstr == 2 { 2 } else { 4 }
}

/// Differential exponent `i` of the groups `g`: each 7-bit group packs
/// three values in base 5, each biased by 2.
pub open spec fn dexp_spec(g: Seq<u8>, i: int) -> int {
    let v = g[i / 3] as int;
    (if i % 3 == 0 { v / 25 } else if i % 3 == 1 { (v % 25) / 5 } else { v % 5 }) - 2
}

/// A/52 7.1.3: each 7-bit exponent group packs its three differential
/// exponents, each in -2..=2, in base 5 with the first most significant:
/// the group value is `25 (d1 + 2) + 5 (d2 + 2) + (d3 + 2)`.
pub proof fn lemma_exponent_group(g: Seq<u8>, j: int)
    requires
        0 <= j < g.len(),
        g[j] < 125,
    ensures
        -2 <= dexp_spec(g, 3 * j) <= 2 && -2 <= dexp_spec(g, 3 * j + 1) <= 2 && -2 <= dexp_spec(g, 3 * j + 2) <= 2,
        25 * (dexp_spec(g, 3 * j) + 2) + 5 * (dexp_spec(g, 3 * j + 1) + 2) + (dexp_spec(g, 3 * j + 2) + 2) == g[j],
{
    assert((3 * j) / 3 == j && (3 * j + 1) / 3 == j && (3 * j + 2) / 3 == j);
    assert((3 * j) % 3 == 0 && (3 * j + 1) % 3 == 1 && (3 * j + 2) % 3 == 2);
}

/// Absolute exponent `i`: the absolute exponent plus the differentials
/// up to `i`.
pub open spec fn aexp_spec(absexp: u8, g: Seq<u8>, i: int) -> int
    decreases i,
{
    if i <= 0 {
        absexp + dexp_spec(g, 0)
    } else {
        aexp_spec(absexp, g, i - 1) + dexp_spec(g, i)
    }
}

/// The decoded exponent of coefficient `pos`: the absolute exponent at
/// 0; below `ncoefs`, the absolute exponent of its group (truncated to a
/// byte) where the groups reach; 0 elsewhere.
pub open spec fn decoded_exp(absexp: u8, g: Seq<u8>, expstr: u8, ncoefs: int, pos: int) -> u8 {
    if pos == 0 {
        absexp
    } else if pos < ncoefs && (pos - 1) / grpsize_spec(expstr) < 3 * g.len() {
        aexp_spec(absexp, g, (pos - 1) / grpsize_spec(expstr)) as u8
    } else {
        0
    }
}

/// The 256 exponents decoded from an absolute exponent and the grouped
/// deltas, for `ncoefs` coefficients.
pub open spec fn decoded_exps(absexp: u8, g: Seq<u8>, expstr: u8, ncoefs: int) -> Seq<u8> {
    Seq::new(256, |pos: int| decoded_exp(absexp, g, expstr, ncoefs, pos))
}

/// The exponents of full-bandwidth channel `ch` after a block: decoded
/// from the block's exponents where its strategy sends new ones (for
/// `nchmant` coefficients), else the ones of the block before.
pub open spec fn ch_exps_after(es: ExponentStrategy, fb: Seq<Option<FullBandwidthChannelExponent>>, nchmant: nat,
    prev: Seq<u8>, ch: int) -> Seq<u8> {
    if es.chexpstr@[ch] != 0 {
        decoded_exps(fb[ch]->Some_0.abs_exp, fb[ch]->Some_0.exps@, es.chexpstr@[ch], nchmant as int)
    } else {
        prev
    }
}

/// The coupling channel exponents after a block where coupling is in use:
/// decoded from the block's (from twice the absolute exponent, for
/// `ncplmant` coefficients) where its strategy sends new ones, else the
/// ones of the block before.
pub open spec fn cpl_exps_after(cplexpstr: u8, x: Option<CouplingChannelExponent>, ncplmant: nat,
    prev: Option<[u8; 256]>) -> Option<Seq<u8>> {
    if cplexpstr != 0 {
        Some(decoded_exps((x->Some_0.cplabsexp * 2) as u8, x->Some_0.cplexps@, cplexpstr, ncplmant as int))
    } else {
        match prev { Some(a) => Some(a@), None => None }
    }
}

/// The effects channel exponents after a block with the effects channel on:
/// decoded from the block's (seven coefficients) where it sends new ones,
/// else the ones of the block before.
pub open spec fn lfe_exps_after(new_exps: bool, x: Option<Option<LowFrequencyEffectChannel>>, prev: Option<[u8; 256]>) -> Option<Seq<u8>> {
    if new_exps {
        Some(decoded_exps(x->Some_0->Some_0.abs_exp, x->Some_0->Some_0.lfeexps@, 1, 7))
    } else {
        match prev { Some(a) => Some(a@), None => None }
    }
}

/// The view of optional decoded exponents.
pub open spec fn opt_exps(o: Option<[u8; 256]>) -> Option<Seq<u8>> {
    match o { Some(a) => Some(a@), None => None }
}

/// The absolute exponents stay within `8 * (i + 1)` of the start.
proof fn lemma_aexp_bound(absexp: u8, g: Seq<u8>, i: int)
    requires
        0 <= i,
        i / 3 < g.len(),
    ensures
        absexp - 8 * (i + 1) <= aexp_spec(absexp, g, i) <= absexp + 8 * (i + 1),
    decreases i,
{
    let v = g[i / 3] as int;
    assert(0 <= v / 25 <= 10 && 0 <= (v % 25) / 5 <= 4 && 0 <= v % 5 <= 4);
    if i > 0 {
        lemma_aexp_bound(absexp, g, i - 1);
    }
}

/// Quotient and remainder determine the dividend.
proof fn lemma_divmod_unique(x: int, d: int, q: int, m: int)
    requires
        d > 0,
        x >= 0,
    ensures
        x / d == q && x % d == m ==> x == q * d + m,
{
    assert(x == d * (x / d) + x % d) by (nonlinear_arith)
        requires d > 0;
    assert(d * (x / d) == (x / d) * d) by (nonlinear_arith);
}

/// Decode grouped differential exponents into per-coefficient exponents.
fn decode_exponents(absexp: u8, gexp: &[u8], expstr: u8, ncoefs: usize) -> (r: [u8; 256])
    requires
        1 <= expstr <= 3,
        gexp@.len() <= 87,
        ncoefs <= 256,
    ensures
        forall|pos: int| 0 <= pos < 256 ==> #[trigger] r@[pos] == decoded_exp(absexp, gexp@, expstr, ncoefs as int, pos),
{
    let grpsize: usize = if expstr == 1 { 1 } else if expstr == 2 { 2 } else { 4 };
    let ghost g = gexp@;
    let mut exp = [0u8; 256];
    exp[0] = absexp;
    let mut prev: i32 = absexp as i32;
    let n = gexp.len() * 3;
    let mut i: usize = 0;
    while i < n
        invariant
            n == 3 * g.len(),
            g == gexp@,
            g.len() <= 87,
            i <= n,
            grpsize == grpsize_spec(expstr),
            1 <= expstr <= 3,
            ncoefs <= 256,
            i > 0 ==> prev as int == aexp_spec(absexp, g, i - 1),
            i == 0 ==> prev == absexp,
            -3000 <= prev <= 3000,
            forall|pos: int| 0 <= pos < 256 ==> #[trigger] exp@[pos] == (if pos == 0 {
                absexp
            } else if pos < ncoefs && (pos - 1) / grpsize_spec(expstr) < i {
                aexp_spec(absexp, g, (pos - 1) / grpsize_spec(expstr)) as u8
            } else {
                0u8
            }),
        decreases n - i,
    {
        let v = gexp[i / 3] as i32;
        let d = if i % 3 == 0 { v / 25 } else if i % 3 == 1 { (v % 25) / 5 } else { v % 5 };
        proof {
            lemma_aexp_bound(absexp, g, i as int);
        }
        prev = prev + d - 2;
        assert(prev as int == aexp_spec(absexp, g, i as int));
        let mut j: usize = 0;
        while j < grpsize
            invariant
                i < n,
                n == 3 * g.len(),
                g.len() <= 87,
                grpsize == grpsize_spec(expstr),
                1 <= expstr <= 3,
                ncoefs <= 256,
                j <= grpsize,
                prev as int == aexp_spec(absexp, g, i as int),
                forall|pos: int| 0 <= pos < 256 ==> #[trigger] exp@[pos] == (if pos == 0 {
                    absexp
                } else if pos < ncoefs && ((pos - 1) / grpsize_spec(expstr) < i
                    || ((pos - 1) / grpsize_spec(expstr) == i && (pos - 1) % grpsize_spec(expstr) < j)) {
                    aexp_spec(absexp, g, (pos - 1) / grpsize_spec(expstr)) as u8
                } else {
                    0u8
                }),
            decreases grpsize - j,
        {
            let pos = i * grpsize + j + 1;
            let ghost e0 = exp@;
            proof {
                let gs = grpsize as int;
                assert((pos - 1) / gs == i && (pos - 1) % gs == j) by (nonlinear_arith)
                    requires pos - 1 == i * gs + j, 0 <= j < gs, 0 <= i;
            }
            if pos < ncoefs {
                exp[pos] = prev as u8;
            }
            proof {
                let gs = grpsize as int;
                assert forall|q: int| 0 <= q < 256 implies #[trigger] exp@[q] == (if q == 0 {
                    absexp
                } else if q < ncoefs && ((q - 1) / grpsize_spec(expstr) < i
                    || ((q - 1) / grpsize_spec(expstr) == i && (q - 1) % grpsize_spec(expstr) < j + 1)) {
                    aexp_spec(absexp, g, (q - 1) / grpsize_spec(expstr)) as u8
                } else {
                    0u8
                }) by {
                    if q != pos && q > 0 {
                        lemma_divmod_unique(q - 1, gs, i as int, j as int);
                    }
                }
            }
            j = j + 1;
        }
        i = i + 1;
    }
    exp
}

/// The state an audio block hands on, for `nfchans` channels: one entry
/// per channel, coupling range and codes within their tables.
pub open spec fn state_wf(st: AudblkDecodedState, nfchans: nat) -> bool {
    &&& st.chincpl@.len() == nfchans
    &&& st.ch_decoded_exps@.len() == nfchans
    &&& st.chbwcod@.len() == nfchans
    &&& forall|i: int| 0 <= i < nfchans ==> (#[trigger] st.chbwcod@[i] matches Some(b) ==> b < 64)
    &&& st.ncplbnd <= 18
    &&& (st.cplbegf is Some <==> st.cplendf is Some)
    &&& (st.cplbegf matches Some(b) ==> b < 16 && st.cplendf->Some_0 < 16 && b <= st.cplendf->Some_0 + 3)
    &&& (st.bai matches Some(b) ==> bai_valid(b))
    &&& (st.snroffst matches Some(x) ==> snr_usable(x, nfchans))
}

/// SNR offsets that bit allocation can use for `nfchans` channels.
pub open spec fn snr_usable(x: SnrOffset, nfchans: nat) -> bool {
    &&& x.fsnroffst@.len() >= nfchans && x.fgaincod@.len() >= nfchans
    &&& forall|i: int| 0 <= i < nfchans ==> #[trigger] x.fgaincod@[i] < 8
    &&& (x.cplfgaincod matches Some(g) ==> g < 8)
    &&& (x.lfefgaincod matches Some(g) ==> g < 8)
}

/// A copy of SNR offsets.
fn copy_snr(x: &SnrOffset) -> (r: SnrOffset)
    ensures
        r.csnroffst == x.csnroffst && r.cplfsnroffst == x.cplfsnroffst && r.cplfgaincod == x.cplfgaincod,
        r.fsnroffst@ == x.fsnroffst@ && r.fgaincod@ == x.fgaincod@,
        r.lfefsnroffst == x.lfefsnroffst && r.lfefgaincod == x.lfefgaincod,
{
    let f = x.fsnroffst.clone();
    let g = x.fgaincod.clone();
    assert(f@ =~= x.fsnroffst@);
    assert(g@ =~= x.fgaincod@);
    SnrOffset {
        csnroffst: x.csnroffst,
        cplfsnroffst: x.cplfsnroffst,
        cplfgaincod: x.cplfgaincod,
        fsnroffst: f,
        fgaincod: g,
        lfefsnroffst: x.lfefsnroffst,
        lfefgaincod: x.lfefgaincod,
    }
}

/// The segments as `(deltoffst, deltlen, deltba)`.
fn segs_to_tuples(segs: &Vec<DeltBaSegment>) -> (r: Vec<(u8, u8, u8)>)
    ensures
        r@ == seg_tuples(segs@),
{
    let mut v: Vec<(u8, u8, u8)> = Vec::new();
    let mut i: usize = 0;
    while i < segs.len()
        invariant
            i <= segs@.len(),
            v@ == seg_tuples(segs@.subrange(0, i as int)),
        decreases segs@.len() - i,
    {
        let sg = segs[i];
        v.push((sg.deltoffst, sg.deltlen, sg.deltba));
        assert(v@ =~= seg_tuples(segs@.subrange(0, i + 1)));
        i = i + 1;
    }
    assert(segs@.subrange(0, segs@.len() as int) =~= segs@);
    v
}

/// The mantissas read at bit `p` are `m`, under mantissa parameters whose
/// full-bandwidth channels have the bit allocation pointers computed from
/// their exponents `exps` (over `nchmant` coefficients), with the bit
/// allocation parameters `bai`, the SNR offsets and fast gain codes, and
/// the segments `eff`; and whose coupling and effects channels have the
/// pointers `cpl` and `lfe`.
pub open spec fn channel_mantissas_read(s: Seq<bool>, p: nat, m: QuantizedMantissaValues, nfchans: nat,
    exps: Seq<[u8; 256]>, nchmant: Seq<usize>, chincpl: Seq<bool>, bai: BitAllocParams, csnroffst: u8,
    fsnroffst: Seq<u8>, fgaincod: Seq<u8>, eff: Option<EffectiveDeltBa>, fscod: u8, cpl: Option<(Seq<u8>, nat)>,
    lfe: Option<Seq<u8>>) -> bool {
    exists|pv: MantissaParamsView| {
        &&& pv.channels.len() == nfchans
        &&& forall|ch: int| 0 <= ch < nfchans ==> #[trigger] pv.channels[ch] == (compute_bap_spec(exps[ch]@, 0,
            nchmant[ch] as int, ch_bap_params(bai, csnroffst, fsnroffst, fgaincod, ch, fscod), ch_segs(eff, ch), None),
            nchmant[ch] as nat)
        &&& pv.chincpl == chincpl
        &&& pv.coupling == cpl
        &&& pv.lfe == lfe
        &&& mantissas_spec(s, p, pv, GroupedQuantizer::new_spec()) matches Ok((chm, cplm, lfem, acts, q))
            && chmant_view(m.chmant@) == chm && m.write_actions@ == acts
            && (match m.cplmant { Some(v) => cplm == Some(v@), None => cplm is None })
            && (match m.lfemant { Some(v) => lfem == Some(v@), None => lfem is None })
    }
}

/// Bit allocation parameters with the given SNR offsets and fast gain code.
pub open spec fn bap_params(bai: BitAllocParams, csnroffst: u8, fsnroffst: u8, fgaincod: u8, fscod: u8) -> BapParams {
    BapParams {
        sdcycod: bai.sdcycod,
        fdcycod: bai.fdcycod,
        sgaincod: bai.sgaincod,
        dbpbcod: bai.dbpbcod,
        floorcod: bai.floorcod,
        csnroffst,
        fsnroffst,
        fgaincod,
        fscod,
    }
}

/// The delta bit allocation segments in effect for the coupling channel.
pub open spec fn cpl_segs(eff: Option<EffectiveDeltBa>) -> Option<Seq<(u8, u8, u8)>> {
    match eff {
        Some(e) => opt_seg_tuples(e.cpldeltsegs),
        None => None,
    }
}

/// The coupling channel's pointers and mantissa count: computed from its
/// exponents over the `ncplmant` coefficients from the coupling begin
/// frequency on, with the coupling leak `leak`.
pub open spec fn cpl_alloc(exps: Option<[u8; 256]>, cplbegf: Option<u8>, ncplmant: nat, bai: BitAllocParams,
    csnroffst: u8, fsnroffst: Option<u8>, fgaincod: Option<u8>, eff: Option<EffectiveDeltBa>, leak: Option<(u8, u8)>,
    fscod: u8) -> Option<(Seq<u8>, nat)> {
    match exps {
        Some(e) => Some((compute_bap_spec(e@, 37 + 12 * cplbegf->Some_0, 37 + 12 * cplbegf->Some_0 + ncplmant,
            bap_params(bai, csnroffst, fsnroffst->Some_0, fgaincod->Some_0, fscod), cpl_segs(eff), leak), ncplmant)),
        None => None,
    }
}

/// The effects channel's pointers: computed from its exponents over its
/// seven coefficients.
pub open spec fn lfe_alloc(exps: Option<[u8; 256]>, bai: BitAllocParams, csnroffst: u8, fsnroffst: Option<u8>,
    fgaincod: Option<u8>, fscod: u8) -> Option<Seq<u8>> {
    match exps {
        Some(e) => Some(compute_bap_spec(e@, 0, 7, bap_params(bai, csnroffst, fsnroffst->Some_0, fgaincod->Some_0, fscod),
            None, None)),
        None => None,
    }
}

/// The delta bit allocation segments as `(offset, length, value)`.
pub open spec fn seg_tuples(segs: Seq<DeltBaSegment>) -> Seq<(u8, u8, u8)> {
    Seq::new(segs.len(), |i: int| (segs[i].deltoffst, segs[i].deltlen, segs[i].deltba))
}

/// The segments of an optional list, as tuples.
pub open spec fn opt_seg_tuples(o: Option<Vec<DeltBaSegment>>) -> Option<Seq<(u8, u8, u8)>> {
    match o {
        Some(v) => Some(seg_tuples(v@)),
        None => None,
    }
}

/// The delta bit allocation segments in effect for full-bandwidth channel
/// `ch`, as tuples.
pub open spec fn ch_segs(eff: Option<EffectiveDeltBa>, ch: int) -> Option<Seq<(u8, u8, u8)>> {
    match eff {
        Some(e) => if ch < e.deltsegs@.len() { opt_seg_tuples(e.deltsegs@[ch]) } else { None },
        None => None,
    }
}

/// The bit allocation parameters of full-bandwidth channel `ch`.
pub open spec fn ch_bap_params(bai: BitAllocParams, csnroffst: u8, fsnroffst: Seq<u8>, fgaincod: Seq<u8>, ch: int,
    fscod: u8) -> BapParams {
    BapParams {
        sdcycod: bai.sdcycod,
        fdcycod: bai.fdcycod,
        sgaincod: bai.sgaincod,
        dbpbcod: bai.dbpbcod,
        floorcod: bai.floorcod,
        csnroffst,
        fsnroffst: fsnroffst[ch],
        fgaincod: fgaincod[ch],
        fscod,
    }
}

/// A copy of an optional segment list.
fn copy_opt_segs(o: &Option<Vec<DeltBaSegment>>) -> (r: Option<Vec<DeltBaSegment>>)
    ensures
        opt_seg_tuples(r) == opt_seg_tuples(*o),
{
    match o {
        Some(v) => {
            let c = v.clone();
            assert(c@ =~= v@);
            Some(c)
        },
        None => None,
    }
}

/// The delta bit allocation in effect: the block's new segments, the
/// previous ones where the block says to reuse them, none where it says
/// none; the previous ones throughout when the block has no information.
fn resolve_deltba(deltbai: &Option<DeltaBitAllocationInformation>, prev: &Option<EffectiveDeltBa>, nfchans: u8)
    -> (r: Option<EffectiveDeltBa>)
    requires
        deltbai matches Some(d) ==> d.deltbae@.len() == nfchans && d.deltsegs@.len() == nfchans,
{
    match deltbai {
        Some(dba) => {
            let eff_cpl = match dba.cpldeltbae {
                Some(0) => match prev {
                    Some(p) => copy_opt_segs(&p.cpldeltsegs),
                    None => None,
                },
                Some(1) => copy_opt_segs(&dba.cpldeltsegs),
                _ => None,
            };
            let mut eff: Vec<Option<Vec<DeltBaSegment>>> = Vec::new();
            let mut ch: usize = 0;
            while ch < nfchans as usize
                invariant
                    ch <= nfchans,
                    dba.deltbae@.len() == nfchans && dba.deltsegs@.len() == nfchans,
                decreases nfchans - ch,
            {
                let seg = if dba.deltbae[ch] == 0 {
                    match prev {
                        Some(p) => if ch < p.deltsegs.len() { copy_opt_segs(&p.deltsegs[ch]) } else { None },
                        None => None,
                    }
                } else if dba.deltbae[ch] == 1 {
                    copy_opt_segs(&dba.deltsegs[ch])
                } else {
                    None
                };
                eff.push(seg);
                ch = ch + 1;
            }
            Some(EffectiveDeltBa { cpldeltsegs: eff_cpl, deltsegs: eff })
        },
        None => match prev {
            Some(p) => {
                let mut eff: Vec<Option<Vec<DeltBaSegment>>> = Vec::new();
                let mut ch: usize = 0;
                while ch < p.deltsegs.len()
                    invariant
                        ch <= p.deltsegs@.len(),
                    decreases p.deltsegs@.len() - ch,
                {
                    eff.push(copy_opt_segs(&p.deltsegs[ch]));
                    ch = ch + 1;
                }
                Some(EffectiveDeltBa { cpldeltsegs: copy_opt_segs(&p.cpldeltsegs), deltsegs: eff })
            },
            None => None,
        },
    }
}

/// Decoded exponents of a block: the mantissa counts of the channels
/// and of the coupling channel, and the exponents of the full-bandwidth,
/// coupling and effects channels.
pub(crate) struct Decoded {
    pub(crate) nchmant: Vec<usize>,
    pub(crate) ncplmant: usize,
    pub(crate) ch_exps: Vec<[u8; 256]>,
    pub(crate) cpl_exps: Option<[u8; 256]>,
    pub(crate) lfe_exps: Option<[u8; 256]>,
}

/// Decode the exponents of a block; a channel's exponents that are not
/// new are the previous block's.
fn decode_all(nfchans: u8, es: &ExponentStrategy, chincpl: &Vec<bool>, cplinu: bool, cplbegf: Option<u8>,
    cplendf: Option<u8>, lfeon: bool, fb: &FullBandwidthChannelExponents, cpl_ch_exps: &Option<CouplingChannelExponent>,
    lfe_ch_exps: &Option<Option<LowFrequencyEffectChannel>>, prev: &AudblkDecodedState) -> (res: Result<Decoded, Error>)
    requires
        expstr_wf(*es, cplinu, lfeon, chincpl@, nfchans as nat),
        chincpl@.len() == nfchans,
        fb_wf(fb.channels@, es.chexpstr@, chincpl@, cplbegf, es.chbwcod@, nfchans as nat),
        state_wf(*prev, nfchans as nat),
        cplbegf is Some <==> cplendf is Some,
        cplbegf matches Some(b) ==> b < 16 && cplendf->Some_0 < 16 && b <= cplendf->Some_0 + 3,
        cpl_ch_exps matches Some(x) ==> cplinu && x.cplabsexp < 16 && x.cplexps@.len() <= 72
            && (es.cplexpstr matches Some(c) && c != 0),
        (cplinu && (es.cplexpstr matches Some(c) && c != 0)) ==> cpl_ch_exps is Some,
        lfe_ch_exps matches Some(Some(x)) ==> x.lfeexps@.len() == 2,
        lfeon && es.lfeexpstr == Some(true) ==> lfe_ch_exps matches Some(Some(_)),
    ensures
        res matches Ok(d) ==> {
            &&& d.nchmant@.len() == nfchans && d.ch_exps@.len() == nfchans
            &&& forall|ch: int| 0 <= ch < nfchans ==> #[trigger] d.nchmant@[ch] <= 262
            &&& (d.cpl_exps is Some <==> cplinu)
            &&& (cplinu ==> cplbegf is Some && d.ncplmant == 12 * (3 + cplendf->Some_0 - cplbegf->Some_0))
            &&& (d.lfe_exps is Some <==> lfeon)
            &&& forall|ch: int| 0 <= ch < nfchans ==> #[trigger] d.nchmant@[ch]
                == endmant_spec(chincpl@[ch], cplbegf, es.chbwcod@[ch])->Some_0
            &&& forall|ch: int| 0 <= ch < nfchans ==> (#[trigger] d.ch_exps@[ch])@
                == ch_exps_after(*es, fb.channels@, d.nchmant@[ch] as nat, prev.ch_decoded_exps@[ch]@, ch)
            &&& cplinu ==> opt_exps(d.cpl_exps) == cpl_exps_after(es.cplexpstr->Some_0, *cpl_ch_exps, d.ncplmant as nat,
                prev.cpl_decoded_exps)
            &&& lfeon ==> opt_exps(d.lfe_exps) == lfe_exps_after(es.lfeexpstr == Some(true), *lfe_ch_exps, prev.lfe_decoded_exps)
        },
        res matches Err(e) ==> e is InvalidState,
{
    let mut nchmant: Vec<usize> = Vec::new();
    let mut ch: usize = 0;
    while ch < nfchans as usize
        invariant
            ch <= nfchans,
            nchmant@.len() == ch,
            chincpl@.len() == nfchans,
            es.chbwcod@.len() == nfchans,
            cplbegf matches Some(b) ==> b < 16,
            forall|i: int| 0 <= i < nfchans ==> (#[trigger] es.chbwcod@[i] matches Some(b) ==> b < 64),
            forall|i: int| 0 <= i < ch ==> #[trigger] nchmant@[i] <= 262,
            forall|i: int| 0 <= i < ch ==> #[trigger] nchmant@[i] == endmant_spec(chincpl@[i], cplbegf, es.chbwcod@[i])->Some_0,
        decreases nfchans - ch,
    {
        let endmant: usize = if chincpl[ch] {
            match cplbegf {
                Some(b) => 37 + 12 * b as usize,
                None => {
                    return Err(Error::InvalidState("cplbegf missing"));
                },
            }
        } else {
            match es.chbwcod[ch] {
                Some(c) => 73 + 3 * c as usize,
                None => {
                    return Err(Error::InvalidState("chbwcod missing"));
                },
            }
        };
        nchmant.push(endmant);
        ch = ch + 1;
    }
    let ncplmant: usize = if cplinu {
        let begf = match cplbegf {
            Some(b) => b as usize,
            None => {
                return Err(Error::InvalidState("cplbegf missing"));
            },
        };
        let endf = match cplendf {
            Some(e) => e as usize,
            None => {
                return Err(Error::InvalidState("cplendf missing"));
            },
        };
        12 * (3 + endf - begf)
    } else {
        0
    };
    let mut ch_exps: Vec<[u8; 256]> = Vec::new();
    let mut k: usize = 0;
    while k < nfchans as usize
        invariant
            k <= nfchans,
            ch_exps@.len() == k,
            prev.ch_decoded_exps@.len() == nfchans,
            forall|i: int| 0 <= i < k ==> #[trigger] ch_exps@[i] == prev.ch_decoded_exps@[i],
        decreases nfchans - k,
    {
        ch_exps.push(prev.ch_decoded_exps[k]);
        k = k + 1;
    }
    let mut ch: usize = 0;
    while ch < nfchans as usize
        invariant
            ch <= nfchans,
            ch_exps@.len() == nfchans,
            nchmant@.len() == nfchans,
            es.chexpstr@.len() == nfchans,
            forall|i: int| 0 <= i < nfchans ==> #[trigger] es.chexpstr@[i] < 4,
            fb_wf(fb.channels@, es.chexpstr@, chincpl@, cplbegf, es.chbwcod@, nfchans as nat),
            chincpl@.len() == nfchans,
            es.chbwcod@.len() == nfchans,
            forall|i: int| 0 <= i < nfchans ==> #[trigger] nchmant@[i] == endmant_spec(chincpl@[i], cplbegf, es.chbwcod@[i])->Some_0,
            prev.ch_decoded_exps@.len() == nfchans,
            forall|i: int| 0 <= i < ch ==> (#[trigger] ch_exps@[i])@
                == ch_exps_after(*es, fb.channels@, nchmant@[i] as nat, prev.ch_decoded_exps@[i]@, i),
            forall|i: int| ch <= i < nfchans ==> #[trigger] ch_exps@[i] == prev.ch_decoded_exps@[i],
        decreases nfchans - ch,
    {
        let ghost before = ch_exps@;
        if es.chexpstr[ch] != 0 {
            match &fb.channels[ch] {
                Some(x) => {
                    if nchmant[ch] > 256 {
                        return Err(Error::InvalidState("exponent position past the last coefficient"));
                    }
                    assert(x.exps@.len() <= 87) by {
                        assert(fb.channels@[ch as int] is Some);
                    }
                    let e = decode_exponents(x.abs_exp, x.exps.as_slice(), es.chexpstr[ch], nchmant[ch]);
                    assert(e@ =~= ch_exps_after(*es, fb.channels@, nchmant@[ch as int] as nat,
                        prev.ch_decoded_exps@[ch as int]@, ch as int));
                    ch_exps.set(ch, e);
                    assert forall|i: int| 0 <= i < ch + 1 implies (#[trigger] ch_exps@[i])@
                        == ch_exps_after(*es, fb.channels@, nchmant@[i] as nat, prev.ch_decoded_exps@[i]@, i) by {
                        if i < ch {
                            assert(ch_exps@[i] == before[i]);
                        }
                    }
                },
                None => {
                    return Err(Error::InvalidState("fb exponent missing"));
                },
            }
        }
        ch = ch + 1;
    }
    let cpl_exps = if cplinu {
        let cplexpstr_val = match es.cplexpstr {
            Some(v) => v,
            None => {
                return Err(Error::InvalidState("cplexpstr missing while cplinu"));
            },
        };
        if cplexpstr_val != 0 {
            match cpl_ch_exps {
                Some(x) => {
                    let e = decode_exponents(x.cplabsexp * 2, x.cplexps.as_slice(), cplexpstr_val, ncplmant);
                    assert(e@ =~= decoded_exps((x.cplabsexp * 2) as u8, x.cplexps@, cplexpstr_val, ncplmant as int));
                    Some(e)
                },
                None => {
                    return Err(Error::InvalidState("cpl exponent missing"));
                },
            }
        } else {
            match prev.cpl_decoded_exps {
                Some(e) => Some(e),
                None => {
                    return Err(Error::InvalidState("no previous cpl exponents for reuse"));
                },
            }
        }
    } else {
        None
    };
    let lfe_exps = if lfeon {
        if es.lfeexpstr == Some(true) {
            match lfe_ch_exps {
                Some(Some(x)) => {
                    let e = decode_exponents(x.abs_exp, x.lfeexps.as_slice(), 1, 7);
                    assert(e@ =~= decoded_exps(x.abs_exp, x.lfeexps@, 1, 7));
                    Some(e)
                },
                _ => {
                    return Err(Error::InvalidState("lfe exponent missing"));
                },
            }
        } else {
            match prev.lfe_decoded_exps {
                Some(e) => Some(e),
                None => {
                    return Err(Error::InvalidState("no previous lfe exponents for reuse"));
                },
            }
        }
    } else {
        None
    };
    Ok(Decoded { nchmant, ncplmant, ch_exps, cpl_exps, lfe_exps })
}

/// The bit allocation pointers of one channel.
fn channel_bap(exps: &[u8; 256], nbins: usize, params: &BapParams, segs: &Option<Vec<DeltBaSegment>>) -> (r: Vec<u8>)
    requires
        nbins <= 253 || nbins > 256,
        0 < nbins <= 256 ==> params.codes_valid(),
    ensures
        r@.len() == nbins,
        r@ == compute_bap_spec(exps@, 0, nbins as int, *params, opt_seg_tuples(*segs), None),
{
    match segs {
        Some(sg) => {
            let t = segs_to_tuples(sg);
            compute_bap(exps.as_slice(), 0, nbins, params, Some(t.as_slice()), None)
        },
        None => compute_bap(exps.as_slice(), 0, nbins, params, None, None),
    }
}

/// Pointers of the channels with their mantissa counts, of the coupling
/// channel and of the effects channel.
pub(crate) struct Allocation {
    pub(crate) ch_bap: Vec<(Vec<u8>, usize)>,
    pub(crate) cpl_bap: Option<Vec<u8>>,
    pub(crate) lfe_bap: Option<Vec<u8>>,
}

/// Compute the bit allocation pointers of a block from its decoded
/// exponents and the parameters in effect.
fn allocate(nfchans: u8, fscod: u8, d: &Decoded, cplinu: bool, cplbegf: Option<u8>, lfeon: bool,
    bai: BitAllocParams, snr: &SnrOffset, eff_deltba: &Option<EffectiveDeltBa>, cplleak: Option<(u8, u8)>)
    -> (res: Result<Allocation, Error>)
    requires
        d.nchmant@.len() == nfchans && d.ch_exps@.len() == nfchans,
        forall|ch: int| 0 <= ch < nfchans ==> #[trigger] d.nchmant@[ch] <= 262,
        d.cpl_exps is Some <==> cplinu,
        cplinu ==> (cplbegf matches Some(b) && b < 16 && d.ncplmant <= 12 * (18 - b)),
        d.lfe_exps is Some <==> lfeon,
        bai_valid(bai),
        snr_usable(*snr, nfchans as nat),
    ensures
        res matches Ok(a) ==> {
            &&& a.ch_bap@.len() == nfchans
            &&& forall|ch: int| 0 <= ch < nfchans ==> (#[trigger] a.ch_bap@[ch]).1 == d.nchmant@[ch]
                && a.ch_bap@[ch].0@.len() == d.nchmant@[ch]
                && a.ch_bap@[ch].0@ == compute_bap_spec(d.ch_exps@[ch]@, 0, d.nchmant@[ch] as int,
                    ch_bap_params(bai, snr.csnroffst, snr.fsnroffst@, snr.fgaincod@, ch, fscod), ch_segs(*eff_deltba, ch), None)
            &&& (a.cpl_bap is Some <==> cplinu) && (a.cpl_bap matches Some(b) ==> b@.len() == d.ncplmant)
            &&& (a.lfe_bap is Some <==> lfeon) && (a.lfe_bap matches Some(b) ==> b@.len() == 7)
            &&& (match a.cpl_bap { Some(b) => Some((b@, d.ncplmant as nat)), None => None }) == cpl_alloc(d.cpl_exps, cplbegf,
                d.ncplmant as nat, bai, snr.csnroffst, snr.cplfsnroffst, snr.cplfgaincod, *eff_deltba, cplleak, fscod)
            &&& (match a.lfe_bap { Some(b) => Some(b@), None => None }) == lfe_alloc(d.lfe_exps, bai, snr.csnroffst,
                snr.lfefsnroffst, snr.lfefgaincod, fscod)
        },
        res matches Err(e) ==> e is InvalidState,
{
    let mut ch_bap: Vec<(Vec<u8>, usize)> = Vec::new();
    let mut ch: usize = 0;
    while ch < nfchans as usize
        invariant
            ch <= nfchans,
            ch_bap@.len() == ch,
            d.nchmant@.len() == nfchans && d.ch_exps@.len() == nfchans,
            forall|i: int| 0 <= i < nfchans ==> #[trigger] d.nchmant@[i] <= 262,
            forall|i: int| 0 <= i < ch ==> (#[trigger] ch_bap@[i]).1 == d.nchmant@[i] && ch_bap@[i].0@.len() == d.nchmant@[i]
                && ch_bap@[i].0@ == compute_bap_spec(d.ch_exps@[i]@, 0, d.nchmant@[i] as int,
                    ch_bap_params(bai, snr.csnroffst, snr.fsnroffst@, snr.fgaincod@, i, fscod), ch_segs(*eff_deltba, i), None),
            bai_valid(bai),
            snr_usable(*snr, nfchans as nat),
        decreases nfchans - ch,
    {
        let params = BapParams {
            sdcycod: bai.sdcycod,
            fdcycod: bai.fdcycod,
            sgaincod: bai.sgaincod,
            dbpbcod: bai.dbpbcod,
            floorcod: bai.floorcod,
            csnroffst: snr.csnroffst,
            fsnroffst: snr.fsnroffst[ch],
            fgaincod: snr.fgaincod[ch],
            fscod,
        };
        let nbins = d.nchmant[ch];
        if nbins > 253 && nbins <= 256 {
            return Err(Error::InvalidState("channel bandwidth past the last band"));
        }
        if nbins > 0 && fscod >= 3 {
            return Err(Error::InvalidState("reserved sample rate code"));
        }
        let segs: Option<Vec<DeltBaSegment>> = match eff_deltba {
            Some(e) => if ch < e.deltsegs.len() { copy_opt_segs(&e.deltsegs[ch]) } else { None },
            None => None,
        };
        assert(params == ch_bap_params(bai, snr.csnroffst, snr.fsnroffst@, snr.fgaincod@, ch as int, fscod));
        assert(opt_seg_tuples(segs) == ch_segs(*eff_deltba, ch as int));
        let b = channel_bap(&d.ch_exps[ch], nbins, &params, &segs);
        let ghost before = ch_bap@;
        ch_bap.push((b, nbins));
        assert(forall|i: int| 0 <= i < ch ==> ch_bap@[i] == before[i]);
        ch = ch + 1;
    }
    let cpl_bap = if cplinu {
        let begf = match cplbegf {
            Some(b) => b as usize,
            None => {
                return Err(Error::InvalidState("cplbegf missing"));
            },
        };
        let cplstrtmant = 37 + 12 * begf;
        let cplendmant = cplstrtmant + d.ncplmant;
        let fs = match snr.cplfsnroffst {
            Some(v) => v,
            None => {
                return Err(Error::InvalidState("cplfsnroffst missing"));
            },
        };
        let fg = match snr.cplfgaincod {
            Some(v) => v,
            None => {
                return Err(Error::InvalidState("cplfgaincod missing"));
            },
        };
        let params = BapParams {
            sdcycod: bai.sdcycod,
            fdcycod: bai.fdcycod,
            sgaincod: bai.sgaincod,
            dbpbcod: bai.dbpbcod,
            floorcod: bai.floorcod,
            csnroffst: snr.csnroffst,
            fsnroffst: fs,
            fgaincod: fg,
            fscod,
        };
        if d.ncplmant > 0 && fscod >= 3 {
            return Err(Error::InvalidState("reserved sample rate code"));
        }
        let exps = match &d.cpl_exps {
            Some(e) => e,
            None => {
                return Err(Error::InvalidState("cpl decoded exps missing"));
            },
        };
        let segs: Option<Vec<DeltBaSegment>> = match eff_deltba {
            Some(e) => copy_opt_segs(&e.cpldeltsegs),
            None => None,
        };
        assert(params == bap_params(bai, snr.csnroffst, snr.cplfsnroffst->Some_0, snr.cplfgaincod->Some_0, fscod));
        assert(opt_seg_tuples(segs) == cpl_segs(*eff_deltba));
        let b = match segs {
            Some(sg) => {
                let t = segs_to_tuples(&sg);
                compute_bap(exps.as_slice(), cplstrtmant, cplendmant, &params, Some(t.as_slice()), cplleak)
            },
            None => compute_bap(exps.as_slice(), cplstrtmant, cplendmant, &params, None, cplleak),
        };
        assert(b@ == compute_bap_spec(exps@, cplstrtmant as int, cplendmant as int, params, cpl_segs(*eff_deltba), cplleak));
        Some(b)
    } else {
        None
    };
    let lfe_bap = if lfeon {
        let fs = match snr.lfefsnroffst {
            Some(v) => v,
            None => {
                return Err(Error::InvalidState("lfefsnroffst missing"));
            },
        };
        let fg = match snr.lfefgaincod {
            Some(v) => v,
            None => {
                return Err(Error::InvalidState("lfefgaincod missing"));
            },
        };
        let params = BapParams {
            sdcycod: bai.sdcycod,
            fdcycod: bai.fdcycod,
            sgaincod: bai.sgaincod,
            dbpbcod: bai.dbpbcod,
            floorcod: bai.floorcod,
            csnroffst: snr.csnroffst,
            fsnroffst: fs,
            fgaincod: fg,
            fscod,
        };
        if fscod >= 3 {
            return Err(Error::InvalidState("reserved sample rate code"));
        }
        let exps = match &d.lfe_exps {
            Some(e) => e,
            None => {
                return Err(Error::InvalidState("lfe decoded exps missing"));
            },
        };
        assert(params == bap_params(bai, snr.csnroffst, snr.lfefsnroffst->Some_0, snr.lfefgaincod->Some_0, fscod));
        Some(compute_bap(exps.as_slice(), 0, 7, &params, None, None))
    } else {
        None
    };
    Ok(Allocation { ch_bap, cpl_bap, lfe_bap })
}

/// Compute the bit allocation of a block from its decoded exponents and
/// the parameters in effect (the block's own, else the previous block's),
/// and read its mantissas.
fn parse_block_mantissas(r: &mut BitstreamReader, nfchans: u8, fscod: u8, d: &Decoded, cplinu: bool,
    cplbegf: Option<u8>, lfeon: bool, bai: Option<BitAllocParams>, snroffst: &Option<SnrOffset>,
    cplleak: Option<CplLeak>, eff_deltba: &Option<EffectiveDeltBa>, chincpl: &Vec<bool>, prev: &AudblkDecodedState)
    -> (res: Result<QuantizedMantissaValues, Error>)
    requires
        1 <= nfchans <= 5,
        state_wf(*prev, nfchans as nat),
        chincpl@.len() == nfchans,
        d.nchmant@.len() == nfchans && d.ch_exps@.len() == nfchans,
        forall|ch: int| 0 <= ch < nfchans ==> #[trigger] d.nchmant@[ch] <= 262,
        d.cpl_exps is Some <==> cplinu,
        cplinu ==> (cplbegf matches Some(b) && b < 16 && d.ncplmant <= 12 * (18 - b)),
        d.lfe_exps is Some <==> lfeon,
        bai matches Some(b) ==> bai_valid(b),
        *snroffst matches Some(x) ==> snr_wf(x, cplinu, lfeon, nfchans as nat),
    ensures
        final(r).bytes() == old(r).bytes(),
        res matches Ok(m) ==> final(r).consumed() == old(r).consumed() + actions_bits(m.write_actions@)
            && forall|k: int| 0 <= k < m.write_actions@.len() ==> action_ok(#[trigger] m.write_actions@[k]),
        res is Ok ==> (bai is Some || prev.bai is Some) && (*snroffst is Some || prev.snroffst is Some),
        res matches Ok(m) ==> final(r).pos() == old(r).pos() + actions_bits(m.write_actions@).len(),
        res matches Ok(m) ==> channel_mantissas_read(old(r).bits(), old(r).pos(), m, nfchans as nat, d.ch_exps@,
            d.nchmant@, chincpl@, match bai { Some(b) => b, None => prev.bai->Some_0 },
            (match *snroffst { Some(x) => x, None => prev.snroffst->Some_0 }).csnroffst,
            (match *snroffst { Some(x) => x, None => prev.snroffst->Some_0 }).fsnroffst@,
            (match *snroffst { Some(x) => x, None => prev.snroffst->Some_0 }).fgaincod@, *eff_deltba, fscod,
            cpl_alloc(d.cpl_exps, cplbegf, d.ncplmant as nat, match bai { Some(b) => b, None => prev.bai->Some_0 },
                (match *snroffst { Some(x) => x, None => prev.snroffst->Some_0 }).csnroffst,
                (match *snroffst { Some(x) => x, None => prev.snroffst->Some_0 }).cplfsnroffst,
                (match *snroffst { Some(x) => x, None => prev.snroffst->Some_0 }).cplfgaincod, *eff_deltba,
                match cplleak { Some(c) => Some((c.cplfleak, c.cplsleak)),
                    None => match prev.cplleak { Some(c) => Some((c.cplfleak, c.cplsleak)), None => None } }, fscod),
            lfe_alloc(d.lfe_exps, match bai { Some(b) => b, None => prev.bai->Some_0 },
                (match *snroffst { Some(x) => x, None => prev.snroffst->Some_0 }).csnroffst,
                (match *snroffst { Some(x) => x, None => prev.snroffst->Some_0 }).lfefsnroffst,
                (match *snroffst { Some(x) => x, None => prev.snroffst->Some_0 }).lfefgaincod, fscod)),
        res matches Err(e) ==> e is Bitstream || e is InvalidState,
{
    let eff_bai = match bai {
        Some(b) => b,
        None => match prev.bai {
            Some(b) => b,
            None => {
                return Err(Error::InvalidState("bai missing (no current or previous)"));
            },
        },
    };
    let eff_snr: &SnrOffset = match snroffst {
        Some(x) => x,
        None => match &prev.snroffst {
            Some(x) => x,
            None => {
                return Err(Error::InvalidState("snroffst missing (no current or previous)"));
            },
        },
    };
    let eff_cplleak = match cplleak {
        Some(c) => Some((c.cplfleak, c.cplsleak)),
        None => match prev.cplleak {
            Some(c) => Some((c.cplfleak, c.cplsleak)),
            None => None,
        },
    };
    let alloc = allocate(nfchans, fscod, d, cplinu, cplbegf, lfeon, eff_bai, eff_snr, eff_deltba, eff_cplleak)?;
    let params = MantissaParams {
        channels: alloc.ch_bap.as_slice(),
        chincpl: chincpl.as_slice(),
        coupling: match &alloc.cpl_bap {
            Some(b) => Some((b.as_slice(), d.ncplmant)),
            None => None,
        },
        lfe: match &alloc.lfe_bap {
            Some(b) => Some(b.as_slice()),
            None => None,
        },
    };
    let ghost s = r.bits();
    let ghost p7 = r.pos();
    let ghost c7 = r.consumed();
    let _ = r.remaining_bits();
    proof {
        assert(params_valid(params@));
    }
    let mantissas = parse_mantissas(r, &params)?;
    proof {
        let pv = params@;
        assert forall|ch: int| 0 <= ch < nfchans implies #[trigger] pv.channels[ch] == (compute_bap_spec(d.ch_exps@[ch]@, 0,
            d.nchmant@[ch] as int, ch_bap_params(eff_bai, eff_snr.csnroffst, eff_snr.fsnroffst@, eff_snr.fgaincod@, ch, fscod),
            ch_segs(*eff_deltba, ch), None),
            d.nchmant@[ch] as nat) by {
            assert(pv.channels[ch] == (alloc.ch_bap@[ch].0@, alloc.ch_bap@[ch].1 as nat));
        }
        assert(channel_mantissas_read(s, p7, mantissas, nfchans as nat, d.ch_exps@, d.nchmant@, chincpl@, eff_bai,
            eff_snr.csnroffst, eff_snr.fsnroffst@, eff_snr.fgaincod@, *eff_deltba, fscod,
            cpl_alloc(d.cpl_exps, cplbegf, d.ncplmant as nat, eff_bai, eff_snr.csnroffst, eff_snr.cplfsnroffst,
                eff_snr.cplfgaincod, *eff_deltba, eff_cplleak, fscod),
            lfe_alloc(d.lfe_exps, eff_bai, eff_snr.csnroffst, eff_snr.lfefsnroffst, eff_snr.lfefgaincod, fscod)));
        lemma_mantissas_rewrite(s, p7, params@);
        assert(r.consumed() =~= c7 + actions_bits(mantissas.write_actions@));
    }
    Ok(mantissas)
}

/// The bits of a block as read, from the bits of its parts.
proof fn lemma_block_bits(blk: AudioBlock, w0: CplState, acmod: u8, lfeon: bool, n: nat, cplinu: bool, chincpl: Seq<bool>,
    c0: Seq<bool>, c1: Seq<bool>, c2: Seq<bool>, c3: Seq<bool>, c4: Seq<bool>, c5: Seq<bool>, c6: Seq<bool>,
    c7: Seq<bool>, c8: Seq<bool>)
    requires
        cpl_state_after(w0, blk.cpl.strategy, n) == (CplState { cplinu, chincpl }),
        c1 == c0 + blk.blksw@ + blk.dithflag@ + opt_bits(blk.dynrng, 8)
            + (if acmod == 0 { opt_bits(blk.dynrng2, 8) } else { Seq::empty() }),
        c2 == c1 + strategy_bits(blk.cpl.strategy, acmod),
        c3 == c2 + coord_read_bits(blk.cpl.coord, chincpl),
        c4 == c3 + remat_bits(blk.rematrixing, acmod),
        c5 == c4 + expstr_bits(blk.exponent_strategy, cplinu, lfeon)
            + bw_bits(blk.exponent_strategy.chexpstr@, blk.exponent_strategy.chbwcod@, chincpl,
                bw_count(blk.exponent_strategy, chincpl))
            + cpl_exps_bits(blk.cpl_ch_exps) + fb_exps_bits(blk.fb_ch_exps.channels@) + lfe_exps_bits(blk.lfe_ch_exps),
        c6 == c5 + bai_bits(blk.bapi.bai) + snr_bits(blk.bapi.snroffst, cplinu, lfeon, n) + leak_bits(blk.bapi.cplleak, cplinu),
        dummy_complete(blk.unused_dummy) ==> c7 == c6 + deltba_bits(blk.deltbai, cplinu) + dummy_bits(blk.unused_dummy),
        c8 == c7 + actions_bits(blk.mantissas.write_actions@),
    ensures
        dummy_complete(blk.unused_dummy) ==> c8 == c0 + audblk_bits(blk, w0, acmod, lfeon, n),
{
    let stc = CplState { cplinu, chincpl };
    lemma_cat4(c0, blk.blksw@, blk.dithflag@, opt_bits(blk.dynrng, 8),
        (if acmod == 0 { opt_bits(blk.dynrng2, 8) } else { Seq::empty() }));
    lemma_cat5(c4, expstr_bits(blk.exponent_strategy, cplinu, lfeon),
        bw_bits(blk.exponent_strategy.chexpstr@, blk.exponent_strategy.chbwcod@, chincpl,
            bw_count(blk.exponent_strategy, chincpl)),
        cpl_exps_bits(blk.cpl_ch_exps), fb_exps_bits(blk.fb_ch_exps.channels@), lfe_exps_bits(blk.lfe_ch_exps));
    lemma_cat3(c5, bai_bits(blk.bapi.bai), snr_bits(blk.bapi.snroffst, cplinu, lfeon, n), leak_bits(blk.bapi.cplleak, cplinu));
    if dummy_complete(blk.unused_dummy) {
        lemma_cat3(c6, deltba_bits(blk.deltbai, cplinu), dummy_bits(blk.unused_dummy),
            actions_bits(blk.mantissas.write_actions@));
        lemma_cat3(c4, exp_part_bits(blk, stc, lfeon), alloc_part_bits(blk, stc, lfeon, n), rest_part_bits(blk, stc));
        lemma_cat5(c0, head_bits(blk, acmod), strategy_bits(blk.cpl.strategy, acmod),
            coord_read_bits(blk.cpl.coord, chincpl), remat_bits(blk.rematrixing, acmod),
            audblk_tail_bits(blk, stc, lfeon, n));
    }
}

/// A block read can be written back.
proof fn lemma_block_ok(blk: AudioBlock, w0: CplState, acmod: u8, lfeon: bool, n: nat, cplinu: bool, chincpl: Seq<bool>)
    requires
        cpl_state_after(w0, blk.cpl.strategy, n) == (CplState { cplinu, chincpl }),
        chincpl.len() == n,
        strategy_wf(blk.cpl.strategy, acmod, n),
        expstr_wf(blk.exponent_strategy, cplinu, lfeon, chincpl, n),
        blk.bapi.snroffst matches Some(x) ==> snr_wf(x, cplinu, lfeon, n),
        blk.deltbai matches Some(d) ==> deltba_wf(d, cplinu, n),
        forall|k: int| 0 <= k < blk.mantissas.write_actions@.len() ==> action_ok(#[trigger] blk.mantissas.write_actions@[k]),
    ensures
        audblk_ok(blk, w0, acmod, lfeon, n),
        audblk_safe(blk, w0, acmod, lfeon, n),
{
    let es = blk.exponent_strategy;
    assert(bw_count(es, chincpl) == n);
    assert(bw_ok(es, chincpl));
    assert(!(exists|c: int| 0 <= c < bw_count(es, chincpl) && #[trigger] need_bw(es, chincpl, c) && c >= es.chbwcod@.len()));
}

/// Read an audio block after blocks that left the state `prev`; returns
/// the block and the state it leaves. A new coupling strategy whose begin
/// frequency lies more than three above its end frequency is refused.
/// The state holds the exponents decoded from the block (or kept from
/// `prev` where reused), and the mantissas are those read under the bit
/// allocation computed from these exponents. The block can be written
/// back under the coupling state the writer carries; where its dummy data
/// was complete, the bits read are the block's layout, as the writer
/// writes it.
#[verifier::rlimit(40)]
pub(crate) fn parse_audblk(r: &mut BitstreamReader, nfchans: u8, acmod: u8, lfeon: bool, fscod: u8,
    prev: &AudblkDecodedState) -> (res: Result<(AudioBlock, AudblkDecodedState), Error>)
    requires
        1 <= nfchans <= 5,
        state_wf(*prev, nfchans as nat),
    ensures
        final(r).bytes() == old(r).bytes(),
        res matches Ok((blk, st)) ==> {
            let w0 = CplState { cplinu: prev.cplinu, chincpl: prev.chincpl@ };
            &&& state_wf(st, nfchans as nat)
            &&& CplState { cplinu: st.cplinu, chincpl: st.chincpl@ } == cpl_state_after(w0, blk.cpl.strategy, nfchans as nat)
            &&& audblk_ok(blk, w0, acmod, lfeon, nfchans as nat)
            &&& audblk_safe(blk, w0, acmod, lfeon, nfchans as nat)
            &&& (blk.cpl.coord matches Some(c) ==> c.channels@.len() == nfchans)
            &&& blk.blksw@.len() == nfchans && blk.dithflag@.len() == nfchans
            &&& st.bai == (if blk.bapi.bai is Some { blk.bapi.bai } else { prev.bai })
            &&& st.cplleak == (if blk.bapi.cplleak is Some { blk.bapi.cplleak } else { prev.cplleak })
            &&& (st.cpl_decoded_exps is Some <==> st.cplinu)
            &&& (st.lfe_decoded_exps is Some <==> lfeon)
            &&& (st.cplinu ==> opt_exps(st.cpl_decoded_exps) == cpl_exps_after(blk.exponent_strategy.cplexpstr->Some_0,
                blk.cpl_ch_exps, (12 * (3 + st.cplendf->Some_0 - st.cplbegf->Some_0)) as nat, prev.cpl_decoded_exps))
            &&& (st.lfe_decoded_exps is Some ==> opt_exps(st.lfe_decoded_exps) == lfe_exps_after(
                blk.exponent_strategy.lfeexpstr == Some(true), blk.lfe_ch_exps, prev.lfe_decoded_exps))
            &&& st.bai is Some && st.snroffst is Some
            &&& channel_mantissas_read(old(r).bits(), (final(r).pos() - actions_bits(blk.mantissas.write_actions@).len()) as nat,
                blk.mantissas, nfchans as nat, st.ch_decoded_exps@,
                Seq::new(nfchans as nat, |ch: int| endmant_spec(st.chincpl@[ch], st.cplbegf,
                    blk.exponent_strategy.chbwcod@[ch])->Some_0 as usize),
                st.chincpl@, st.bai->Some_0, st.snroffst->Some_0.csnroffst, st.snroffst->Some_0.fsnroffst@,
                st.snroffst->Some_0.fgaincod@, st.eff_deltba, fscod,
                cpl_alloc(st.cpl_decoded_exps, st.cplbegf,
                    if st.cplinu { (12 * (3 + st.cplendf->Some_0 - st.cplbegf->Some_0)) as nat } else { 0 },
                    st.bai->Some_0, st.snroffst->Some_0.csnroffst, st.snroffst->Some_0.cplfsnroffst,
                    st.snroffst->Some_0.cplfgaincod, st.eff_deltba,
                    match st.cplleak { Some(c) => Some((c.cplfleak, c.cplsleak)), None => None }, fscod),
                lfe_alloc(st.lfe_decoded_exps, st.bai->Some_0, st.snroffst->Some_0.csnroffst,
                    st.snroffst->Some_0.lfefsnroffst, st.snroffst->Some_0.lfefgaincod, fscod))
            &&& forall|ch: int| 0 <= ch < nfchans ==> (#[trigger] st.ch_decoded_exps@[ch])@
                == ch_exps_after(blk.exponent_strategy, blk.fb_ch_exps.channels@,
                    endmant_spec(st.chincpl@[ch], st.cplbegf, blk.exponent_strategy.chbwcod@[ch])->Some_0,
                    prev.ch_decoded_exps@[ch]@, ch)
            &&& (dummy_complete(blk.unused_dummy) ==> final(r).consumed() == old(r).consumed()
                + audblk_bits(blk, w0, acmod, lfeon, nfchans as nat))
        },
        res matches Err(e) ==> e is Bitstream || e is InvalidState,
        inverted_cpl_range(old(r).bits(), old(r).pos(), nfchans as nat, acmod) ==> res == Err::<(AudioBlock, AudblkDecodedState), Error>(
            Error::InvalidState("invalid coupling range: ncplsubnd would be negative")),
{
    let ghost c0 = r.consumed();
    let ghost w0 = CplState { cplinu: prev.cplinu, chincpl: prev.chincpl@ };
    let (blksw, dithflag, dynrng, dynrng2) = parse_head(r, nfchans, acmod)?;
    let ghost c1 = r.consumed();
    let (strategy, cplinu, chincpl, phsflginu, ncplbnd) = parse_strategy(r, nfchans, acmod, prev.cplinu,
        &prev.chincpl, prev.phsflginu, prev.ncplbnd)?;
    let ghost c2 = r.consumed();
    let coord = parse_coord(r, cplinu, &chincpl, ncplbnd, acmod, phsflginu)?;
    let ghost c3 = r.consumed();
    let cplbegf = match &strategy {
        CplStrategy::InUse { cplbegf, .. } => Some(*cplbegf),
        _ => prev.cplbegf,
    };
    let cplendf = match &strategy {
        CplStrategy::InUse { cplendf, .. } => Some(*cplendf),
        _ => prev.cplendf,
    };
    let rematrixing = parse_remat(r, acmod, cplinu, cplbegf)?;
    let ghost c4 = r.consumed();
    let es = parse_expstr(r, nfchans, cplinu, lfeon, &chincpl, &prev.chbwcod)?;
    let cpl_ch_exps = parse_cpl_exps(r, cplinu, es.cplexpstr, cplbegf, cplendf)?;
    let fb_ch_exps = parse_fb_exps(r, nfchans, &es.chexpstr, &chincpl, cplbegf, &es.chbwcod)?;
    let lfe_ch_exps = parse_lfe_exps(r, lfeon, es.lfeexpstr)?;
    let ghost c5 = r.consumed();
    let bai = parse_bai(r)?;
    let snroffst = parse_snr(r, cplinu, lfeon, nfchans)?;
    let cplleak = parse_leak(r, cplinu)?;
    let ghost c6 = r.consumed();
    let deltbai = parse_deltba(r, cplinu, nfchans)?;
    let eff_deltba = resolve_deltba(&deltbai, &prev.eff_deltba, nfchans);
    let unused_dummy = parse_dummy(r)?;
    let ghost c7 = r.consumed();
    let d = decode_all(nfchans, &es, &chincpl, cplinu, cplbegf, cplendf, lfeon, &fb_ch_exps, &cpl_ch_exps,
        &lfe_ch_exps, prev)?;
    let mantissas = parse_block_mantissas(r, nfchans, fscod, &d, cplinu, cplbegf, lfeon, bai, &snroffst, cplleak,
        &eff_deltba, &chincpl, prev)?;
    proof {
        assert(d.nchmant@ =~= Seq::new(nfchans as nat, |ch: int| endmant_spec(chincpl@[ch], cplbegf,
            es.chbwcod@[ch])->Some_0 as usize));
    }
    let snr_copy = match &snroffst {
        Some(x) => Some(copy_snr(x)),
        None => None,
    };
    let state_snr = match snroffst {
        Some(x) => Some(x),
        None => match &prev.snroffst {
            Some(x) => Some(copy_snr(x)),
            None => None,
        },
    };
    let state_bai = match bai {
        Some(b) => Some(b),
        None => prev.bai,
    };
    let state_leak = match cplleak {
        Some(c) => Some(c),
        None => prev.cplleak,
    };
    let chincpl_state = chincpl.clone();
    assert(chincpl_state@ =~= chincpl@);
    let chbwcod_state = es.chbwcod.clone();
    assert(chbwcod_state@ =~= es.chbwcod@);
    let blk = AudioBlock {
        blksw,
        dithflag,
        dynrng,
        dynrng2,
        cpl: Cpl { strategy, coord },
        rematrixing,
        exponent_strategy: es,
        cpl_ch_exps,
        fb_ch_exps,
        lfe_ch_exps,
        bapi: BitAllocationParametricInformation { bai, snroffst: snr_copy, cplleak },
        deltbai,
        unused_dummy,
        mantissas,
    };
    let st = AudblkDecodedState {
        cplinu,
        chincpl: chincpl_state,
        phsflginu,
        ncplbnd,
        cplbegf,
        cplendf,
        bai: state_bai,
        snroffst: state_snr,
        cplleak: state_leak,
        eff_deltba,
        ch_decoded_exps: d.ch_exps,
        cpl_decoded_exps: d.cpl_exps,
        lfe_decoded_exps: d.lfe_exps,
        chbwcod: chbwcod_state,
    };
    proof {
        lemma_block_bits(blk, w0, acmod, lfeon, nfchans as nat, cplinu, chincpl@, c0, c1, c2, c3, c4, c5, c6, c7, r.consumed());
        lemma_block_ok(blk, w0, acmod, lfeon, nfchans as nat, cplinu, chincpl@);
    }
    Ok((blk, st))
}

} // verus!
