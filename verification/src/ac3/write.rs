//! Writing the parts of an AC-3 frame, each with the bits of its layout.

use vstd::prelude::*;
use crate::bitstream::{BitstreamWriter, u32_bits, lemma_add_assoc};
use crate::ac3::error::Error;
use crate::ac3::frame::{
    SyncInfo, AudioMode, BsiExtension, BitStreamInformation, CplStrategy, CplCoord, CplChannelCoord,
    ExponentStrategy, FullBandwidthChannelExponent, SnrOffset, DeltBaSegment, DeltaBitAllocationInformation,
    AudioBlock, AuxiliaryData, ErrorCheck, UnusedDummyData, Rematrixing,
};
use crate::ac3::layout::{
    ub, opt_bits, audprodi_bits, opt_flags, fields, si_bits, cmixlev_bits, surmixlev_bits, dsurmod_bits,
    dual_bits, ext_bits, addbsi_bits, bsi_bits, bsi_id_bits, mode_bits, bsi_mid_bits, bsi_tail_bits, CplState, cpl_state_after, head_bits, strategy_bits, bands_bits,
    chan_coord_bits, chans_read_bits, coord_read_bits, remat_bits, expstr_bits, bw_bits, bw_count, cpl_exps_bits,
    fb_exps_bits, lfe_exps_bits, bai_bits, snr_ch_bits, snr_bits, leak_bits, seg_list_bits, segs_bits,
    ch_segs_bits, deltba_bits, dummy_bits, audblk_tail_bits, audblk_bits, aux_bits, ec_bits, exp_part_bits,
    alloc_part_bits, rest_part_bits, blocks_bits, initial_cpl_state, lemma_cat3, lemma_cat4, lemma_cat5, final_cpl_state,
};
use crate::ac3::mantissa::{write_mantissas, action_ok, actions_bits};

verus! {

/// Write the `n`-bit field holding `v`.
fn wu(w: &mut BitstreamWriter, v: u32, n: u8)
    requires
        n <= 32,
    ensures
        final(w).bits() == old(w).bits() + ub(v as int, n as nat),
{
    w.write_bits(v, n);
}

/// Write a presence flag and the value.
fn w_opt(w: &mut BitstreamWriter, o: Option<u8>, n: u8)
    requires
        n <= 32,
    ensures
        final(w).bits() == old(w).bits() + opt_bits(o, n as nat),
{
    w.write_bool(o.is_some());
    if let Some(v) = o {
        w.write_bits(v as u32, n);
        assert(final(w).bits() =~= old(w).bits() + opt_bits(o, n as nat));
    } else {
        assert(final(w).bits() =~= old(w).bits() + opt_bits(o, n as nat));
    }
}

/// Write a presence flag and `(mixlevel, roomtyp)`.
fn w_audprodi(w: &mut BitstreamWriter, o: Option<(u8, u8)>)
    ensures
        final(w).bits() == old(w).bits() + audprodi_bits(o),
{
    w.write_bool(o.is_some());
    if let Some((m, r)) = o {
        w.write_bits(m as u32, 5);
        w.write_bits(r as u32, 2);
    }
    assert(final(w).bits() =~= old(w).bits() + audprodi_bits(o));
}

/// Write flags, one bit each.
fn w_flags(w: &mut BitstreamWriter, f: &Vec<bool>)
    ensures
        final(w).bits() == old(w).bits() + f@,
{
    let mut i: usize = 0;
    while i < f.len()
        invariant
            i <= f@.len(),
            w.bits() == old(w).bits() + f@.take(i as int),
        decreases f@.len() - i,
    {
        w.write_bool(f[i]);
        assert(f@.take(i + 1) =~= f@.take(i as int).push(f@[i as int]));
        assert(w.bits() =~= old(w).bits() + f@.take(i + 1));
        i = i + 1;
    }
    assert(f@.take(i as int) =~= f@);
}

/// Write values as `n`-bit fields.
fn w_fields(w: &mut BitstreamWriter, d: &Vec<u8>, n: u8)
    requires
        n <= 32,
    ensures
        final(w).bits() == old(w).bits() + fields(d@, n as nat),
{
    let mut i: usize = 0;
    while i < d.len()
        invariant
            n <= 32,
            i <= d@.len(),
            w.bits() == old(w).bits() + fields(d@.take(i as int), n as nat),
        decreases d@.len() - i,
    {
        w.write_bits(d[i] as u32, n);
        assert(d@.take(i + 1).drop_last() =~= d@.take(i as int));
        assert(w.bits() =~= old(w).bits() + fields(d@.take(i + 1), n as nat));
        i = i + 1;
    }
    assert(d@.take(i as int) =~= d@);
}

/// Write the sync information.
pub(crate) fn write_si(w: &mut BitstreamWriter, si: &SyncInfo)
    ensures
        final(w).bits() == old(w).bits() + si_bits(*si),
{
    w.write_bits(si.syncword as u32, 16);
    w.write_bits(si.crc1 as u32, 16);
    w.write_bits(si.fscod as u32, 2);
    w.write_bits(si.frmsizecod as u32, 6);
    assert(final(w).bits() =~= old(w).bits() + si_bits(*si));
}

/// Write the mix levels and surround mode of the coding mode.
fn write_mode_fields(w: &mut BitstreamWriter, acmod: u8, m: &AudioMode)
    ensures
        final(w).bits() == old(w).bits() + mode_bits(acmod, *m),
{
    proof {
        crate::ac3::layout::lemma_acmod_bits(acmod);
    }
    let ghost b0 = w.bits();
    if (acmod & 0x1) != 0 && acmod != 0x1 {
        match m {
            AudioMode::ThreeFront { cmixlev } => w.write_bits(*cmixlev as u32, 2),
            AudioMode::LcrSurround { cmixlev, .. } => w.write_bits(*cmixlev as u32, 2),
            AudioMode::FiveChannel { cmixlev, .. } => w.write_bits(*cmixlev as u32, 2),
            _ => {},
        }
    }
    assert(w.bits() =~= b0 + cmixlev_bits(acmod, *m));
    let ghost b1 = w.bits();
    if (acmod & 0x4) != 0 {
        match m {
            AudioMode::StereoSurround { surmixlev } => w.write_bits(*surmixlev as u32, 2),
            AudioMode::LcrSurround { surmixlev, .. } => w.write_bits(*surmixlev as u32, 2),
            AudioMode::Quad { surmixlev } => w.write_bits(*surmixlev as u32, 2),
            AudioMode::FiveChannel { surmixlev, .. } => w.write_bits(*surmixlev as u32, 2),
            _ => {},
        }
    }
    assert(w.bits() =~= b1 + surmixlev_bits(acmod, *m));
    let ghost b2 = w.bits();
    if let AudioMode::Stereo { dsurmod } = m {
        w.write_bits(*dsurmod as u32, 2);
    }
    assert(w.bits() =~= b2 + dsurmod_bits(*m));
    assert(w.bits() =~= b0 + mode_bits(acmod, *m));
}

/// Write the second channel's fields of a dual mono stream.
fn write_dual(w: &mut BitstreamWriter, m: &AudioMode)
    ensures
        final(w).bits() == old(w).bits() + dual_bits(*m),
{
    if let AudioMode::DualMono { dialnorm2, compr2, langcod2, audprodi2 } = m {
        wu(w, *dialnorm2 as u32, 5);
        w_opt(w, *compr2, 8);
        w_opt(w, *langcod2, 8);
        w_audprodi(w, *audprodi2);
    }
    assert(final(w).bits() =~= old(w).bits() + dual_bits(*m));
}

/// Write the extension fields.
fn write_ext(w: &mut BitstreamWriter, e: &BsiExtension)
    ensures
        final(w).bits() == old(w).bits() + ext_bits(*e),
{
    match e {
        BsiExtension::AltBsi { xbsi1, xbsi2 } => {
            w.write_bool(xbsi1.is_some());
            if let Some(x) = xbsi1 {
                w.write_bits(x.dmixmod as u32, 2);
                w.write_bits(x.ltrtcmixlev as u32, 3);
                w.write_bits(x.ltrtsurmixlev as u32, 3);
                w.write_bits(x.lorocmixlev as u32, 3);
                w.write_bits(x.lorosurmixlev as u32, 3);
            }
            let ghost b1 = w.bits();
            w.write_bool(xbsi2.is_some());
            if let Some(x) = xbsi2 {
                w.write_bits(x.dsurexmod as u32, 2);
                w.write_bits(x.dheadphonmod as u32, 2);
                w.write_bool(x.adconvtyp);
                w.write_bits(x.xbsi2 as u32, 8);
                w.write_bool(x.encinfo);
            }
            assert(final(w).bits() =~= old(w).bits() + ext_bits(*e));
        },
        BsiExtension::Standard { timecod1, timecod2 } => {
            w.write_bool(timecod1.is_some());
            if let Some(t) = timecod1 {
                w.write_bits(*t as u32, 14);
            }
            w.write_bool(timecod2.is_some());
            if let Some(t) = timecod2 {
                w.write_bits(*t as u32, 14);
            }
            assert(final(w).bits() =~= old(w).bits() + ext_bits(*e));
        },
    }
}

/// Write the stream identification, mode and coding mode.
fn write_bsi_id(w: &mut BitstreamWriter, bsi: &BitStreamInformation)
    ensures
        final(w).bits() == old(w).bits() + bsi_id_bits(*bsi),
{
    w.write_bits(bsi.bsid as u32, 5);
    w.write_bits(bsi.bsmod as u32, 3);
    w.write_bits(bsi.acmod as u32, 3);
    assert(final(w).bits() =~= old(w).bits() + bsi_id_bits(*bsi));
}

/// Write the fields from the effects flag to the production information.
fn write_bsi_mid(w: &mut BitstreamWriter, bsi: &BitStreamInformation)
    ensures
        final(w).bits() == old(w).bits() + bsi_mid_bits(*bsi),
{
    w.write_bool(bsi.lfeon);
    w.write_bits(bsi.dialnorm as u32, 5);
    w_opt(w, bsi.compr, 8);
    w_opt(w, bsi.langcod, 8);
    w_audprodi(w, bsi.audprodi);
    assert(final(w).bits() =~= old(w).bits() + bsi_mid_bits(*bsi));
}

/// Write the fields from the copyright flag on.
fn write_bsi_tail(w: &mut BitstreamWriter, bsi: &BitStreamInformation)
    ensures
        final(w).bits() == old(w).bits() + bsi_tail_bits(*bsi),
{
    w.write_bool(bsi.copyrightb);
    w.write_bool(bsi.origbs);
    write_ext(w, &bsi.ext);
    let ghost b5 = w.bits();
    w.write_bool(bsi.addbsi.is_some());
    if let Some(a) = &bsi.addbsi {
        w.write_bits(a.addbsil as u32, 6);
        w_fields(w, &a.addbsi, 8);
    }
    assert(w.bits() =~= b5 + addbsi_bits(bsi.addbsi));
    assert(final(w).bits() =~= old(w).bits() + bsi_tail_bits(*bsi));
}

/// Write the bit stream information.
pub(crate) fn write_bsi(w: &mut BitstreamWriter, bsi: &BitStreamInformation)
    ensures
        final(w).bits() == old(w).bits() + bsi_bits(*bsi),
{
    let ghost b0 = w.bits();
    write_bsi_id(w, bsi);
    write_mode_fields(w, bsi.acmod, &bsi.audio_mode);
    write_bsi_mid(w, bsi);
    write_dual(w, &bsi.audio_mode);
    write_bsi_tail(w, bsi);
    proof {
        let id = bsi_id_bits(*bsi);
        let md = mode_bits(bsi.acmod, bsi.audio_mode);
        let mid = bsi_mid_bits(*bsi);
        let du = dual_bits(bsi.audio_mode);
        let tl = bsi_tail_bits(*bsi);
        lemma_add_assoc(b0, id, md);
        lemma_add_assoc(b0, id + md, mid);
        lemma_add_assoc(b0, id + md + mid, du);
        lemma_add_assoc(b0, id + md + mid + du, tl);
    }
}

/// A block's coupling strategy can be written: a 2/0 stream in coupling
/// gives its phase flag use.
pub open spec fn strategy_ok(s: CplStrategy, acmod: u8) -> bool {
    match s {
        CplStrategy::InUse { phsflginu, .. } => acmod == 2 ==> phsflginu is Some,
        _ => true,
    }
}

/// Write the block switch, dither and dynamic range fields.
fn write_head(w: &mut BitstreamWriter, ab: &AudioBlock, acmod: u8)
    ensures
        final(w).bits() == old(w).bits() + head_bits(*ab, acmod),
{
    w_flags(w, &ab.blksw);
    w_flags(w, &ab.dithflag);
    w_opt(w, ab.dynrng, 8);
    let ghost b = w.bits();
    if acmod == 0 {
        w_opt(w, ab.dynrng2, 8);
    }
    assert(final(w).bits() =~= old(w).bits() + head_bits(*ab, acmod));
}

/// Write the coupling strategy.
fn write_strategy(w: &mut BitstreamWriter, s: &CplStrategy, acmod: u8) -> (r: Result<(), Error>)
    ensures
        r is Ok <==> strategy_ok(*s, acmod),
        r is Ok ==> final(w).bits() == old(w).bits() + strategy_bits(*s, acmod),
        r matches Err(e) ==> e is InvalidState,
{
    match s {
        CplStrategy::Reuse => {
            w.write_bool(false);
            assert(final(w).bits() =~= old(w).bits() + strategy_bits(*s, acmod));
        },
        CplStrategy::NotInUse => {
            w.write_bool(true);
            w.write_bool(false);
            assert(final(w).bits() =~= old(w).bits() + strategy_bits(*s, acmod));
        },
        CplStrategy::InUse { chincpl, phsflginu, cplbegf, cplendf, cplbndstrc } => {
            w.write_bool(true);
            w.write_bool(true);
            w_flags(w, chincpl);
            let ghost b = w.bits();
            if acmod == 0x2 {
                match phsflginu {
                    Some(p) => w.write_bool(*p),
                    None => {
                        return Err(Error::InvalidState("phsflginu must be set for stereo"));
                    },
                }
            }
            let ghost b2 = w.bits();
            w.write_bits(*cplbegf as u32, 4);
            w.write_bits(*cplendf as u32, 4);
            w_flags(w, cplbndstrc);
            assert(w.bits() =~= b2 + ub(*cplbegf as int, 4) + ub(*cplendf as int, 4) + cplbndstrc@);
            assert(final(w).bits() =~= old(w).bits() + strategy_bits(*s, acmod));
        },
    }
    Ok(())
}

/// Write coupling bands.
fn w_bands(w: &mut BitstreamWriter, b: &Vec<(u8, u8)>)
    ensures
        final(w).bits() == old(w).bits() + bands_bits(b@),
{
    let mut i: usize = 0;
    while i < b.len()
        invariant
            i <= b@.len(),
            w.bits() == old(w).bits() + bands_bits(b@.take(i as int)),
        decreases b@.len() - i,
    {
        let (e, m) = b[i];
        w.write_bits(e as u32, 4);
        w.write_bits(m as u32, 4);
        assert(b@.take(i + 1).drop_last() =~= b@.take(i as int));
        assert(w.bits() =~= old(w).bits() + bands_bits(b@.take(i + 1)));
        i = i + 1;
    }
    assert(b@.take(i as int) =~= b@);
}

/// Write the coupling coordinates of the channels in coupling, each
/// behind its `cplcoe` flag, and the phase flags.
fn write_coord(w: &mut BitstreamWriter, c: &Option<CplCoord>, chincpl: &Vec<bool>)
    ensures
        final(w).bits() == old(w).bits() + coord_read_bits(*c, chincpl@),
{
    if let Some(coord) = c {
        let chs = &coord.channels;
        let mut i: usize = 0;
        while i < chs.len()
            invariant
                i <= chs@.len(),
                w.bits() == old(w).bits() + chans_read_bits(chs@.take(i as int), chincpl@),
            decreases chs@.len() - i,
        {
            let ghost b = w.bits();
            if i < chincpl.len() && chincpl[i] {
                match &chs[i] {
                    Some(cc) => {
                        w.write_bool(true);
                        w.write_bits(cc.mstrcplco as u32, 2);
                        w_bands(w, &cc.bands);
                    },
                    None => {
                        w.write_bool(false);
                    },
                }
                assert(w.bits() =~= b + chan_coord_bits(chs@[i as int]));
            }
            assert(chs@.take(i + 1).drop_last() =~= chs@.take(i as int));
            assert(chs@.take(i + 1).last() == chs@[i as int]);
            assert(w.bits() =~= old(w).bits() + chans_read_bits(chs@.take(i + 1), chincpl@));
            i = i + 1;
        }
        assert(chs@.take(i as int) =~= chs@);
        let ghost b = w.bits();
        if let Some(flags) = &coord.phsflg {
            w_flags(w, flags);
        }
        assert(w.bits() =~= b + (match coord.phsflg { Some(f) => f@, None => Seq::empty() }));
    }
    assert(final(w).bits() =~= old(w).bits() + coord_read_bits(*c, chincpl@));
}

/// Channel `ch` carries new exponents and is not in coupling, so its
/// bandwidth code is written.
pub open spec fn need_bw(es: ExponentStrategy, chincpl: Seq<bool>, ch: int) -> bool {
    es.chexpstr@[ch] != 0 && !chincpl[ch]
}

/// Every bandwidth code to be written is there.
pub open spec fn bw_ok(es: ExponentStrategy, chincpl: Seq<bool>) -> bool {
    forall|ch: int| 0 <= ch < bw_count(es, chincpl) && #[trigger] need_bw(es, chincpl, ch)
        ==> ch < es.chbwcod@.len() && es.chbwcod@[ch] is Some
}

/// A bandwidth code to be written past the end of the list comes after a
/// missing one, which stops the writing first.
pub open spec fn bw_safe(es: ExponentStrategy, chincpl: Seq<bool>) -> bool {
    (exists|c: int| 0 <= c < bw_count(es, chincpl) && #[trigger] need_bw(es, chincpl, c) && c >= es.chbwcod@.len())
        ==> (exists|c: int| 0 <= c < bw_count(es, chincpl) && c < es.chbwcod@.len() && #[trigger] need_bw(es, chincpl, c)
            && es.chbwcod@[c] is None)
}

/// The exponent strategies to be written are there.
pub open spec fn expstr_ok(es: ExponentStrategy, cplinu: bool, lfeon: bool) -> bool {
    &&& cplinu ==> es.cplexpstr is Some
    &&& lfeon ==> es.lfeexpstr is Some
}

/// The coupling SNR fields to be written are there.
pub open spec fn snr_cpl_ok(o: Option<SnrOffset>, cplinu: bool) -> bool {
    match o {
        Some(x) => cplinu ==> x.cplfsnroffst is Some && x.cplfgaincod is Some,
        None => true,
    }
}

/// The SNR fields to be written are there.
pub open spec fn snr_ok(o: Option<SnrOffset>, cplinu: bool, lfeon: bool) -> bool {
    &&& snr_cpl_ok(o, cplinu)
    &&& match o {
        Some(x) => lfeon ==> x.lfefsnroffst is Some && x.lfefgaincod is Some,
        None => true,
    }
}

/// Once the coupling SNR fields are written, each channel has its fine
/// offset and gain code.
pub open spec fn snr_safe(o: Option<SnrOffset>, cplinu: bool, nfchans: nat) -> bool {
    match o {
        Some(x) => snr_cpl_ok(o, cplinu) ==> x.fsnroffst@.len() >= nfchans && x.fgaincod@.len() >= nfchans,
        None => true,
    }
}

/// The coupling delta bit allocation mode to be written is there.
pub open spec fn deltba_ok(o: Option<DeltaBitAllocationInformation>, cplinu: bool) -> bool {
    match o {
        Some(d) => cplinu ==> d.cpldeltbae is Some,
        None => true,
    }
}

/// Every segment list to be written has a segment.
pub open spec fn deltba_safe(o: Option<DeltaBitAllocationInformation>, cplinu: bool) -> bool {
    match o {
        Some(d) => (cplinu ==> d.cpldeltbae is Some) ==> {
            &&& (d.cpldeltsegs matches Some(s) ==> s@.len() > 0)
            &&& forall|i: int| 0 <= i < d.deltsegs@.len() ==> (#[trigger] d.deltsegs@[i] matches Some(s) ==> s@.len() > 0)
        },
        None => true,
    }
}

/// The bandwidth codes that the state update copies are there.
pub open spec fn end_safe(es: ExponentStrategy, nfchans: nat) -> bool {
    forall|ch: int| 0 <= ch < es.chexpstr@.len() && ch < nfchans && #[trigger] es.chexpstr@[ch] != 0 ==> ch < es.chbwcod@.len()
}

/// Every mantissa write action writes at most 32 bits.
pub open spec fn actions_ok(ab: AudioBlock) -> bool {
    forall|i: int| 0 <= i < ab.mantissas.write_actions@.len() ==> action_ok(#[trigger] ab.mantissas.write_actions@[i])
}

/// The fields of an audio block from the exponent strategies on can be
/// written.
pub open spec fn tail_ok(ab: AudioBlock, st: CplState, lfeon: bool) -> bool {
    &&& expstr_ok(ab.exponent_strategy, st.cplinu, lfeon)
    &&& bw_ok(ab.exponent_strategy, st.chincpl)
    &&& snr_ok(ab.bapi.snroffst, st.cplinu, lfeon)
    &&& deltba_ok(ab.deltbai, st.cplinu)
}

/// Writing the fields from the exponent strategies on reaches no index
/// outside a list: at each step where one could, an earlier missing field
/// has stopped the writing.
pub open spec fn tail_safe(ab: AudioBlock, st: CplState, lfeon: bool, nfchans: nat) -> bool {
    let es = ab.exponent_strategy;
    expstr_ok(es, st.cplinu, lfeon) ==> {
        &&& bw_safe(es, st.chincpl)
        &&& bw_ok(es, st.chincpl) ==> {
            &&& snr_safe(ab.bapi.snroffst, st.cplinu, nfchans)
            &&& snr_ok(ab.bapi.snroffst, st.cplinu, lfeon) ==> {
                &&& deltba_safe(ab.deltbai, st.cplinu)
                &&& deltba_ok(ab.deltbai, st.cplinu) ==> end_safe(es, nfchans) && actions_ok(ab)
            }
        }
    }
}

/// Write the exponent strategies.
fn write_expstr(w: &mut BitstreamWriter, es: &ExponentStrategy, cplinu: bool, lfeon: bool) -> (r: Result<(), Error>)
    ensures
        r is Ok <==> expstr_ok(*es, cplinu, lfeon),
        r is Ok ==> final(w).bits() == old(w).bits() + expstr_bits(*es, cplinu, lfeon),
        r matches Err(e) ==> e is InvalidState,
{
    if cplinu {
        match es.cplexpstr {
            Some(c) => w.write_bits(c as u32, 2),
            None => {
                return Err(Error::InvalidState("cplexpstr missing"));
            },
        }
    }
    let ghost b1 = w.bits();
    w_fields(w, &es.chexpstr, 2);
    let ghost b2 = w.bits();
    if lfeon {
        match es.lfeexpstr {
            Some(l) => w.write_bool(l),
            None => {
                return Err(Error::InvalidState("lfeexpstr missing"));
            },
        }
    }
    assert(final(w).bits() =~= old(w).bits() + expstr_bits(*es, cplinu, lfeon));
    Ok(())
}

/// Write the bandwidth codes.
fn write_bw(w: &mut BitstreamWriter, es: &ExponentStrategy, chincpl: &Vec<bool>) -> (r: Result<(), Error>)
    requires
        bw_safe(*es, chincpl@),
    ensures
        r is Ok <==> bw_ok(*es, chincpl@),
        r is Ok ==> final(w).bits() == old(w).bits() + bw_bits(es.chexpstr@, es.chbwcod@, chincpl@, bw_count(*es, chincpl@)),
        r matches Err(e) ==> e is InvalidState,
{
    let n: usize = if es.chexpstr.len() < chincpl.len() { es.chexpstr.len() } else { chincpl.len() };
    let ghost ci = chincpl@;
    let mut ch: usize = 0;
    while ch < n
        invariant
            n == bw_count(*es, ci),
            ci == chincpl@,
            ch <= n,
            bw_safe(*es, ci),
            forall|c: int| 0 <= c < ch && #[trigger] need_bw(*es, ci, c) ==> c < es.chbwcod@.len() && es.chbwcod@[c] is Some,
            w.bits() == old(w).bits() + bw_bits(es.chexpstr@, es.chbwcod@, ci, ch as nat),
        decreases n - ch,
    {
        let ghost b = w.bits();
        if es.chexpstr[ch] != 0 && !chincpl[ch] {
            assert(need_bw(*es, ci, ch as int));
            if ch >= es.chbwcod.len() {
                proof {
                    let c2 = choose|c: int| 0 <= c < bw_count(*es, ci) && c < es.chbwcod@.len() && #[trigger] need_bw(*es, ci, c)
                        && es.chbwcod@[c] is None;
                    assert(c2 < ch);
                }
                assert(false);
            }
            match es.chbwcod[ch] {
                Some(b) => w.write_bits(b as u32, 6),
                None => {
                    assert(!bw_ok(*es, ci));
                    return Err(Error::InvalidState("chbwcod missing"));
                },
            }
        }
        assert(w.bits() =~= old(w).bits() + bw_bits(es.chexpstr@, es.chbwcod@, ci, (ch + 1) as nat));
        ch = ch + 1;
    }
    Ok(())
}

/// Write the coupling, full-bandwidth and effects channel exponents.
fn write_exps(w: &mut BitstreamWriter, ab: &AudioBlock)
    ensures
        final(w).bits() == old(w).bits() + cpl_exps_bits(ab.cpl_ch_exps) + fb_exps_bits(ab.fb_ch_exps.channels@)
            + lfe_exps_bits(ab.lfe_ch_exps),
{
    if let Some(c) = &ab.cpl_ch_exps {
        w.write_bits(c.cplabsexp as u32, 4);
        w_fields(w, &c.cplexps, 7);
    }
    let ghost b1 = w.bits();
    assert(b1 =~= old(w).bits() + cpl_exps_bits(ab.cpl_ch_exps));
    let chs = &ab.fb_ch_exps.channels;
    let mut i: usize = 0;
    while i < chs.len()
        invariant
            i <= chs@.len(),
            w.bits() == b1 + fb_exps_bits(chs@.take(i as int)),
        decreases chs@.len() - i,
    {
        let ghost b = w.bits();
        if let Some(x) = &chs[i] {
            w.write_bits(x.abs_exp as u32, 4);
            w_fields(w, &x.exps, 7);
            w.write_bits(x.gainrng as u32, 2);
        }
        assert(chs@.take(i + 1).drop_last() =~= chs@.take(i as int));
        assert(w.bits() =~= b1 + fb_exps_bits(chs@.take(i + 1)));
        i = i + 1;
    }
    assert(chs@.take(i as int) =~= chs@);
    let ghost b2 = w.bits();
    if let Some(Some(l)) = &ab.lfe_ch_exps {
        w.write_bits(l.abs_exp as u32, 4);
        w_fields(w, &l.lfeexps, 7);
    }
    assert(w.bits() =~= b2 + lfe_exps_bits(ab.lfe_ch_exps));
}

/// Write the SNR offsets.
fn write_snr(w: &mut BitstreamWriter, o: &Option<SnrOffset>, cplinu: bool, lfeon: bool, nfchans: u8) -> (r: Result<(), Error>)
    requires
        snr_safe(*o, cplinu, nfchans as nat),
    ensures
        r is Ok <==> snr_ok(*o, cplinu, lfeon),
        r is Ok ==> final(w).bits() == old(w).bits() + snr_bits(*o, cplinu, lfeon, nfchans as nat),
        r matches Err(e) ==> e is InvalidState,
{
    w.write_bool(o.is_some());
    if let Some(x) = o {
        w.write_bits(x.csnroffst as u32, 6);
        let ghost b1 = w.bits();
        if cplinu {
            match (x.cplfsnroffst, x.cplfgaincod) {
                (Some(a), Some(b)) => {
                    w.write_bits(a as u32, 4);
                    w.write_bits(b as u32, 3);
                },
                _ => {
                    return Err(Error::InvalidState("cplfsnroffst missing"));
                },
            }
        }
        let ghost b2 = w.bits();
        let mut ch: usize = 0;
        while ch < nfchans as usize
            invariant
                ch <= nfchans,
                x.fsnroffst@.len() >= nfchans && x.fgaincod@.len() >= nfchans,
                w.bits() == b2 + snr_ch_bits(x.fsnroffst@, x.fgaincod@, ch as nat),
            decreases nfchans - ch,
        {
            w.write_bits(x.fsnroffst[ch] as u32, 4);
            w.write_bits(x.fgaincod[ch] as u32, 3);
            assert(w.bits() =~= b2 + snr_ch_bits(x.fsnroffst@, x.fgaincod@, (ch + 1) as nat));
            ch = ch + 1;
        }
        let ghost b3 = w.bits();
        if lfeon {
            match (x.lfefsnroffst, x.lfefgaincod) {
                (Some(a), Some(b)) => {
                    w.write_bits(a as u32, 4);
                    w.write_bits(b as u32, 3);
                },
                _ => {
                    return Err(Error::InvalidState("lfefsnroffst missing"));
                },
            }
        }
        assert(final(w).bits() =~= old(w).bits() + snr_bits(*o, cplinu, lfeon, nfchans as nat));
    } else {
        assert(final(w).bits() =~= old(w).bits() + snr_bits(*o, cplinu, lfeon, nfchans as nat));
    }
    Ok(())
}

/// Write the bit allocation parameters, SNR offsets and coupling leak.
#[verifier::spinoff_prover]
#[verifier::rlimit(40)]
fn write_alloc(w: &mut BitstreamWriter, ab: &AudioBlock, cplinu: bool, lfeon: bool, nfchans: u8) -> (r: Result<(), Error>)
    requires
        snr_safe(ab.bapi.snroffst, cplinu, nfchans as nat),
    ensures
        r is Ok <==> snr_ok(ab.bapi.snroffst, cplinu, lfeon),
        r is Ok ==> final(w).bits() == old(w).bits() + alloc_part_bits(*ab, CplState { cplinu, chincpl: Seq::empty() }, lfeon, nfchans as nat),
        r matches Err(e) ==> e is InvalidState,
{
    let bapi = &ab.bapi;
    w.write_bool(bapi.bai.is_some());
    if let Some(b) = bapi.bai {
        w.write_bits(b.sdcycod as u32, 2);
        w.write_bits(b.fdcycod as u32, 2);
        w.write_bits(b.sgaincod as u32, 2);
        w.write_bits(b.dbpbcod as u32, 2);
        w.write_bits(b.floorcod as u32, 3);
    }
    let ghost b1 = w.bits();
    assert(b1 =~= old(w).bits() + bai_bits(bapi.bai));
    write_snr(w, &bapi.snroffst, cplinu, lfeon, nfchans)?;
    let ghost b2 = w.bits();
    if cplinu {
        w.write_bool(bapi.cplleak.is_some());
        if let Some(c) = bapi.cplleak {
            w.write_bits(c.cplfleak as u32, 3);
            w.write_bits(c.cplsleak as u32, 3);
        }
    }
    assert(w.bits() =~= b2 + leak_bits(bapi.cplleak, cplinu));
    assert(final(w).bits() =~= old(w).bits() + alloc_part_bits(*ab, CplState { cplinu, chincpl: Seq::empty() }, lfeon, nfchans as nat));
    Ok(())
}

/// Write a segment list behind its count less one.
fn w_segs(w: &mut BitstreamWriter, s: &Vec<DeltBaSegment>)
    requires
        s@.len() > 0,
    ensures
        final(w).bits() == old(w).bits() + segs_bits(s@),
{
    w.write_bits((s.len() - 1) as u32, 3);
    let ghost b1 = w.bits();
    let mut i: usize = 0;
    while i < s.len()
        invariant
            i <= s@.len(),
            w.bits() == b1 + seg_list_bits(s@.take(i as int)),
        decreases s@.len() - i,
    {
        let g = s[i];
        w.write_bits(g.deltoffst as u32, 5);
        w.write_bits(g.deltlen as u32, 4);
        w.write_bits(g.deltba as u32, 3);
        assert(s@.take(i + 1).drop_last() =~= s@.take(i as int));
        assert(w.bits() =~= b1 + seg_list_bits(s@.take(i + 1)));
        i = i + 1;
    }
    assert(s@.take(i as int) =~= s@);
    assert(final(w).bits() =~= old(w).bits() + segs_bits(s@));
}

/// Write the delta bit allocation information.
fn write_deltba(w: &mut BitstreamWriter, o: &Option<DeltaBitAllocationInformation>, cplinu: bool) -> (r: Result<(), Error>)
    requires
        deltba_safe(*o, cplinu),
    ensures
        r is Ok <==> deltba_ok(*o, cplinu),
        r is Ok ==> final(w).bits() == old(w).bits() + deltba_bits(*o, cplinu),
        r matches Err(e) ==> e is InvalidState,
{
    w.write_bool(o.is_some());
    if let Some(d) = o {
        if cplinu {
            match d.cpldeltbae {
                Some(c) => w.write_bits(c as u32, 2),
                None => {
                    return Err(Error::InvalidState("cpldeltbae missing"));
                },
            }
        }
        let ghost b1 = w.bits();
        w_fields(w, &d.deltbae, 2);
        let ghost b2 = w.bits();
        if let Some(s) = &d.cpldeltsegs {
            w_segs(w, s);
        }
        let ghost b3 = w.bits();
        assert(b3 =~= b2 + (match d.cpldeltsegs { Some(s) => segs_bits(s@), None => Seq::empty() }));
        let segs = &d.deltsegs;
        let mut i: usize = 0;
        while i < segs.len()
            invariant
                i <= segs@.len(),
                forall|k: int| 0 <= k < segs@.len() ==> (#[trigger] segs@[k] matches Some(s) ==> s@.len() > 0),
                w.bits() == b3 + ch_segs_bits(segs@.take(i as int)),
            decreases segs@.len() - i,
        {
            let ghost b = w.bits();
            if let Some(s) = &segs[i] {
                w_segs(w, s);
            }
            assert(segs@.take(i + 1).drop_last() =~= segs@.take(i as int));
            assert(w.bits() =~= b3 + ch_segs_bits(segs@.take(i + 1)));
            i = i + 1;
        }
        assert(segs@.take(i as int) =~= segs@);
        assert(final(w).bits() =~= old(w).bits() + deltba_bits(*o, cplinu));
    } else {
        assert(final(w).bits() =~= old(w).bits() + deltba_bits(*o, cplinu));
    }
    Ok(())
}

/// Write the fields of an audio block from the exponent strategies on.
fn write_tail(w: &mut BitstreamWriter, ab: &AudioBlock, cplinu: bool, chincpl: &Vec<bool>, lfeon: bool, nfchans: u8)
    -> (r: Result<(), Error>)
    requires
        tail_safe(*ab, CplState { cplinu, chincpl: chincpl@ }, lfeon, nfchans as nat),
    ensures
        r is Ok <==> tail_ok(*ab, CplState { cplinu, chincpl: chincpl@ }, lfeon),
        r is Ok ==> final(w).bits() == old(w).bits() + audblk_tail_bits(*ab, CplState { cplinu, chincpl: chincpl@ }, lfeon, nfchans as nat),
        r matches Err(e) ==> e is InvalidState,
{
    let ghost st = CplState { cplinu, chincpl: chincpl@ };
    let ghost b0 = w.bits();
    let es = &ab.exponent_strategy;
    write_expstr(w, es, cplinu, lfeon)?;
    write_bw(w, es, chincpl)?;
    write_exps(w, ab);
    let ghost b1 = w.bits();
    proof {
        lemma_cat5(b0, expstr_bits(*es, cplinu, lfeon), bw_bits(es.chexpstr@, es.chbwcod@, st.chincpl, bw_count(*es, st.chincpl)),
            cpl_exps_bits(ab.cpl_ch_exps), fb_exps_bits(ab.fb_ch_exps.channels@), lfe_exps_bits(ab.lfe_ch_exps));
    }
    assert(b1 == b0 + exp_part_bits(*ab, st, lfeon));
    write_alloc(w, ab, cplinu, lfeon, nfchans)?;
    let ghost b2 = w.bits();
    assert(b2 == b1 + alloc_part_bits(*ab, st, lfeon, nfchans as nat));
    write_deltba(w, &ab.deltbai, cplinu)?;
    write_dummy(w, &ab.unused_dummy);
    write_mantissas(w, &ab.mantissas);
    proof {
        lemma_cat3(b2, deltba_bits(ab.deltbai, cplinu), dummy_bits(ab.unused_dummy), actions_bits(ab.mantissas.write_actions@));
        lemma_cat3(b0, exp_part_bits(*ab, st, lfeon), alloc_part_bits(*ab, st, lfeon, nfchans as nat), rest_part_bits(*ab, st));
    }
    Ok(())
}

/// Write the unused dummy data.
fn write_dummy(w: &mut BitstreamWriter, o: &Option<UnusedDummyData>)
    ensures
        final(w).bits() == old(w).bits() + dummy_bits(*o),
{
    w.write_bool(o.is_some());
    if let Some(d) = o {
        w.write_bits(d.skipl as u32, 9);
        w_fields(w, &d.skipfld, 8);
    }
    assert(final(w).bits() =~= old(w).bits() + dummy_bits(*o));
}

/// The coupling state that the writer carries from block to block.
pub(crate) struct CplWriteState {
    pub(crate) cplinu: bool,
    pub(crate) chincpl: Vec<bool>,
}

impl CplWriteState {
    /// The model: coupling in use and the channels in it.
    pub(crate) open spec fn model(&self) -> CplState {
        CplState { cplinu: self.cplinu, chincpl: self.chincpl@ }
    }
}

/// `n` false flags.
pub(crate) fn all_false(n: u8) -> (r: Vec<bool>)
    ensures
        r@ == Seq::new(n as nat, |i: int| false),
{
    let mut v: Vec<bool> = Vec::new();
    while v.len() < n as usize
        invariant
            v@.len() <= n,
            forall|i: int| 0 <= i < v@.len() ==> #[trigger] v@[i] == false,
        decreases n - v@.len(),
    {
        v.push(false);
    }
    assert(v@ =~= Seq::new(n as nat, |i: int| false));
    v
}

/// An audio block can be written after the coupling state `prev`.
pub open spec fn audblk_ok(ab: AudioBlock, prev: CplState, acmod: u8, lfeon: bool, nfchans: nat) -> bool {
    strategy_ok(ab.cpl.strategy, acmod) && tail_ok(ab, cpl_state_after(prev, ab.cpl.strategy, nfchans), lfeon)
}

/// Writing an audio block reaches no index outside a list.
pub open spec fn audblk_safe(ab: AudioBlock, prev: CplState, acmod: u8, lfeon: bool, nfchans: nat) -> bool {
    strategy_ok(ab.cpl.strategy, acmod) ==> tail_safe(ab, cpl_state_after(prev, ab.cpl.strategy, nfchans), lfeon, nfchans)
}

/// Write an audio block and carry the coupling state on.
fn write_audblk(w: &mut BitstreamWriter, nfchans: u8, acmod: u8, lfeon: bool, ab: &AudioBlock, prev: &mut CplWriteState)
    -> (r: Result<(), Error>)
    requires
        audblk_safe(*ab, old(prev).model(), acmod, lfeon, nfchans as nat),
    ensures
        r is Ok <==> audblk_ok(*ab, old(prev).model(), acmod, lfeon, nfchans as nat),
        r is Ok ==> final(w).bits() == old(w).bits() + audblk_bits(*ab, old(prev).model(), acmod, lfeon, nfchans as nat),
        r is Ok ==> final(prev).model() == cpl_state_after(old(prev).model(), ab.cpl.strategy, nfchans as nat),
        r matches Err(e) ==> e is InvalidState,
{
    let ghost b0 = w.bits();
    write_head(w, ab, acmod);
    write_strategy(w, &ab.cpl.strategy, acmod)?;
    update_state(prev, &ab.cpl.strategy, nfchans);
    write_coord(w, &ab.cpl.coord, &prev.chincpl);
    write_remat(w, &ab.rematrixing, acmod);
    let ghost b2 = w.bits();
    write_tail(w, ab, prev.cplinu, &prev.chincpl, lfeon, nfchans)?;
    proof {
        lemma_cat5(b0, head_bits(*ab, acmod), strategy_bits(ab.cpl.strategy, acmod), coord_read_bits(ab.cpl.coord, prev.model().chincpl),
            remat_bits(ab.rematrixing, acmod), audblk_tail_bits(*ab, prev.model(), lfeon, nfchans as nat));
    }
    Ok(())
}

/// Carry the coupling state over a block's strategy.
fn update_state(prev: &mut CplWriteState, s: &CplStrategy, nfchans: u8)
    ensures
        final(prev).model() == cpl_state_after(old(prev).model(), *s, nfchans as nat),
{
    match s {
        CplStrategy::Reuse => {},
        CplStrategy::NotInUse => {
            prev.cplinu = false;
            prev.chincpl = all_false(nfchans);
        },
        CplStrategy::InUse { chincpl, .. } => {
            prev.cplinu = true;
            let c = chincpl.clone();
            assert(c@ =~= chincpl@);
            prev.chincpl = c;
        },
    }
}

/// Write the rematrixing flags of a 2/0 stream.
fn write_remat(w: &mut BitstreamWriter, r: &Rematrixing, acmod: u8)
    ensures
        final(w).bits() == old(w).bits() + remat_bits(*r, acmod),
{
    if acmod == 0x2 {
        w.write_bool(r.rematflg.is_some());
        if let Some(f) = &r.rematflg {
            w_flags(w, f);
        }
    }
    assert(final(w).bits() =~= old(w).bits() + remat_bits(*r, acmod));
}

/// Audio blocks `i..` can be written after the coupling state `st`.
pub open spec fn blocks_ok(abs: Seq<AudioBlock>, i: int, st: CplState, acmod: u8, lfeon: bool, nfchans: nat) -> bool
    decreases abs.len() - i,
{
    if i < 0 || i >= abs.len() {
        true
    } else {
        audblk_ok(abs[i], st, acmod, lfeon, nfchans)
            && blocks_ok(abs, i + 1, cpl_state_after(st, abs[i].cpl.strategy, nfchans), acmod, lfeon, nfchans)
    }
}

/// Writing audio blocks `i..` reaches no index outside a list.
pub open spec fn blocks_safe(abs: Seq<AudioBlock>, i: int, st: CplState, acmod: u8, lfeon: bool, nfchans: nat) -> bool
    decreases abs.len() - i,
{
    if i < 0 || i >= abs.len() {
        true
    } else {
        audblk_safe(abs[i], st, acmod, lfeon, nfchans)
            && (audblk_ok(abs[i], st, acmod, lfeon, nfchans)
                ==> blocks_safe(abs, i + 1, cpl_state_after(st, abs[i].cpl.strategy, nfchans), acmod, lfeon, nfchans))
    }
}

/// Write the audio blocks.
pub(crate) fn write_blocks(w: &mut BitstreamWriter, abs: &Vec<AudioBlock>, nfchans: u8, acmod: u8, lfeon: bool)
    -> (r: Result<(), Error>)
    requires
        blocks_safe(abs@, 0, initial_cpl_state(nfchans as nat), acmod, lfeon, nfchans as nat),
    ensures
        r is Ok <==> blocks_ok(abs@, 0, initial_cpl_state(nfchans as nat), acmod, lfeon, nfchans as nat),
        r is Ok ==> final(w).bits() == old(w).bits() + blocks_bits(abs@, 0, initial_cpl_state(nfchans as nat), acmod, lfeon, nfchans as nat),
        r matches Err(e) ==> e is InvalidState,
{
    let ghost n = nfchans as nat;
    let mut prev = CplWriteState { cplinu: false, chincpl: all_false(nfchans) };
    let mut i: usize = 0;
    while i < abs.len()
        invariant
            n == nfchans as nat,
            i <= abs@.len(),
            blocks_safe(abs@, i as int, prev.model(), acmod, lfeon, n),
            blocks_ok(abs@, 0, initial_cpl_state(n), acmod, lfeon, n)
                == blocks_ok(abs@, i as int, prev.model(), acmod, lfeon, n),
            old(w).bits() + blocks_bits(abs@, 0, initial_cpl_state(n), acmod, lfeon, n)
                == w.bits() + blocks_bits(abs@, i as int, prev.model(), acmod, lfeon, n),
        decreases abs@.len() - i,
    {
        let ghost b = w.bits();
        let ghost st = prev.model();
        write_audblk(w, nfchans, acmod, lfeon, &abs[i], &mut prev)?;
        proof {
            lemma_add_assoc(b, audblk_bits(abs@[i as int], st, acmod, lfeon, n),
                blocks_bits(abs@, i + 1, prev.model(), acmod, lfeon, n));
        }
        i = i + 1;
    }
    assert(w.bits() + Seq::<bool>::empty() =~= w.bits());
    Ok(())
}

/// Write the auxiliary data.
pub(crate) fn write_aux(w: &mut BitstreamWriter, aux: &AuxiliaryData)
    ensures
        final(w).bits() == old(w).bits() + aux_bits(*aux),
{
    if aux.auxdata.len() > 0 {
        let partial = aux.last_byte_bits < 8 && aux.last_byte_bits > 0;
        let full_bytes = if partial { aux.auxdata.len() - 1 } else { aux.auxdata.len() };
        let ghost d = aux.auxdata@;
        let ghost full = if partial { d.drop_last() } else { d };
        let mut i: usize = 0;
        while i < full_bytes
            invariant
                full_bytes == full.len(),
                full == (if partial { d.drop_last() } else { d }),
                d == aux.auxdata@,
                d.len() > 0,
                i <= full_bytes,
                w.bits() == old(w).bits() + fields(full.take(i as int), 8),
            decreases full_bytes - i,
        {
            w.write_bits(aux.auxdata[i] as u32, 8);
            assert(full.take(i + 1).drop_last() =~= full.take(i as int));
            assert(w.bits() =~= old(w).bits() + fields(full.take(i + 1), 8));
            i = i + 1;
        }
        assert(full.take(i as int) =~= full);
        if partial {
            let last = aux.auxdata[aux.auxdata.len() - 1];
            w.write_bits(last as u32, aux.last_byte_bits);
        }
        assert(final(w).bits() =~= old(w).bits() + aux_bits(*aux));
    } else {
        assert(final(w).bits() =~= old(w).bits() + aux_bits(*aux));
    }
}

/// Write the error check.
pub(crate) fn write_ec(w: &mut BitstreamWriter, ec: &ErrorCheck)
    ensures
        final(w).bits() == old(w).bits() + ec_bits(*ec),
{
    w.write_bool(ec.crcrsv);
    w.write_bits(ec.crc2 as u32, 16);
    assert(final(w).bits() =~= old(w).bits() + ec_bits(*ec));
}

/// Appending a block: the blocks can be written (without reaching
/// outside a list) when those before can and the block can under the
/// coupling state they leave.
pub proof fn lemma_blocks_ok_push(abs: Seq<AudioBlock>, b: AudioBlock, i: int, st: CplState, acmod: u8, lfeon: bool,
    nfchans: nat)
    requires
        0 <= i <= abs.len(),
    ensures
        blocks_ok(abs.push(b), i, st, acmod, lfeon, nfchans) == (blocks_ok(abs, i, st, acmod, lfeon, nfchans)
            && audblk_ok(b, final_cpl_state(abs, i, st, nfchans), acmod, lfeon, nfchans)),
        blocks_safe(abs.push(b), i, st, acmod, lfeon, nfchans) == (blocks_safe(abs, i, st, acmod, lfeon, nfchans)
            && (blocks_ok(abs, i, st, acmod, lfeon, nfchans)
                ==> audblk_safe(b, final_cpl_state(abs, i, st, nfchans), acmod, lfeon, nfchans))),
    decreases abs.len() - i,
{
    let ab2 = abs.push(b);
    if i == abs.len() {
        assert(ab2[i] == b);
        let sa = cpl_state_after(st, b.cpl.strategy, nfchans);
        assert(blocks_ok(ab2, i + 1, sa, acmod, lfeon, nfchans));
        assert(blocks_safe(ab2, i + 1, sa, acmod, lfeon, nfchans));
    } else {
        assert(ab2[i] == abs[i]);
        let st2 = cpl_state_after(st, abs[i].cpl.strategy, nfchans);
        lemma_blocks_ok_push(abs, b, i + 1, st2, acmod, lfeon, nfchans);
    }
}

} // verus!
