//! The bit layout of an AC-3 frame: for each part of a frame, the bits
//! that stand for it. Writing a frame produces these bits, and parsing
//! reads a value whose bits are those consumed.

use vstd::prelude::*;
use crate::bitstream::u32_bits;
use crate::ac3::frame::{
    SyncInfo, AudioMode, nfchans_spec, BsiExtension, Addbsi, BitStreamInformation, CplStrategy, CplChannelCoord,
    CplCoord, Rematrixing, ExponentStrategy, CouplingChannelExponent, FullBandwidthChannelExponent,
    LowFrequencyEffectChannel, BitAllocParams, SnrOffset, CplLeak, DeltBaSegment, DeltaBitAllocationInformation,
    UnusedDummyData, AudioBlock, AuxiliaryData, ErrorCheck, Ac3,
};
use crate::ac3::mantissa::actions_bits;

verus! {

/// The `n`-bit field holding `v`.
pub open spec fn ub(v: int, n: nat) -> Seq<bool> {
    u32_bits(v as u32, n)
}

/// A presence flag, then the `n`-bit value when present.
pub open spec fn opt_bits(o: Option<u8>, n: nat) -> Seq<bool> {
    match o {
        Some(v) => seq![true] + ub(v as int, n),
        None => seq![false],
    }
}

/// A presence flag, then `mixlevel` (5 bits) and `roomtyp` (2 bits).
pub open spec fn audprodi_bits(o: Option<(u8, u8)>) -> Seq<bool> {
    match o {
        Some((m, r)) => seq![true] + ub(m as int, 5) + ub(r as int, 2),
        None => seq![false],
    }
}

/// A presence flag, then the flags when present.
pub open spec fn opt_flags(o: Option<Vec<bool>>) -> Seq<bool> {
    match o {
        Some(f) => seq![true] + f@,
        None => seq![false],
    }
}

/// Values as `n`-bit fields.
pub open spec fn fields(d: Seq<u8>, n: nat) -> Seq<bool>
    decreases d.len(),
{
    if d.len() == 0 {
        Seq::empty()
    } else {
        fields(d.drop_last(), n) + ub(d.last() as int, n)
    }
}

/// Sync information: syncword, CRC, sample rate code, frame size code.
pub open spec fn si_bits(si: SyncInfo) -> Seq<bool> {
    ub(si.syncword as int, 16) + ub(si.crc1 as int, 16) + ub(si.fscod as int, 2) + ub(si.frmsizecod as int, 6)
}

/// The centre mix level, where the coding mode carries one.
pub open spec fn cmixlev_bits(acmod: u8, m: AudioMode) -> Seq<bool> {
    if acmod % 2 == 1 && acmod != 1 {
        match m {
            AudioMode::ThreeFront { cmixlev } => ub(cmixlev as int, 2),
            AudioMode::LcrSurround { cmixlev, .. } => ub(cmixlev as int, 2),
            AudioMode::FiveChannel { cmixlev, .. } => ub(cmixlev as int, 2),
            _ => Seq::empty(),
        }
    } else {
        Seq::empty()
    }
}

/// The surround mix level, where the coding mode carries one.
pub open spec fn surmixlev_bits(acmod: u8, m: AudioMode) -> Seq<bool> {
    if (acmod / 4) % 2 == 1 {
        match m {
            AudioMode::StereoSurround { surmixlev } => ub(surmixlev as int, 2),
            AudioMode::LcrSurround { surmixlev, .. } => ub(surmixlev as int, 2),
            AudioMode::Quad { surmixlev } => ub(surmixlev as int, 2),
            AudioMode::FiveChannel { surmixlev, .. } => ub(surmixlev as int, 2),
            _ => Seq::empty(),
        }
    } else {
        Seq::empty()
    }
}

/// The Dolby surround mode of a 2/0 stream.
pub open spec fn dsurmod_bits(m: AudioMode) -> Seq<bool> {
    match m {
        AudioMode::Stereo { dsurmod } => ub(dsurmod as int, 2),
        _ => Seq::empty(),
    }
}

/// The second channel's fields of a dual mono stream.
pub open spec fn dual_bits(m: AudioMode) -> Seq<bool> {
    match m {
        AudioMode::DualMono { dialnorm2, compr2, langcod2, audprodi2 } =>
            ub(dialnorm2 as int, 5) + opt_bits(compr2, 8) + opt_bits(langcod2, 8) + audprodi_bits(audprodi2),
        _ => Seq::empty(),
    }
}

/// The extension fields after `origbs`.
pub open spec fn ext_bits(e: BsiExtension) -> Seq<bool> {
    match e {
        BsiExtension::AltBsi { xbsi1, xbsi2 } =>
            (match xbsi1 {
                Some(x) => seq![true] + ub(x.dmixmod as int, 2) + ub(x.ltrtcmixlev as int, 3)
                    + ub(x.ltrtsurmixlev as int, 3) + ub(x.lorocmixlev as int, 3) + ub(x.lorosurmixlev as int, 3),
                None => seq![false],
            }) + (match xbsi2 {
                Some(x) => seq![true] + ub(x.dsurexmod as int, 2) + ub(x.dheadphonmod as int, 2)
                    + seq![x.adconvtyp] + ub(x.xbsi2 as int, 8) + seq![x.encinfo],
                None => seq![false],
            }),
        BsiExtension::Standard { timecod1, timecod2 } =>
            (match timecod1 {
                Some(t) => seq![true] + ub(t as int, 14),
                None => seq![false],
            }) + (match timecod2 {
                Some(t) => seq![true] + ub(t as int, 14),
                None => seq![false],
            }),
    }
}

/// Additional BSI: flag, length code, bytes.
pub open spec fn addbsi_bits(a: Option<Addbsi>) -> Seq<bool> {
    match a {
        Some(x) => seq![true] + ub(x.addbsil as int, 6) + fields(x.addbsi@, 8),
        None => seq![false],
    }
}

/// Stream identification, mode and coding mode.
pub open spec fn bsi_id_bits(b: BitStreamInformation) -> Seq<bool> {
    ub(b.bsid as int, 5) + ub(b.bsmod as int, 3) + ub(b.acmod as int, 3)
}

/// The mix levels and surround mode that the coding mode carries.
pub open spec fn mode_bits(acmod: u8, m: AudioMode) -> Seq<bool> {
    cmixlev_bits(acmod, m) + surmixlev_bits(acmod, m) + dsurmod_bits(m)
}

/// Effects channel flag, dialogue normalisation, compression, language
/// and production information.
pub open spec fn bsi_mid_bits(b: BitStreamInformation) -> Seq<bool> {
    seq![b.lfeon] + ub(b.dialnorm as int, 5) + opt_bits(b.compr, 8) + opt_bits(b.langcod, 8)
        + audprodi_bits(b.audprodi)
}

/// Copyright and original flags, extension and additional BSI.
pub open spec fn bsi_tail_bits(b: BitStreamInformation) -> Seq<bool> {
    seq![b.copyrightb, b.origbs] + ext_bits(b.ext) + addbsi_bits(b.addbsi)
}

/// Bit stream information.
pub open spec fn bsi_bits(b: BitStreamInformation) -> Seq<bool> {
    bsi_id_bits(b) + mode_bits(b.acmod, b.audio_mode) + bsi_mid_bits(b) + dual_bits(b.audio_mode) + bsi_tail_bits(b)
}

/// The coupling state that decides which fields an audio block carries:
/// whether coupling is in use and which channels are in it.
pub struct CplState {
    pub cplinu: bool,
    pub chincpl: Seq<bool>,
}

/// The coupling state after a block's strategy.
pub open spec fn cpl_state_after(st: CplState, s: CplStrategy, nfchans: nat) -> CplState {
    match s {
        CplStrategy::Reuse => st,
        CplStrategy::NotInUse => CplState { cplinu: false, chincpl: Seq::new(nfchans, |i: int| false) },
        CplStrategy::InUse { chincpl, .. } => CplState { cplinu: true, chincpl: chincpl@ },
    }
}

/// Block switch and dither flags, dynamic range words.
pub open spec fn head_bits(ab: AudioBlock, acmod: u8) -> Seq<bool> {
    ab.blksw@ + ab.dithflag@ + opt_bits(ab.dynrng, 8) + (if acmod == 0 { opt_bits(ab.dynrng2, 8) } else { Seq::empty() })
}

/// The coupling strategy.
pub open spec fn strategy_bits(s: CplStrategy, acmod: u8) -> Seq<bool> {
    match s {
        CplStrategy::Reuse => seq![false],
        CplStrategy::NotInUse => seq![true, false],
        CplStrategy::InUse { chincpl, phsflginu, cplbegf, cplendf, cplbndstrc } =>
            seq![true, true] + chincpl@ + (if acmod == 2 { seq![phsflginu->Some_0] } else { Seq::empty() })
                + ub(cplbegf as int, 4) + ub(cplendf as int, 4) + cplbndstrc@,
    }
}

/// Coupling bands: exponent and mantissa, 4 bits each.
pub open spec fn bands_bits(b: Seq<(u8, u8)>) -> Seq<bool>
    decreases b.len(),
{
    if b.len() == 0 {
        Seq::empty()
    } else {
        bands_bits(b.drop_last()) + ub(b.last().0 as int, 4) + ub(b.last().1 as int, 4)
    }
}

/// One channel's coupling coordinates behind its `cplcoe` flag.
pub open spec fn chan_coord_bits(c: Option<CplChannelCoord>) -> Seq<bool> {
    match c {
        Some(cc) => seq![true] + ub(cc.mstrcplco as int, 2) + bands_bits(cc.bands@),
        None => seq![false],
    }
}

/// Rematrixing flags of a 2/0 stream.
pub open spec fn remat_bits(r: Rematrixing, acmod: u8) -> Seq<bool> {
    if acmod == 2 { opt_flags(r.rematflg) } else { Seq::empty() }
}

/// Exponent strategies.
pub open spec fn expstr_bits(es: ExponentStrategy, cplinu: bool, lfeon: bool) -> Seq<bool> {
    (if cplinu { ub(es.cplexpstr->Some_0 as int, 2) } else { Seq::empty() }) + fields(es.chexpstr@, 2)
        + (if lfeon { seq![es.lfeexpstr->Some_0] } else { Seq::empty() })
}

/// Bandwidth codes of the channels `0..n` with new exponents that are
/// not in coupling.
pub open spec fn bw_bits(chexpstr: Seq<u8>, chbwcod: Seq<Option<u8>>, chincpl: Seq<bool>, n: nat) -> Seq<bool>
    decreases n,
{
    if n == 0 {
        Seq::empty()
    } else {
        let ch = n - 1;
        bw_bits(chexpstr, chbwcod, chincpl, (n - 1) as nat) + (if chexpstr[ch] != 0 && !chincpl[ch] {
            ub(chbwcod[ch]->Some_0 as int, 6)
        } else {
            Seq::empty()
        })
    }
}

/// The bandwidth bits of the first `n` channels depend on their codes only.
pub proof fn lemma_bw_bits_prefix(chexpstr: Seq<u8>, a: Seq<Option<u8>>, b: Seq<Option<u8>>, chincpl: Seq<bool>, n: nat)
    requires
        n <= a.len(),
        n <= b.len(),
        forall|i: int| 0 <= i < n ==> a[i] == b[i],
    ensures
        bw_bits(chexpstr, a, chincpl, n) == bw_bits(chexpstr, b, chincpl, n),
    decreases n,
{
    if n > 0 {
        lemma_bw_bits_prefix(chexpstr, a, b, chincpl, (n - 1) as nat);
    }
}

/// The number of channels whose bandwidth code may be written.
pub open spec fn bw_count(es: ExponentStrategy, chincpl: Seq<bool>) -> nat {
    if es.chexpstr@.len() < chincpl.len() { es.chexpstr@.len() } else { chincpl.len() }
}

/// Coupling channel exponents.
pub open spec fn cpl_exps_bits(c: Option<CouplingChannelExponent>) -> Seq<bool> {
    match c {
        Some(x) => ub(x.cplabsexp as int, 4) + fields(x.cplexps@, 7),
        None => Seq::empty(),
    }
}

/// Exponents of the full-bandwidth channels that carry new ones.
pub open spec fn fb_exps_bits(c: Seq<Option<FullBandwidthChannelExponent>>) -> Seq<bool>
    decreases c.len(),
{
    if c.len() == 0 {
        Seq::empty()
    } else {
        fb_exps_bits(c.drop_last()) + (match c.last() {
            Some(x) => ub(x.abs_exp as int, 4) + fields(x.exps@, 7) + ub(x.gainrng as int, 2),
            None => Seq::empty(),
        })
    }
}

/// Exponents of the effects channel.
pub open spec fn lfe_exps_bits(c: Option<Option<LowFrequencyEffectChannel>>) -> Seq<bool> {
    match c {
        Some(Some(x)) => ub(x.abs_exp as int, 4) + fields(x.lfeexps@, 7),
        _ => Seq::empty(),
    }
}

/// Bit allocation parameters.
pub open spec fn bai_bits(b: Option<BitAllocParams>) -> Seq<bool> {
    match b {
        Some(x) => seq![true] + ub(x.sdcycod as int, 2) + ub(x.fdcycod as int, 2) + ub(x.sgaincod as int, 2)
            + ub(x.dbpbcod as int, 2) + ub(x.floorcod as int, 3),
        None => seq![false],
    }
}

/// Fine SNR offsets and fast gain codes of channels `0..n`.
pub open spec fn snr_ch_bits(fs: Seq<u8>, fg: Seq<u8>, n: nat) -> Seq<bool>
    decreases n,
{
    if n == 0 {
        Seq::empty()
    } else {
        snr_ch_bits(fs, fg, (n - 1) as nat) + ub(fs[n - 1] as int, 4) + ub(fg[n - 1] as int, 3)
    }
}

/// SNR offsets.
pub open spec fn snr_bits(o: Option<SnrOffset>, cplinu: bool, lfeon: bool, nfchans: nat) -> Seq<bool> {
    match o {
        Some(x) => seq![true] + ub(x.csnroffst as int, 6)
            + (if cplinu { ub(x.cplfsnroffst->Some_0 as int, 4) + ub(x.cplfgaincod->Some_0 as int, 3) } else { Seq::empty() })
            + snr_ch_bits(x.fsnroffst@, x.fgaincod@, nfchans)
            + (if lfeon { ub(x.lfefsnroffst->Some_0 as int, 4) + ub(x.lfefgaincod->Some_0 as int, 3) } else { Seq::empty() }),
        None => seq![false],
    }
}

/// Coupling leak values.
pub open spec fn leak_bits(o: Option<CplLeak>, cplinu: bool) -> Seq<bool> {
    if cplinu {
        match o {
            Some(x) => seq![true] + ub(x.cplfleak as int, 3) + ub(x.cplsleak as int, 3),
            None => seq![false],
        }
    } else {
        Seq::empty()
    }
}

/// Delta bit allocation segments.
pub open spec fn seg_list_bits(s: Seq<DeltBaSegment>) -> Seq<bool>
    decreases s.len(),
{
    if s.len() == 0 {
        Seq::empty()
    } else {
        seg_list_bits(s.drop_last()) + ub(s.last().deltoffst as int, 5) + ub(s.last().deltlen as int, 4)
            + ub(s.last().deltba as int, 3)
    }
}

/// A segment list behind its count less one (3 bits).
pub open spec fn segs_bits(s: Seq<DeltBaSegment>) -> Seq<bool> {
    ub(s.len() - 1, 3) + seg_list_bits(s)
}

/// The segment lists of the channels that carry new ones.
pub open spec fn ch_segs_bits(c: Seq<Option<Vec<DeltBaSegment>>>) -> Seq<bool>
    decreases c.len(),
{
    if c.len() == 0 {
        Seq::empty()
    } else {
        ch_segs_bits(c.drop_last()) + (match c.last() {
            Some(s) => segs_bits(s@),
            None => Seq::empty(),
        })
    }
}

/// Delta bit allocation information.
pub open spec fn deltba_bits(o: Option<DeltaBitAllocationInformation>, cplinu: bool) -> Seq<bool> {
    match o {
        Some(d) => seq![true] + (if cplinu { ub(d.cpldeltbae->Some_0 as int, 2) } else { Seq::empty() })
            + fields(d.deltbae@, 2)
            + (match d.cpldeltsegs { Some(s) => segs_bits(s@), None => Seq::empty() })
            + ch_segs_bits(d.deltsegs@),
        None => seq![false],
    }
}

/// Unused dummy data.
pub open spec fn dummy_bits(o: Option<UnusedDummyData>) -> Seq<bool> {
    match o {
        Some(d) => seq![true] + ub(d.skipl as int, 9) + fields(d.skipfld@, 8),
        None => seq![false],
    }
}

/// Exponent strategies, bandwidth codes and exponents.
pub open spec fn exp_part_bits(ab: AudioBlock, st: CplState, lfeon: bool) -> Seq<bool> {
    let es = ab.exponent_strategy;
    expstr_bits(es, st.cplinu, lfeon) + bw_bits(es.chexpstr@, es.chbwcod@, st.chincpl, bw_count(es, st.chincpl))
        + cpl_exps_bits(ab.cpl_ch_exps) + fb_exps_bits(ab.fb_ch_exps.channels@) + lfe_exps_bits(ab.lfe_ch_exps)
}

/// Bit allocation parameters, SNR offsets and coupling leak.
pub open spec fn alloc_part_bits(ab: AudioBlock, st: CplState, lfeon: bool, nfchans: nat) -> Seq<bool> {
    bai_bits(ab.bapi.bai) + snr_bits(ab.bapi.snroffst, st.cplinu, lfeon, nfchans) + leak_bits(ab.bapi.cplleak, st.cplinu)
}

/// Delta bit allocation, dummy data and mantissas.
pub open spec fn rest_part_bits(ab: AudioBlock, st: CplState) -> Seq<bool> {
    deltba_bits(ab.deltbai, st.cplinu) + dummy_bits(ab.unused_dummy) + actions_bits(ab.mantissas.write_actions@)
}

/// The fields of an audio block from the exponent strategies on, under
/// the coupling state `st` in effect for the block.
pub open spec fn audblk_tail_bits(ab: AudioBlock, st: CplState, lfeon: bool, nfchans: nat) -> Seq<bool> {
    exp_part_bits(ab, st, lfeon) + alloc_part_bits(ab, st, lfeon, nfchans) + rest_part_bits(ab, st)
}

/// An audio block written after blocks that left the coupling state `prev`.
pub open spec fn audblk_bits(ab: AudioBlock, prev: CplState, acmod: u8, lfeon: bool, nfchans: nat) -> Seq<bool> {
    let st = cpl_state_after(prev, ab.cpl.strategy, nfchans);
    head_bits(ab, acmod) + strategy_bits(ab.cpl.strategy, acmod) + coord_read_bits(ab.cpl.coord, st.chincpl)
        + remat_bits(ab.rematrixing, acmod) + audblk_tail_bits(ab, st, lfeon, nfchans)
}

/// Audio blocks `i..` after the coupling state `st`.
pub open spec fn blocks_bits(abs: Seq<AudioBlock>, i: int, st: CplState, acmod: u8, lfeon: bool, nfchans: nat) -> Seq<bool>
    decreases abs.len() - i,
{
    if i < 0 || i >= abs.len() {
        Seq::empty()
    } else {
        audblk_bits(abs[i], st, acmod, lfeon, nfchans)
            + blocks_bits(abs, i + 1, cpl_state_after(st, abs[i].cpl.strategy, nfchans), acmod, lfeon, nfchans)
    }
}

/// The coupling state before the first block: no coupling.
pub open spec fn initial_cpl_state(nfchans: nat) -> CplState {
    CplState { cplinu: false, chincpl: Seq::new(nfchans, |i: int| false) }
}

/// Auxiliary data: the whole bytes, then the valid bits of a partial
/// last byte.
pub open spec fn aux_bits(a: AuxiliaryData) -> Seq<bool> {
    let d = a.auxdata@;
    if d.len() == 0 {
        Seq::empty()
    } else if 0 < a.last_byte_bits < 8 {
        fields(d.drop_last(), 8) + ub(d.last() as int, a.last_byte_bits as nat)
    } else {
        fields(d, 8)
    }
}

/// Error check: reserved flag and CRC.
pub open spec fn ec_bits(e: ErrorCheck) -> Seq<bool> {
    seq![e.crcrsv] + ub(e.crc2 as int, 16)
}

/// All fields of a frame before the auxiliary data.
pub open spec fn frame_head_bits(f: Ac3) -> Seq<bool> {
    let n = nfchans_spec(f.bsi.audio_mode) as nat;
    si_bits(f.si) + bsi_bits(f.bsi) + blocks_bits(f.ab@, 0, initial_cpl_state(n), f.bsi.acmod, f.bsi.lfeon, n)
}

/// The bits of a frame.
pub open spec fn frame_bits(f: Ac3) -> Seq<bool> {
    frame_head_bits(f) + aux_bits(f.aux) + ec_bits(f.ec)
}

/// The coordinates of the channels: a channel in coupling has its
/// `cplcoe` flag and coordinates; a channel outside (or beyond the
/// coupling flags) has no bits.
pub open spec fn chans_read_bits(c: Seq<Option<CplChannelCoord>>, chincpl: Seq<bool>) -> Seq<bool>
    decreases c.len(),
{
    if c.len() == 0 {
        Seq::empty()
    } else {
        chans_read_bits(c.drop_last(), chincpl) + (if c.len() - 1 < chincpl.len() && chincpl[c.len() - 1] {
            chan_coord_bits(c.last())
        } else {
            Seq::empty()
        })
    }
}

/// Coupling coordinates of the channels in coupling, and phase flags.
pub open spec fn coord_read_bits(c: Option<CplCoord>, chincpl: Seq<bool>) -> Seq<bool> {
    match c {
        Some(cc) => chans_read_bits(cc.channels@, chincpl) + (match cc.phsflg { Some(f) => f@, None => Seq::empty() }),
        None => Seq::empty(),
    }
}

/// Dummy data whose bytes were all there.
pub open spec fn dummy_complete(o: Option<UnusedDummyData>) -> bool {
    match o {
        Some(d) => d.skipfld@.len() == d.skipl,
        None => true,
    }
}

/// A block read after the coupling state `prev` reads back as written:
/// its dummy data is complete.
pub open spec fn block_complete(ab: AudioBlock, prev: CplState, nfchans: nat) -> bool {
    dummy_complete(ab.unused_dummy)
}

/// The coupling state after audio blocks `i..`.
pub open spec fn final_cpl_state(abs: Seq<AudioBlock>, i: int, st: CplState, nfchans: nat) -> CplState
    decreases abs.len() - i,
{
    if i < 0 || i >= abs.len() {
        st
    } else {
        final_cpl_state(abs, i + 1, cpl_state_after(st, abs[i].cpl.strategy, nfchans), nfchans)
    }
}

/// Every audio block from `i` on reads back as written.
pub open spec fn blocks_complete(abs: Seq<AudioBlock>, i: int, st: CplState, nfchans: nat) -> bool
    decreases abs.len() - i,
{
    if i < 0 || i >= abs.len() {
        true
    } else {
        block_complete(abs[i], st, nfchans)
            && blocks_complete(abs, i + 1, cpl_state_after(st, abs[i].cpl.strategy, nfchans), nfchans)
    }
}

/// Appending a block to a list of blocks appends its bits, under the
/// coupling state the list leaves.
pub proof fn lemma_blocks_bits_push(abs: Seq<AudioBlock>, b: AudioBlock, i: int, st: CplState, acmod: u8, lfeon: bool,
    nfchans: nat)
    requires
        0 <= i <= abs.len(),
    ensures
        blocks_bits(abs.push(b), i, st, acmod, lfeon, nfchans) == blocks_bits(abs, i, st, acmod, lfeon, nfchans)
            + audblk_bits(b, final_cpl_state(abs, i, st, nfchans), acmod, lfeon, nfchans),
        final_cpl_state(abs.push(b), i, st, nfchans)
            == cpl_state_after(final_cpl_state(abs, i, st, nfchans), b.cpl.strategy, nfchans),
        blocks_complete(abs.push(b), i, st, nfchans) == (blocks_complete(abs, i, st, nfchans)
            && block_complete(b, final_cpl_state(abs, i, st, nfchans), nfchans)),
    decreases abs.len() - i,
{
    let ab2 = abs.push(b);
    if i == abs.len() {
        assert(ab2[i] == b);
        let sa = cpl_state_after(st, b.cpl.strategy, nfchans);
        assert(final_cpl_state(ab2, i + 1, sa, nfchans) == sa);
        assert(blocks_complete(ab2, i + 1, sa, nfchans));
        assert(blocks_bits(ab2, i + 1, cpl_state_after(st, b.cpl.strategy, nfchans), acmod, lfeon, nfchans) =~= Seq::empty());
        assert(audblk_bits(b, st, acmod, lfeon, nfchans) + Seq::<bool>::empty() =~= audblk_bits(b, st, acmod, lfeon, nfchans));
        assert(Seq::<bool>::empty() + audblk_bits(b, st, acmod, lfeon, nfchans) =~= audblk_bits(b, st, acmod, lfeon, nfchans));
    } else {
        assert(ab2[i] == abs[i]);
        let st2 = cpl_state_after(st, abs[i].cpl.strategy, nfchans);
        lemma_blocks_bits_push(abs, b, i + 1, st2, acmod, lfeon, nfchans);
        let x = audblk_bits(abs[i], st, acmod, lfeon, nfchans);
        let y = blocks_bits(abs, i + 1, st2, acmod, lfeon, nfchans);
        let z = audblk_bits(b, final_cpl_state(abs, i + 1, st2, nfchans), acmod, lfeon, nfchans);
        assert(x + (y + z) =~= (x + y) + z);
    }
}

/// The coding mode's low bit and third bit, arithmetically.
pub proof fn lemma_acmod_bits(acmod: u8)
    by (bit_vector)
    ensures
        (acmod & 1u8) != 0 <==> acmod % 2 == 1,
        (acmod & 4u8) != 0 <==> (acmod / 4) % 2 == 1,
{
}

/// Appending three sequences one by one appends their concatenation.
pub proof fn lemma_cat3(b: Seq<bool>, a1: Seq<bool>, a2: Seq<bool>, a3: Seq<bool>)
    ensures
        b + a1 + a2 + a3 == b + (a1 + a2 + a3),
{
    assert(b + a1 + a2 + a3 =~= b + (a1 + a2 + a3));
}

/// Appending four sequences one by one appends their concatenation.
pub proof fn lemma_cat4(b: Seq<bool>, a1: Seq<bool>, a2: Seq<bool>, a3: Seq<bool>, a4: Seq<bool>)
    ensures
        b + a1 + a2 + a3 + a4 == b + (a1 + a2 + a3 + a4),
{
    assert(b + a1 + a2 + a3 + a4 =~= b + (a1 + a2 + a3 + a4));
}

/// Appending five sequences one by one appends their concatenation.
pub proof fn lemma_cat5(b: Seq<bool>, a1: Seq<bool>, a2: Seq<bool>, a3: Seq<bool>, a4: Seq<bool>, a5: Seq<bool>)
    ensures
        b + a1 + a2 + a3 + a4 + a5 == b + (a1 + a2 + a3 + a4 + a5),
{
    assert(b + a1 + a2 + a3 + a4 + a5 =~= b + (a1 + a2 + a3 + a4 + a5));
}

} // verus!
