//! AC-3 sync information and audio coding mode.

use vstd::prelude::*;
pub use crate::ac3::mantissa::{MantissaWriteAction, QuantizedMantissaValues};
use crate::ac3::error::Error;
use crate::bitstream::{BitstreamWriter, bytes_bits, bits_bytes, zeros, pad_len};
use crate::ac3::layout::{frame_bits, si_bits, bsi_bits, blocks_bits, aux_bits, ec_bits, initial_cpl_state, lemma_cat5};
use crate::ac3::write::{write_si, write_bsi, write_blocks, write_aux, write_ec, blocks_ok, blocks_safe, all_false,
    lemma_blocks_ok_push};
use crate::ac3::read::{parse_si, parse_bsi, parse_auxdata, parse_errorcheck, si_wf, bsi_wf, starts_with,
    lemma_starts_with_cat};
use crate::ac3::audblk::{parse_audblk, state_wf};
use crate::bitstream::{BitstreamReader, lemma_add_assoc, lemma_bits_bytes};
use crate::ac3::layout::{CplState, final_cpl_state, blocks_complete, block_complete, frame_head_bits, audblk_bits,
    lemma_blocks_bits_push};

verus! {

/// The AC-3 syncword.
pub const AC3_SYNCWORD: u16 = 0x0B77;

/// Frame size in 16-bit words, indexed by `frmsizecod` then `fscod`
/// (48 kHz, 44.1 kHz, 32 kHz).
pub const FRMSIZECOD_TABLE: [[u16; 3]; 38] = [
    [64, 69, 96],
    [64, 70, 96],
    [80, 87, 120],
    [80, 88, 120],
    [96, 104, 144],
    [96, 105, 144],
    [112, 121, 168],
    [112, 122, 168],
    [128, 139, 192],
    [128, 140, 192],
    [160, 174, 240],
    [160, 175, 240],
    [192, 208, 288],
    [192, 209, 288],
    [224, 243, 336],
    [224, 244, 336],
    [256, 278, 384],
    [256, 279, 384],
    [320, 348, 480],
    [320, 349, 480],
    [384, 417, 576],
    [384, 418, 576],
    [448, 487, 672],
    [448, 488, 672],
    [512, 557, 768],
    [512, 558, 768],
    [640, 696, 960],
    [640, 697, 960],
    [768, 835, 1152],
    [768, 836, 1152],
    [896, 975, 1344],
    [896, 976, 1344],
    [1024, 1114, 1536],
    [1024, 1115, 1536],
    [1152, 1253, 1728],
    [1152, 1254, 1728],
    [1280, 1393, 1920],
    [1280, 1394, 1920],
];

/// The frame size in bytes for a sample rate code and frame size code:
/// twice the table entry, or none for codes outside the table.
pub open spec fn frame_size_spec(fscod: u8, frmsizecod: u8) -> Option<usize> {
    if fscod >= 3 || frmsizecod >= 38 {
        None
    } else {
        Some((FRMSIZECOD_TABLE[frmsizecod as int][fscod as int] * 2) as usize)
    }
}

/// Every frame size in the table is between 128 and 3840 bytes.
pub proof fn lemma_frame_size_range(fscod: u8, frmsizecod: u8)
    ensures
        frame_size_spec(fscod, frmsizecod) matches Some(fs) ==> 128 <= fs <= 3840,
{
    assert(forall|i: int, j: int| 0 <= i < 38 && 0 <= j < 3 ==> 64 <= #[trigger] FRMSIZECOD_TABLE[i][j] <= 1920);
}

/// The nominal bit rate in kbit/s of a frame size code pair (A/52 table
/// 5.18), by `frmsizecod / 2`.
pub open spec fn nominal_bit_rate(i: int) -> int {
    if i == 0 { 32 } else if i == 1 { 40 } else if i == 2 { 48 } else if i == 3 { 56 } else if i == 4 { 64 }
    else if i == 5 { 80 } else if i == 6 { 96 } else if i == 7 { 112 } else if i == 8 { 128 } else if i == 9 { 160 }
    else if i == 10 { 192 } else if i == 11 { 224 } else if i == 12 { 256 } else if i == 13 { 320 } else if i == 14 { 384 }
    else if i == 15 { 448 } else if i == 16 { 512 } else if i == 17 { 576 } else { 640 }
}

/// A frame carries 1536 samples, so its size is the bit rate times 1536
/// over the sample rate: in bytes, four times the rate in kbit/s at 48 kHz
/// and six times at 32 kHz; at 44.1 kHz twice `rate * 320 / 147` 16-bit
/// words, rounded down, with one word more for the odd code of each pair.
pub proof fn lemma_frame_size_from_bit_rate(fscod: u8, frmsizecod: u8)
    requires
        fscod < 3,
        frmsizecod < 38,
    ensures ({
        let r = nominal_bit_rate(frmsizecod as int / 2);
        frame_size_spec(fscod, frmsizecod) == Some((if fscod == 0 {
            4 * r
        } else if fscod == 2 {
            6 * r
        } else {
            2 * (r * 320 / 147 + frmsizecod % 2)
        }) as usize)
    }),
{
    assert(forall|i: int| 0 <= i < 38 ==> {
        let r = nominal_bit_rate(i / 2);
        &&& #[trigger] FRMSIZECOD_TABLE[i][0] == 2 * r
        &&& FRMSIZECOD_TABLE[i][2] == 3 * r
        &&& FRMSIZECOD_TABLE[i][1] == r * 320 / 147 + i % 2
    });
}

/// Sync information.
#[derive(Debug)]
pub struct SyncInfo {
    pub syncword: u16,
    pub crc1: u16,
    pub fscod: u8,
    pub frmsizecod: u8,
}

/// Look up the frame size in bytes.
fn frame_size_of(fscod: u8, frmsizecod: u8) -> (r: Option<usize>)
    ensures
        r == frame_size_spec(fscod, frmsizecod),
{
    if fscod >= 3 || frmsizecod >= 38 {
        return None;
    }
    let words = FRMSIZECOD_TABLE[frmsizecod as usize][fscod as usize];
    assert(words <= 1920) by {
        assert(forall|i: int, j: int| 0 <= i < 38 && 0 <= j < 3 ==> #[trigger] FRMSIZECOD_TABLE[i][j] <= 1920);
    }
    Some(words as usize * 2)
}

impl SyncInfo {
    /// The frame size in bytes, or none for codes outside the table.
    pub fn frame_size(&self) -> (r: Option<usize>)
        ensures
            r == frame_size_spec(self.fscod, self.frmsizecod),
    {
        frame_size_of(self.fscod, self.frmsizecod)
    }
}

/// The frame size that the sync information at the start of `d` gives: at
/// least 5 bytes, the syncword, and codes inside the table are needed.
pub open spec fn peek_frame_size_spec(d: Seq<u8>) -> Option<usize> {
    if d.len() < 5 {
        None
    } else if d[0] != 0x0B || d[1] != 0x77 {
        None
    } else {
        frame_size_spec(d[4] >> 6u8, d[4] & 0x3Fu8)
    }
}

/// Read the frame size in bytes from the sync information at the start of
/// `data`.
pub fn peek_frame_size(data: &[u8]) -> (r: Option<usize>)
    ensures
        r == peek_frame_size_spec(data@),
{
    if data.len() < 5 {
        return None;
    }
    let syncword: u16 = ((data[0] as u16) << 8u16) | data[1] as u16;
    let b0 = data[0];
    let b1 = data[1];
    assert((((b0 as u16) << 8u16) | b1 as u16) == 0x0B77u16 <==> (b0 == 0x0Bu8 && b1 == 0x77u8)) by (bit_vector);
    if syncword != AC3_SYNCWORD {
        return None;
    }
    let fscod = data[4] >> 6;
    let frmsizecod = data[4] & 0x3F;
    frame_size_of(fscod, frmsizecod)
}

/// Audio coding mode with its mode-specific fields.
#[derive(Debug)]
pub enum AudioMode {
    /// 1+1 (Ch1, Ch2)
    DualMono { dialnorm2: u8, compr2: Option<u8>, langcod2: Option<u8>, audprodi2: Option<(u8, u8)> },
    /// 1/0 (C)
    Center,
    /// 2/0 (L, R)
    Stereo { dsurmod: u8 },
    /// 3/0 (L, C, R)
    ThreeFront { cmixlev: u8 },
    /// 2/1 (L, R, S)
    StereoSurround { surmixlev: u8 },
    /// 3/1 (L, C, R, S)
    LcrSurround { cmixlev: u8, surmixlev: u8 },
    /// 2/2 (L, R, SL, SR)
    Quad { surmixlev: u8 },
    /// 3/2 (L, C, R, SL, SR)
    FiveChannel { cmixlev: u8, surmixlev: u8 },
}

/// The number of full-bandwidth channels of a coding mode.
pub open spec fn nfchans_spec(m: AudioMode) -> u8 {
    match m {
        AudioMode::DualMono { .. } => 2,
        AudioMode::Center => 1,
        AudioMode::Stereo { .. } => 2,
        AudioMode::ThreeFront { .. } => 3,
        AudioMode::StereoSurround { .. } => 3,
        AudioMode::LcrSurround { .. } => 4,
        AudioMode::Quad { .. } => 4,
        AudioMode::FiveChannel { .. } => 5,
    }
}

impl AudioMode {
    /// The number of full-bandwidth channels.
    pub fn nfchans(&self) -> (r: u8)
        ensures
            r == nfchans_spec(*self),
    {
        match self {
            AudioMode::DualMono { .. } => 2,
            AudioMode::Center => 1,
            AudioMode::Stereo { .. } => 2,
            AudioMode::ThreeFront { .. } => 3,
            AudioMode::StereoSurround { .. } => 3,
            AudioMode::LcrSurround { .. } => 4,
            AudioMode::Quad { .. } => 4,
            AudioMode::FiveChannel { .. } => 5,
        }
    }
}

/// Extended BSI fields after `origbs`, by `bsid`.
#[derive(Debug)]
pub enum BsiExtension {
    /// `bsid == 6`: alternate BSI syntax.
    AltBsi { xbsi1: Option<Xbsi1>, xbsi2: Option<Xbsi2> },
    /// Other `bsid`: time codes (14 bits each).
    Standard { timecod1: Option<u16>, timecod2: Option<u16> },
}

/// Extra BSI 1 (downmix levels).
#[derive(Debug)]
pub struct Xbsi1 {
    pub dmixmod: u8,
    pub ltrtcmixlev: u8,
    pub ltrtsurmixlev: u8,
    pub lorocmixlev: u8,
    pub lorosurmixlev: u8,
}

/// Extra BSI 2.
#[derive(Debug)]
pub struct Xbsi2 {
    pub dsurexmod: u8,
    pub dheadphonmod: u8,
    pub adconvtyp: bool,
    pub xbsi2: u8,
    pub encinfo: bool,
}

/// Additional BSI: its length code and `addbsil + 1` bytes.
#[derive(Debug)]
pub struct Addbsi {
    pub addbsil: u8,
    pub addbsi: Vec<u8>,
}

/// Bit stream information.
#[derive(Debug)]
pub struct BitStreamInformation {
    pub bsid: u8,
    pub bsmod: u8,
    pub acmod: u8,
    pub audio_mode: AudioMode,
    pub lfeon: bool,
    pub dialnorm: u8,
    pub compr: Option<u8>,
    pub langcod: Option<u8>,
    /// `(mixlevel, roomtyp)`.
    pub audprodi: Option<(u8, u8)>,
    pub copyrightb: bool,
    pub origbs: bool,
    pub ext: BsiExtension,
    pub addbsi: Option<Addbsi>,
}

/// Coupling strategy of an audio block.
#[derive(Debug)]
pub enum CplStrategy {
    /// The previous block's strategy is kept (`cplstre == 0`).
    Reuse,
    /// Coupling is off (`cplstre == 1`, `cplinu == 0`).
    NotInUse,
    /// Coupling is on (`cplstre == 1`, `cplinu == 1`).
    InUse {
        chincpl: Vec<bool>,
        phsflginu: Option<bool>,
        cplbegf: u8,
        cplendf: u8,
        cplbndstrc: Vec<bool>,
    },
}

/// Coupling coordinates of one channel: master coordinate and
/// `(exponent, mantissa)` per coupling band.
#[derive(Debug)]
pub struct CplChannelCoord {
    pub mstrcplco: u8,
    pub bands: Vec<(u8, u8)>,
}

/// Coupling coordinates of the channels and phase flags.
#[derive(Debug)]
pub struct CplCoord {
    pub channels: Vec<Option<CplChannelCoord>>,
    pub phsflg: Option<Vec<bool>>,
}

/// Coupling information of an audio block.
#[derive(Debug)]
pub struct Cpl {
    pub strategy: CplStrategy,
    pub coord: Option<CplCoord>,
}

/// Rematrixing flags (2/0 mode only); `None` keeps the previous ones.
#[derive(Debug)]
pub struct Rematrixing {
    pub rematflg: Option<Vec<bool>>,
}

/// Exponent strategies and channel bandwidth codes.
#[derive(Debug)]
pub struct ExponentStrategy {
    pub cplexpstr: Option<u8>,
    pub chexpstr: Vec<u8>,
    pub lfeexpstr: Option<bool>,
    pub chbwcod: Vec<Option<u8>>,
}

/// Coupling channel exponents.
#[derive(Debug)]
pub struct CouplingChannelExponent {
    pub cplabsexp: u8,
    pub cplexps: Vec<u8>,
}

/// Exponents of one full-bandwidth channel.
#[derive(Debug)]
pub struct FullBandwidthChannelExponent {
    pub abs_exp: u8,
    pub exps: Vec<u8>,
    pub gainrng: u8,
}

/// Exponents of the full-bandwidth channels (`None`: reused).
#[derive(Debug)]
pub struct FullBandwidthChannelExponents {
    pub channels: Vec<Option<FullBandwidthChannelExponent>>,
}

/// Exponents of the low-frequency effects channel.
#[derive(Debug)]
pub struct LowFrequencyEffectChannel {
    pub abs_exp: u8,
    pub lfeexps: Vec<u8>,
}

/// Bit allocation parameters.
#[derive(Debug, Clone, Copy)]
pub struct BitAllocParams {
    pub sdcycod: u8,
    pub fdcycod: u8,
    pub sgaincod: u8,
    pub dbpbcod: u8,
    pub floorcod: u8,
}

/// SNR offsets and fast gain codes.
#[derive(Debug)]
pub struct SnrOffset {
    pub csnroffst: u8,
    pub cplfsnroffst: Option<u8>,
    pub cplfgaincod: Option<u8>,
    pub fsnroffst: Vec<u8>,
    pub fgaincod: Vec<u8>,
    pub lfefsnroffst: Option<u8>,
    pub lfefgaincod: Option<u8>,
}

/// Coupling leak initialisation.
#[derive(Debug, Clone, Copy)]
pub struct CplLeak {
    pub cplfleak: u8,
    pub cplsleak: u8,
}

/// Bit allocation parametric information of an audio block.
#[derive(Debug)]
pub struct BitAllocationParametricInformation {
    pub bai: Option<BitAllocParams>,
    pub snroffst: Option<SnrOffset>,
    pub cplleak: Option<CplLeak>,
}

/// One delta bit allocation segment.
#[derive(Debug, Clone, Copy)]
pub struct DeltBaSegment {
    pub deltoffst: u8,
    pub deltlen: u8,
    pub deltba: u8,
}

/// Delta bit allocation information as coded.
#[derive(Debug)]
pub struct DeltaBitAllocationInformation {
    pub cpldeltbae: Option<u8>,
    pub deltbae: Vec<u8>,
    pub cpldeltsegs: Option<Vec<DeltBaSegment>>,
    pub deltsegs: Vec<Option<Vec<DeltBaSegment>>>,
}

/// Unused dummy data: its length code and the bytes read.
#[derive(Debug)]
pub struct UnusedDummyData {
    pub skipl: u16,
    pub skipfld: Vec<u8>,
}

/// One audio block.
#[derive(Debug)]
pub struct AudioBlock {
    pub blksw: Vec<bool>,
    pub dithflag: Vec<bool>,
    pub dynrng: Option<u8>,
    pub dynrng2: Option<u8>,
    pub cpl: Cpl,
    pub rematrixing: Rematrixing,
    pub exponent_strategy: ExponentStrategy,
    pub cpl_ch_exps: Option<CouplingChannelExponent>,
    pub fb_ch_exps: FullBandwidthChannelExponents,
    pub lfe_ch_exps: Option<Option<LowFrequencyEffectChannel>>,
    pub bapi: BitAllocationParametricInformation,
    pub deltbai: Option<DeltaBitAllocationInformation>,
    pub unused_dummy: Option<UnusedDummyData>,
    pub mantissas: QuantizedMantissaValues,
}

/// The delta bit allocation segments in effect, after reuse is resolved.
pub struct EffectiveDeltBa {
    pub cpldeltsegs: Option<Vec<DeltBaSegment>>,
    pub deltsegs: Vec<Option<Vec<DeltBaSegment>>>,
}

/// Decoded state that an audio block hands to the next one.
pub struct AudblkDecodedState {
    pub cplinu: bool,
    pub chincpl: Vec<bool>,
    pub phsflginu: bool,
    pub ncplbnd: usize,
    pub cplbegf: Option<u8>,
    pub cplendf: Option<u8>,
    pub bai: Option<BitAllocParams>,
    pub snroffst: Option<SnrOffset>,
    pub cplleak: Option<CplLeak>,
    pub eff_deltba: Option<EffectiveDeltBa>,
    pub ch_decoded_exps: Vec<[u8; 256]>,
    pub cpl_decoded_exps: Option<[u8; 256]>,
    pub lfe_decoded_exps: Option<[u8; 256]>,
    pub chbwcod: Vec<Option<u8>>,
}

/// Auxiliary data: the bytes between the last audio block and the error
/// check, and the number of valid bits of the last byte.
#[derive(Debug)]
pub struct AuxiliaryData {
    pub auxdata: Vec<u8>,
    pub last_byte_bits: u8,
}

/// Error check.
#[derive(Debug)]
pub struct ErrorCheck {
    pub crcrsv: bool,
    pub crc2: u16,
}

/// An AC-3 frame.
#[derive(Debug)]
pub struct Ac3 {
    pub si: SyncInfo,
    pub bsi: BitStreamInformation,
    pub ab: Vec<AudioBlock>,
    pub aux: AuxiliaryData,
    pub ec: ErrorCheck,
}

impl Ac3 {
    /// Serialize the frame: sync information, bit stream information, the
    /// audio blocks (each written under the coupling state that the blocks
    /// before it leave), auxiliary data and error check, padded with zero
    /// bits to a whole byte. A block that lacks a field its coupling state
    /// or coding mode calls for is refused.
    pub fn to_bytes(&self) -> (r: Result<Vec<u8>, Error>)
        requires
            blocks_safe(self.ab@, 0, initial_cpl_state(nfchans_spec(self.bsi.audio_mode) as nat), self.bsi.acmod,
                self.bsi.lfeon, nfchans_spec(self.bsi.audio_mode) as nat),
        ensures
            r is Ok <==> blocks_ok(self.ab@, 0, initial_cpl_state(nfchans_spec(self.bsi.audio_mode) as nat),
                self.bsi.acmod, self.bsi.lfeon, nfchans_spec(self.bsi.audio_mode) as nat),
            r matches Ok(b) ==> bytes_bits(b@) == frame_bits(*self) + zeros(pad_len(frame_bits(*self).len()))
                && b@ == bits_bytes(frame_bits(*self) + zeros(pad_len(frame_bits(*self).len()))),
            r matches Err(e) ==> e is InvalidState,
    {
        let mut w = BitstreamWriter::new();
        write_si(&mut w, &self.si);
        write_bsi(&mut w, &self.bsi);
        let nfchans = self.bsi.audio_mode.nfchans();
        write_blocks(&mut w, &self.ab, nfchans, self.bsi.acmod, self.bsi.lfeon)?;
        write_aux(&mut w, &self.aux);
        write_ec(&mut w, &self.ec);
        proof {
            let e: Seq<bool> = Seq::empty();
            lemma_cat5(e, si_bits(self.si), bsi_bits(self.bsi), blocks_bits(self.ab@, 0,
                initial_cpl_state(nfchans as nat), self.bsi.acmod, self.bsi.lfeon, nfchans as nat),
                aux_bits(self.aux), ec_bits(self.ec));
            assert(e + frame_bits(*self) =~= frame_bits(*self));
        }
        let out = w.finish();
        proof {
            lemma_bits_bytes(out@);
        }
        Ok(out)
    }
}

impl AudblkDecodedState {
    /// The state before the first audio block: no coupling, no
    /// parameters, zero exponents.
    fn initial(nfchans: u8) -> (r: Self)
        ensures
            state_wf(r, nfchans as nat),
            r.cplinu == false,
            r.chincpl@ == Seq::new(nfchans as nat, |i: int| false),
    {
        let mut ch_decoded_exps: Vec<[u8; 256]> = Vec::new();
        let mut chbwcod: Vec<Option<u8>> = Vec::new();
        let mut i: usize = 0;
        while i < nfchans as usize
            invariant
                i <= nfchans,
                ch_decoded_exps@.len() == i,
                chbwcod@.len() == i,
                forall|k: int| 0 <= k < i ==> #[trigger] chbwcod@[k] is None,
            decreases nfchans - i,
        {
            ch_decoded_exps.push([0u8; 256]);
            chbwcod.push(None);
            i = i + 1;
        }
        AudblkDecodedState {
            cplinu: false,
            chincpl: all_false(nfchans),
            phsflginu: false,
            ncplbnd: 0,
            cplbegf: None,
            cplendf: None,
            bai: None,
            snroffst: None,
            cplleak: None,
            eff_deltba: None,
            ch_decoded_exps,
            cpl_decoded_exps: None,
            lfe_decoded_exps: None,
            chbwcod,
        }
    }
}

/// What parsing `data` into the frame `f` establishes: the sync and bit
/// stream information are the first bits of `data` and fit their widths;
/// there are at most six audio blocks, and the frame can be serialized;
/// and where six blocks were read that read back as written and room was
/// left for the error check, the frame's bits are those of `data`.
pub open spec fn parsed(data: Seq<u8>, f: Ac3) -> bool {
    let n = nfchans_spec(f.bsi.audio_mode) as nat;
    let init = initial_cpl_state(n);
    let bits = bytes_bits(data);
    &&& si_wf(f.si) && bsi_wf(f.bsi)
    &&& (si_bits(f.si) + bsi_bits(f.bsi)).len() <= bits.len()
    &&& bits.take((si_bits(f.si) + bsi_bits(f.bsi)).len() as int) == si_bits(f.si) + bsi_bits(f.bsi)
    &&& f.ab@.len() <= 6
    &&& blocks_ok(f.ab@, 0, init, f.bsi.acmod, f.bsi.lfeon, n)
    &&& blocks_safe(f.ab@, 0, init, f.bsi.acmod, f.bsi.lfeon, n)
    &&& (f.ab@.len() == 6 && blocks_complete(f.ab@, 0, init, n) && frame_head_bits(f).len() + 17 <= bits.len()
        ==> frame_bits(f) == bits)
}

impl Ac3 {
    /// Parse an AC-3 frame: sync information, bit stream information, up
    /// to six audio blocks (stopping at fewer than 5 remaining bits, or at
    /// a block after the first that fails to parse), then the auxiliary
    /// data and error check where 17 bits remain for them. A frame whose
    /// sync information and bit stream information are followed by fewer
    /// than 5 bits parses, with no audio block.
    #[verifier::spinoff_prover]
    #[verifier::rlimit(60)]
    pub fn parse(data: &[u8]) -> (r: Result<Self, Error>)
        requires
            data@.len() * 8 <= usize::MAX,
        ensures
            r matches Ok(f) ==> parsed(data@, f),
            r matches Ok(f) ==> f.ab@.len() <= 6,
            r matches Ok(f) ==> forall|i: int| 0 <= i < f.ab@.len() ==>
                (#[trigger] f.ab@[i]).blksw@.len() == nfchans_spec(f.bsi.audio_mode)
                && f.ab@[i].dithflag@.len() == nfchans_spec(f.bsi.audio_mode),
            r matches Ok(f) ==> f.ab@.len() > 0
                || data@.len() * 8 < (si_bits(f.si) + bsi_bits(f.bsi)).len() + 5,
            r matches Err(e) ==> e is Bitstream || e is InvalidState,
            data@.len() < 5 ==> (r matches Err(e) && e is Bitstream),
            forall|si: SyncInfo, b: BitStreamInformation| si_wf(si) && bsi_wf(b)
                && #[trigger] starts_with(bytes_bits(data@), 0, si_bits(si) + bsi_bits(b))
                && data@.len() * 8 < (si_bits(si) + bsi_bits(b)).len() + 5 ==> r is Ok,
    {
        let mut reader = BitstreamReader::new(data);
        let ghost s = bytes_bits(data@);
        proof {
            assert forall|si: SyncInfo, b: BitStreamInformation| si_wf(si) && bsi_wf(b)
                && #[trigger] starts_with(s, 0, si_bits(si) + bsi_bits(b)) implies
                starts_with(s, 40, bsi_bits(b)) && 40 + bsi_bits(b).len() <= s.len() by {
                lemma_starts_with_cat(s, 0, si_bits(si), bsi_bits(b));
            }
        }
        let si = parse_si(&mut reader)?;
        let _ = reader.remaining_bits();
        assert(reader.pos() == 40) by {
            assert(reader.consumed().len() == si_bits(si).len());
        }
        let bsi = parse_bsi(&mut reader)?;
        let ghost hb = reader.consumed();
        let _ = reader.remaining_bits();
        proof {
            assert(hb.len() == reader.pos());
            assert forall|si0: SyncInfo, b: BitStreamInformation| si_wf(si0) && bsi_wf(b)
                && #[trigger] starts_with(s, 0, si_bits(si0) + bsi_bits(b))
                && data@.len() * 8 < (si_bits(si0) + bsi_bits(b)).len() + 5 implies
                s.len() < hb.len() + 5 by {
                assert(bsi_bits(bsi) == bsi_bits(b));
            }
        }
        assert(data@.len() >= 5);
        let nfchans = bsi.audio_mode.nfchans();
        let ghost n = nfchans as nat;
        let ghost init = initial_cpl_state(n);
        let mut audblks: Vec<AudioBlock> = Vec::new();
        let mut prev = AudblkDecodedState::initial(nfchans);
        assert(prev.chincpl@ =~= init.chincpl);
        assert(blocks_bits(audblks@, 0, init, bsi.acmod, bsi.lfeon, n) =~= Seq::<bool>::empty());
        assert(hb + Seq::<bool>::empty() =~= hb);
        let mut blk_idx: usize = 0;
        while blk_idx < 6
            invariant_except_break
                blocks_complete(audblks@, 0, init, n) ==> reader.consumed() == hb + blocks_bits(audblks@, 0, init, bsi.acmod, bsi.lfeon, n),
                audblks@.len() == blk_idx,
            invariant
                blk_idx == 0 ==> reader.pos() == hb.len(),
                blk_idx > 0 ==> audblks@.len() > 0,
                reader.bits().len() < hb.len() + 5 ==> blk_idx == 0,
                s == reader.bits(),
                forall|si0: SyncInfo, b: BitStreamInformation| si_wf(si0) && bsi_wf(b)
                    && #[trigger] starts_with(s, 0, si_bits(si0) + bsi_bits(b))
                    && data@.len() * 8 < (si_bits(si0) + bsi_bits(b)).len() + 5 ==> s.len() < hb.len() + 5,
                data@.len() >= 5,
                1 <= nfchans <= 5,
                n == nfchans as nat,
                init == initial_cpl_state(n),
                nfchans == nfchans_spec(bsi.audio_mode),
                reader.bytes() == data@,
                blk_idx <= 6,
                audblks@.len() <= blk_idx,
                forall|i: int| 0 <= i < audblks@.len() ==>
                    (#[trigger] audblks@[i]).blksw@.len() == n && audblks@[i].dithflag@.len() == n,
                state_wf(prev, n),
                (CplState { cplinu: prev.cplinu, chincpl: prev.chincpl@ }) == final_cpl_state(audblks@, 0, init, n),
                blocks_ok(audblks@, 0, init, bsi.acmod, bsi.lfeon, n),
                blocks_safe(audblks@, 0, init, bsi.acmod, bsi.lfeon, n),
            ensures
                audblks@.len() > 0 || reader.bits().len() < hb.len() + 5,
                reader.bits().len() < hb.len() + 5 ==> reader.pos() == hb.len(),
                audblks@.len() <= 6,
                audblks@.len() == 6 && blocks_complete(audblks@, 0, init, n)
                    ==> reader.consumed() == hb + blocks_bits(audblks@, 0, init, bsi.acmod, bsi.lfeon, n),
            decreases 6 - blk_idx,
        {
            if reader.remaining_bits() < 5 {
                break;
            }
            let ghost c0 = reader.consumed();
            let ghost w0 = CplState { cplinu: prev.cplinu, chincpl: prev.chincpl@ };
            let result = parse_audblk(&mut reader, nfchans, bsi.acmod, bsi.lfeon, si.fscod, &prev);
            match result {
                Ok((blk, state)) => {
                    let ghost a0 = audblks@;
                    proof {
                        lemma_blocks_bits_push(a0, blk, 0, init, bsi.acmod, bsi.lfeon, n);
                        lemma_blocks_ok_push(a0, blk, 0, init, bsi.acmod, bsi.lfeon, n);
                    }
                    audblks.push(blk);
                    prev = state;
                    proof {
                        if blocks_complete(audblks@, 0, init, n) {
                            lemma_add_assoc(hb, blocks_bits(a0, 0, init, bsi.acmod, bsi.lfeon, n),
                                audblk_bits(blk, w0, bsi.acmod, bsi.lfeon, n));
                        }
                    }
                },
                Err(e) => {
                    if blk_idx > 0 {
                        break;
                    }
                    return Err(e);
                },
            }
            blk_idx = blk_idx + 1;
        }
        let ghost cb = reader.consumed();
        let aux = if reader.remaining_bits() >= 17 {
            parse_auxdata(&mut reader)?
        } else {
            AuxiliaryData { auxdata: Vec::new(), last_byte_bits: 0 }
        };
        let ghost ca = reader.consumed();
        let ec = if reader.remaining_bits() >= 17 {
            parse_errorcheck(&mut reader)?
        } else {
            ErrorCheck { crcrsv: false, crc2: 0 }
        };
        let _ = reader.remaining_bits();
        let f = Ac3 { si, bsi, ab: audblks, aux, ec };
        proof {
            let bits = bytes_bits(data@);
            assert(hb.len() == (si_bits(f.si) + bsi_bits(f.bsi)).len());
            assert(bits.take(hb.len() as int) =~= hb);
            if f.ab@.len() == 6 && blocks_complete(f.ab@, 0, init, n) && frame_head_bits(f).len() + 17 <= bits.len() {
                assert(cb == frame_head_bits(f));
                assert(reader.consumed() == cb + aux_bits(f.aux) + ec_bits(f.ec));
                assert(reader.consumed() =~= bits);
            }
        }
        Ok(f)
    }
}

/// Serializing a parsed frame gives back its input: where parsing read
/// six audio blocks that read back as written and left room for the
/// error check, the bytes that serialization produces (any `out` whose
/// bits are the frame's, padded) are the input.
pub proof fn lemma_frame_roundtrip(data: Seq<u8>, f: Ac3, out: Seq<u8>)
    requires
        parsed(data, f),
        f.ab@.len() == 6,
        blocks_complete(f.ab@, 0, initial_cpl_state(nfchans_spec(f.bsi.audio_mode) as nat), nfchans_spec(f.bsi.audio_mode) as nat),
        frame_head_bits(f).len() + 17 <= data.len() * 8,
        bytes_bits(out) == frame_bits(f) + zeros(pad_len(frame_bits(f).len())),
    ensures
        blocks_ok(f.ab@, 0, initial_cpl_state(nfchans_spec(f.bsi.audio_mode) as nat), f.bsi.acmod, f.bsi.lfeon,
            nfchans_spec(f.bsi.audio_mode) as nat),
        out == data,
{
    let b = frame_bits(f);
    assert(b == bytes_bits(data));
    assert(b.len() % 8 == 0) by (nonlinear_arith)
        requires b.len() == data.len() * 8;
    assert(zeros(pad_len(b.len())) =~= Seq::<bool>::empty());
    assert(bytes_bits(out) =~= bytes_bits(data));
    lemma_bits_bytes(out);
    lemma_bits_bytes(data);
}

} // verus!
