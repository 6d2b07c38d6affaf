//! Where the fields of a parsed AC-3 frame stand in its bits.

use vstd::prelude::*;
use crate::bitstream::{bytes_bits, u32_bits};
use crate::ac3::frame::{Ac3, AudioMode, parsed};
use crate::ac3::layout::{si_bits, bsi_bits, bsi_id_bits, mode_bits, cmixlev_bits, surmixlev_bits, dsurmod_bits, bsi_mid_bits,
    dual_bits, bsi_tail_bits};

verus! {

/// The bits of a parsed frame begin with its sync information and bit
/// stream information: bits `a..b` of the input are those bits.
proof fn lemma_head_prefix(data: Seq<u8>, f: Ac3, a: int, b: int)
    requires
        parsed(data, f),
        0 <= a <= b <= (si_bits(f.si) + bsi_bits(f.bsi)).len(),
    ensures
        bytes_bits(data).subrange(a, b) == (si_bits(f.si) + bsi_bits(f.bsi)).subrange(a, b),
{
    let t = si_bits(f.si) + bsi_bits(f.bsi);
    let s = bytes_bits(data);
    assert(s.take(t.len() as int) == t);
    assert forall|i: int| 0 <= i < b - a implies s.subrange(a, b)[i] == t.subrange(a, b)[i] by {
        assert(s.take(t.len() as int)[a + i] == s[a + i]);
    }
    assert(s.subrange(a, b) =~= t.subrange(a, b));
}

/// The fields of a parsed frame stand where A/52 puts them: the sync
/// word in bits 0 to 15, `crc1` in bits 16 to 31, `fscod` in bits 32 and
/// 33, `frmsizecod` in bits 34 to 39; `bsid` in bits 40 to 44, `bsmod` in
/// bits 45 to 47, `acmod` in bits 48 to 50; then, from bit 51, the
/// centre mix level where the front channels are three, the surround mix
/// level where there is a surround channel (after the centre mix level
/// when both are there), or the Dolby surround mode of a 2/0 stream, two
/// bits each. The audio coding mode names the channel layout: 1+1, 1/0,
/// 2/0, 3/0, 2/1, 3/1, 2/2 and 3/2 for `acmod` 0 to 7. Right after these
/// come the `lfeon` flag and `dialnorm` in five bits.
pub proof fn lemma_frame_field_positions(data: Seq<u8>, f: Ac3)
    requires
        parsed(data, f),
    ensures ({
        let s = bytes_bits(data);
        let ml: int = match f.bsi.audio_mode {
            AudioMode::DualMono { .. } => 0,
            AudioMode::Center => 0,
            AudioMode::LcrSurround { .. } => 4,
            AudioMode::FiveChannel { .. } => 4,
            _ => 2,
        };
        &&& s.len() >= 57 + ml
        &&& s[51 + ml] == f.bsi.lfeon
        &&& s.subrange(52 + ml, 57 + ml) == u32_bits(f.bsi.dialnorm as u32, 5)
        &&& s.len() >= 51
        &&& s.subrange(0, 16) == u32_bits(f.si.syncword as u32, 16)
        &&& s.subrange(16, 32) == u32_bits(f.si.crc1 as u32, 16)
        &&& s.subrange(32, 34) == u32_bits(f.si.fscod as u32, 2)
        &&& s.subrange(34, 40) == u32_bits(f.si.frmsizecod as u32, 6)
        &&& s.subrange(40, 45) == u32_bits(f.bsi.bsid as u32, 5)
        &&& s.subrange(45, 48) == u32_bits(f.bsi.bsmod as u32, 3)
        &&& s.subrange(48, 51) == u32_bits(f.bsi.acmod as u32, 3)
        &&& match f.bsi.audio_mode {
            AudioMode::DualMono { .. } => f.bsi.acmod == 0,
            AudioMode::Center => f.bsi.acmod == 1,
            AudioMode::Stereo { dsurmod } => f.bsi.acmod == 2 && s.len() >= 53
                && s.subrange(51, 53) == u32_bits(dsurmod as u32, 2),
            AudioMode::ThreeFront { cmixlev } => f.bsi.acmod == 3 && s.len() >= 53
                && s.subrange(51, 53) == u32_bits(cmixlev as u32, 2),
            AudioMode::StereoSurround { surmixlev } => f.bsi.acmod == 4 && s.len() >= 53
                && s.subrange(51, 53) == u32_bits(surmixlev as u32, 2),
            AudioMode::LcrSurround { cmixlev, surmixlev } => f.bsi.acmod == 5 && s.len() >= 55
                && s.subrange(51, 53) == u32_bits(cmixlev as u32, 2) && s.subrange(53, 55) == u32_bits(surmixlev as u32, 2),
            AudioMode::Quad { surmixlev } => f.bsi.acmod == 6 && s.len() >= 53
                && s.subrange(51, 53) == u32_bits(surmixlev as u32, 2),
            AudioMode::FiveChannel { cmixlev, surmixlev } => f.bsi.acmod == 7 && s.len() >= 55
                && s.subrange(51, 53) == u32_bits(cmixlev as u32, 2) && s.subrange(53, 55) == u32_bits(surmixlev as u32, 2),
        }
    }),
{
    let b = f.bsi;
    let si = f.si;
    let t = si_bits(si) + bsi_bits(b);
    let m = mode_bits(b.acmod, b.audio_mode);
    let rest = bsi_bits(b).subrange(11 + m.len() as int, bsi_bits(b).len() as int);
    assert(bsi_bits(b) =~= bsi_id_bits(b) + m + rest) by {
        assert(bsi_id_bits(b).len() == 11);
    }
    assert(rest =~= bsi_mid_bits(b) + dual_bits(b.audio_mode) + bsi_tail_bits(b)) by {
        assert(bsi_id_bits(b).len() == 11);
    }
    let ml = m.len() as int;
    lemma_head_prefix(data, f, 51 + ml, 57 + ml);
    assert(t.subrange(51 + ml, 57 + ml) =~= seq![b.lfeon] + u32_bits(b.dialnorm as u32, 5));
    assert(bytes_bits(data).subrange(51 + ml, 57 + ml)[0] == bytes_bits(data)[51 + ml]);
    assert(bytes_bits(data).subrange(52 + ml, 57 + ml) =~= bytes_bits(data).subrange(51 + ml, 57 + ml).subrange(1, 6));
    let head = u32_bits(si.syncword as u32, 16) + u32_bits(si.crc1 as u32, 16) + u32_bits(si.fscod as u32, 2)
        + u32_bits(si.frmsizecod as u32, 6) + u32_bits(b.bsid as u32, 5) + u32_bits(b.bsmod as u32, 3)
        + u32_bits(b.acmod as u32, 3);
    assert(t =~= head + m + rest);
    assert(head.len() == 51);
    lemma_head_prefix(data, f, 0, 16);
    lemma_head_prefix(data, f, 16, 32);
    lemma_head_prefix(data, f, 32, 34);
    lemma_head_prefix(data, f, 34, 40);
    lemma_head_prefix(data, f, 40, 45);
    lemma_head_prefix(data, f, 45, 48);
    lemma_head_prefix(data, f, 48, 51);
    assert(t.subrange(0, 16) =~= u32_bits(si.syncword as u32, 16));
    assert(t.subrange(16, 32) =~= u32_bits(si.crc1 as u32, 16));
    assert(t.subrange(32, 34) =~= u32_bits(si.fscod as u32, 2));
    assert(t.subrange(34, 40) =~= u32_bits(si.frmsizecod as u32, 6));
    assert(t.subrange(40, 45) =~= u32_bits(b.bsid as u32, 5));
    assert(t.subrange(45, 48) =~= u32_bits(b.bsmod as u32, 3));
    assert(t.subrange(48, 51) =~= u32_bits(b.acmod as u32, 3));
    let c = cmixlev_bits(b.acmod, b.audio_mode);
    let sm = surmixlev_bits(b.acmod, b.audio_mode);
    let d = dsurmod_bits(b.audio_mode);
    assert(m == c + sm + d);
    if c.len() == 2 {
        lemma_head_prefix(data, f, 51, 53);
        assert(t.subrange(51, 53) =~= c);
    }
    if sm.len() == 2 {
        let a: int = 51 + c.len() as int;
        lemma_head_prefix(data, f, a, a + 2);
        assert(t.subrange(a, a + 2) =~= sm);
    }
    if d.len() == 2 {
        lemma_head_prefix(data, f, 51, 53);
        assert(t.subrange(51, 53) =~= d);
    }
}

} // verus!
