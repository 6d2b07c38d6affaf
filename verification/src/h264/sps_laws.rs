//! Laws of the SPS syntax: what is written reads back as itself.

use vstd::prelude::*;
use crate::bitstream::{u32_bits, ue_bits, se_bits};
use crate::h264::error::Error;
use crate::h264::syntax::{rbsp_bits, sp_u, sp_flag, sp_ue, holds_at, lemma_holds_cat, lemma_flag_at, lemma_u_at, lemma_ue_at, lemma_se_at};
use crate::h264::sps::{AspectRatioInfo, BitstreamRestriction, ChromaLocInfo, FrameCropping, HighProfileView, HrdView, PicOrderCntView, SpsView, TimingInfo, VideoSignalType, VuiHrdView, VuiView, aspect_ratio_bits, aspect_ratio_spec, chroma_loc_bits, chroma_loc_spec, cropping_bits, cropping_spec, default_list, flag_bits, high_profile_bits, high_profile_spec, hrd_bits, hrd_entries_bits, hrd_entries_spec, hrd_spec, hrd_writable, is_high_profile, lemma_scaling_list_roundtrip, matrix_bits_from, matrix_entry_bits, opt_flag_bits, opt_high_bits, opt_hrd_bits, opt_hrd_spec, opt_vui_bits, overscan_spec, pic_order_cnt_bits, pic_order_cnt_spec, present_flag_bits, restriction_bits, restriction_spec, scaling_list_bits, scaling_matrix_from, se_list_bits, se_list_spec, sps_bits, sps_frame_bits, sps_frame_spec, sps_head_bits, sps_head_spec, sps_parse_spec, sps_writable, timing_bits, timing_spec, video_signal_bits, video_signal_spec, vui_bits, vui_hrd_bits, vui_hrd_spec, vui_spec, vui_writable};

verus! {

/// The chroma location reads back as written.
#[verifier::spinoff_prover]
#[verifier::rlimit(50)]
pub proof fn lemma_chroma_loc_read(s: Seq<bool>, p: nat, c: Option<ChromaLocInfo>)
    requires
        holds_at(s, p, chroma_loc_bits(c)),
        c matches Some(x) ==> x.chroma_sample_loc_type_top_field < u32::MAX && x.chroma_sample_loc_type_bottom_field < u32::MAX,
    ensures
        chroma_loc_spec(s, p) == Ok::<(Option<ChromaLocInfo>, nat), Error>((c, p + chroma_loc_bits(c).len())),
{
    vstd::arithmetic::power2::lemma2_to64();
    match c {
        None => {
            let b0 = seq![false];
            assert(chroma_loc_bits(None::<ChromaLocInfo>) == b0);
            lemma_flag_at(s, p, false);
        },
        Some(x) => {
            let b0 = seq![true];
            let b1 = ue_bits(x.chroma_sample_loc_type_top_field as u32);
            let b2 = ue_bits(x.chroma_sample_loc_type_bottom_field as u32);
            assert(chroma_loc_bits(c) == b0 + b1 + b2);
            lemma_holds_cat(s, p, b0 + b1, b2);
            lemma_holds_cat(s, p, b0, b1);
            lemma_flag_at(s, p, true);
            lemma_ue_at(s, p + (b0).len(), x.chroma_sample_loc_type_top_field as u32);
            lemma_ue_at(s, p + (b0 + b1).len(), x.chroma_sample_loc_type_bottom_field as u32);
        },
    }
}

/// The timing information reads back as written.
#[verifier::spinoff_prover]
#[verifier::rlimit(50)]
pub proof fn lemma_timing_read(s: Seq<bool>, p: nat, t: Option<TimingInfo>)
    requires
        holds_at(s, p, timing_bits(t)),
    ensures
        timing_spec(s, p) == Ok::<(Option<TimingInfo>, nat), Error>((t, p + timing_bits(t).len())),
{
    vstd::arithmetic::power2::lemma2_to64();
    match t {
        None => {
            let b0 = seq![false];
            assert(timing_bits(None::<TimingInfo>) == b0);
            lemma_flag_at(s, p, false);
        },
        Some(x) => {
            let b0 = seq![true];
            let b1 = u32_bits(x.num_units_in_tick as u32, 32);
            let b2 = u32_bits(x.time_scale as u32, 32);
            let b3 = flag_bits(x.fixed_frame_rate_flag);
            assert(timing_bits(t) == b0 + b1 + b2 + b3);
            lemma_holds_cat(s, p, b0 + b1 + b2, b3);
            lemma_holds_cat(s, p, b0 + b1, b2);
            lemma_holds_cat(s, p, b0, b1);
            lemma_flag_at(s, p, true);
            lemma_u_at(s, p + (b0).len(), x.num_units_in_tick as u32, 32);
            lemma_u_at(s, p + (b0 + b1).len(), x.time_scale as u32, 32);
            lemma_flag_at(s, p + (b0 + b1 + b2).len(), x.fixed_frame_rate_flag);
        },
    }
}

/// The bitstream restriction reads back as written.
#[verifier::spinoff_prover]
#[verifier::rlimit(50)]
pub proof fn lemma_restriction_read(s: Seq<bool>, p: nat, b: Option<BitstreamRestriction>)
    requires
        holds_at(s, p, restriction_bits(b)),
        b matches Some(x) ==> x.max_bytes_per_pic_denom < u32::MAX && x.max_bits_per_mb_denom < u32::MAX && x.log2_max_mv_length_horizontal < u32::MAX && x.log2_max_mv_length_vertical < u32::MAX && x.max_num_reorder_frames < u32::MAX && x.max_dec_frame_buffering < u32::MAX,
    ensures
        restriction_spec(s, p) == Ok::<(Option<BitstreamRestriction>, nat), Error>((b, p + restriction_bits(b).len())),
{
    vstd::arithmetic::power2::lemma2_to64();
    match b {
        None => {
            let b0 = seq![false];
            assert(restriction_bits(None::<BitstreamRestriction>) == b0);
            lemma_flag_at(s, p, false);
        },
        Some(x) => {
            let b0 = seq![true];
            let b1 = flag_bits(x.motion_vectors_over_pic_boundaries_flag);
            let b2 = ue_bits(x.max_bytes_per_pic_denom as u32);
            let b3 = ue_bits(x.max_bits_per_mb_denom as u32);
            let b4 = ue_bits(x.log2_max_mv_length_horizontal as u32);
            let b5 = ue_bits(x.log2_max_mv_length_vertical as u32);
            let b6 = ue_bits(x.max_num_reorder_frames as u32);
            let b7 = ue_bits(x.max_dec_frame_buffering as u32);
            assert(restriction_bits(b) == b0 + b1 + b2 + b3 + b4 + b5 + b6 + b7);
            lemma_holds_cat(s, p, b0 + b1 + b2 + b3 + b4 + b5 + b6, b7);
            lemma_holds_cat(s, p, b0 + b1 + b2 + b3 + b4 + b5, b6);
            lemma_holds_cat(s, p, b0 + b1 + b2 + b3 + b4, b5);
            lemma_holds_cat(s, p, b0 + b1 + b2 + b3, b4);
            lemma_holds_cat(s, p, b0 + b1 + b2, b3);
            lemma_holds_cat(s, p, b0 + b1, b2);
            lemma_holds_cat(s, p, b0, b1);
            lemma_flag_at(s, p, true);
            lemma_flag_at(s, p + (b0).len(), x.motion_vectors_over_pic_boundaries_flag);
            lemma_ue_at(s, p + (b0 + b1).len(), x.max_bytes_per_pic_denom as u32);
            lemma_ue_at(s, p + (b0 + b1 + b2).len(), x.max_bits_per_mb_denom as u32);
            lemma_ue_at(s, p + (b0 + b1 + b2 + b3).len(), x.log2_max_mv_length_horizontal as u32);
            lemma_ue_at(s, p + (b0 + b1 + b2 + b3 + b4).len(), x.log2_max_mv_length_vertical as u32);
            lemma_ue_at(s, p + (b0 + b1 + b2 + b3 + b4 + b5).len(), x.max_num_reorder_frames as u32);
            lemma_ue_at(s, p + (b0 + b1 + b2 + b3 + b4 + b5 + b6).len(), x.max_dec_frame_buffering as u32);
        },
    }
}

/// A flag after its presence flag reads back as written.
#[verifier::spinoff_prover]
#[verifier::rlimit(50)]
pub proof fn lemma_overscan_read(s: Seq<bool>, p: nat, f: Option<bool>)
    requires
        holds_at(s, p, present_flag_bits(f)),
    ensures
        overscan_spec(s, p) == Ok::<(Option<bool>, nat), Error>((f, p + present_flag_bits(f).len())),
{
    vstd::arithmetic::power2::lemma2_to64();
    match f {
        None => {
            let b0 = seq![false];
            assert(present_flag_bits(None::<bool>) == b0);
            lemma_flag_at(s, p, false);
        },
        Some(x) => {
            let b0 = seq![true];
            let b1 = seq![x];
            assert(present_flag_bits(f) == b0 + b1);
            lemma_holds_cat(s, p, b0, b1);
            lemma_flag_at(s, p, true);
            lemma_flag_at(s, p + (b0).len(), x);
        },
    }
}

/// The video signal type reads back as written.
#[verifier::spinoff_prover]
#[verifier::rlimit(50)]
pub proof fn lemma_video_signal_read(s: Seq<bool>, p: nat, v: Option<VideoSignalType>)
    requires
        holds_at(s, p, video_signal_bits(v)),
        v matches Some(x) ==> x.video_format < 8,
    ensures
        video_signal_spec(s, p) == Ok::<(Option<VideoSignalType>, nat), Error>((v, p + video_signal_bits(v).len())),
{
    vstd::arithmetic::power2::lemma2_to64();
    match v {
        None => {
            let b0 = seq![false];
            assert(video_signal_bits(None::<VideoSignalType>) == b0);
            lemma_flag_at(s, p, false);
        },
        Some(x) => match x.colour_description {
            None => {
                let b0 = seq![true];
                let b1 = u32_bits(x.video_format as u32, 3);
                let b2 = flag_bits(x.video_full_range_flag);
                let b3 = seq![false];
                assert(video_signal_bits(v) == b0 + b1 + b2 + b3);
                lemma_holds_cat(s, p, b0 + b1 + b2, b3);
                lemma_holds_cat(s, p, b0 + b1, b2);
                lemma_holds_cat(s, p, b0, b1);
                lemma_flag_at(s, p, true);
                lemma_u_at(s, p + (b0).len(), x.video_format as u32, 3);
                lemma_flag_at(s, p + (b0 + b1).len(), x.video_full_range_flag);
                lemma_flag_at(s, p + (b0 + b1 + b2).len(), false);
            },
            Some(cd) => {
                let b0 = seq![true];
                let b1 = u32_bits(x.video_format as u32, 3);
                let b2 = flag_bits(x.video_full_range_flag);
                let b3 = seq![true];
                let b4 = u32_bits(cd.colour_primaries as u32, 8);
                let b5 = u32_bits(cd.transfer_characteristics as u32, 8);
                let b6 = u32_bits(cd.matrix_coefficients as u32, 8);
                assert(video_signal_bits(v) == b0 + b1 + b2 + b3 + b4 + b5 + b6);
                lemma_holds_cat(s, p, b0 + b1 + b2 + b3 + b4 + b5, b6);
                lemma_holds_cat(s, p, b0 + b1 + b2 + b3 + b4, b5);
                lemma_holds_cat(s, p, b0 + b1 + b2 + b3, b4);
                lemma_holds_cat(s, p, b0 + b1 + b2, b3);
                lemma_holds_cat(s, p, b0 + b1, b2);
                lemma_holds_cat(s, p, b0, b1);
                lemma_flag_at(s, p, true);
                lemma_u_at(s, p + (b0).len(), x.video_format as u32, 3);
                lemma_flag_at(s, p + (b0 + b1).len(), x.video_full_range_flag);
                lemma_flag_at(s, p + (b0 + b1 + b2).len(), true);
                lemma_u_at(s, p + (b0 + b1 + b2 + b3).len(), cd.colour_primaries as u32, 8);
                lemma_u_at(s, p + (b0 + b1 + b2 + b3 + b4).len(), cd.transfer_characteristics as u32, 8);
                lemma_u_at(s, p + (b0 + b1 + b2 + b3 + b4 + b5).len(), cd.matrix_coefficients as u32, 8);
            },
        },
    }
}

/// The aspect ratio reads back as written, where the sample aspect ratio is present exactly for the extended code 255.
#[verifier::spinoff_prover]
#[verifier::rlimit(50)]
pub proof fn lemma_aspect_ratio_read(s: Seq<bool>, p: nat, a: Option<AspectRatioInfo>)
    requires
        holds_at(s, p, aspect_ratio_bits(a)),
        a matches Some(x) ==> (x.aspect_ratio_idc == 255 <==> x.sar_width is Some) && (x.sar_width is Some <==> x.sar_height is Some),
    ensures
        aspect_ratio_spec(s, p) == Ok::<(Option<AspectRatioInfo>, nat), Error>((a, p + aspect_ratio_bits(a).len())),
{
    vstd::arithmetic::power2::lemma2_to64();
    match a {
        None => {
            let b0 = seq![false];
            assert(aspect_ratio_bits(None::<AspectRatioInfo>) == b0);
            lemma_flag_at(s, p, false);
        },
        Some(x) => if x.aspect_ratio_idc == 255 {
            let w = x.sar_width->Some_0;
            let h = x.sar_height->Some_0;
            let b0 = seq![true];
            let b1 = u32_bits(x.aspect_ratio_idc as u32, 8);
            let b2 = u32_bits(w as u32, 16);
            let b3 = u32_bits(h as u32, 16);
            assert(aspect_ratio_bits(a) == b0 + b1 + b2 + b3);
            lemma_holds_cat(s, p, b0 + b1 + b2, b3);
            lemma_holds_cat(s, p, b0 + b1, b2);
            lemma_holds_cat(s, p, b0, b1);
            lemma_flag_at(s, p, true);
            lemma_u_at(s, p + (b0).len(), x.aspect_ratio_idc as u32, 8);
            lemma_u_at(s, p + (b0 + b1).len(), w as u32, 16);
            lemma_u_at(s, p + (b0 + b1 + b2).len(), h as u32, 16);
        } else {
            let b0 = seq![true];
            let b1 = u32_bits(x.aspect_ratio_idc as u32, 8);
            assert(aspect_ratio_bits(a) == b0 + b1);
            lemma_holds_cat(s, p, b0, b1);
            lemma_flag_at(s, p, true);
            lemma_u_at(s, p + (b0).len(), x.aspect_ratio_idc as u32, 8);
        },
    }
}

/// The frame cropping reads back as written.
#[verifier::spinoff_prover]
#[verifier::rlimit(50)]
pub proof fn lemma_cropping_read(s: Seq<bool>, p: nat, c: Option<FrameCropping>)
    requires
        holds_at(s, p, cropping_bits(c)),
        c matches Some(x) ==> x.left_offset < u32::MAX && x.right_offset < u32::MAX && x.top_offset < u32::MAX && x.bottom_offset < u32::MAX,
    ensures
        cropping_spec(s, p) == Ok::<(Option<FrameCropping>, nat), Error>((c, p + cropping_bits(c).len())),
{
    vstd::arithmetic::power2::lemma2_to64();
    match c {
        None => {
            let b0 = seq![false];
            assert(cropping_bits(None::<FrameCropping>) == b0);
            lemma_flag_at(s, p, false);
        },
        Some(x) => {
            let b0 = seq![true];
            let b1 = ue_bits(x.left_offset as u32);
            let b2 = ue_bits(x.right_offset as u32);
            let b3 = ue_bits(x.top_offset as u32);
            let b4 = ue_bits(x.bottom_offset as u32);
            assert(cropping_bits(c) == b0 + b1 + b2 + b3 + b4);
            lemma_holds_cat(s, p, b0 + b1 + b2 + b3, b4);
            lemma_holds_cat(s, p, b0 + b1 + b2, b3);
            lemma_holds_cat(s, p, b0 + b1, b2);
            lemma_holds_cat(s, p, b0, b1);
            lemma_flag_at(s, p, true);
            lemma_ue_at(s, p + (b0).len(), x.left_offset as u32);
            lemma_ue_at(s, p + (b0 + b1).len(), x.right_offset as u32);
            lemma_ue_at(s, p + (b0 + b1 + b2).len(), x.top_offset as u32);
            lemma_ue_at(s, p + (b0 + b1 + b2 + b3).len(), x.bottom_offset as u32);
        },
    }
}

/// `se(v)` values, first to last.
pub open spec fn se_list_fwd(l: Seq<i32>) -> Seq<bool>
    decreases l.len(),
{
    if l.len() == 0 {
        Seq::empty()
    } else {
        se_bits(l[0]) + se_list_fwd(l.drop_first())
    }
}

/// Appending a value appends its code.
proof fn lemma_se_list_fwd_push(l: Seq<i32>, x: i32)
    ensures
        se_list_fwd(l.push(x)) == se_list_fwd(l) + se_bits(x),
    decreases l.len(),
{
    if l.len() == 0 {
        assert(l.push(x).drop_first() =~= Seq::<i32>::empty());
        assert(se_list_fwd(Seq::<i32>::empty()) =~= Seq::<bool>::empty());
        assert(l.push(x)[0] == x);
        assert(se_list_fwd(l.push(x)) =~= se_bits(x) + Seq::<bool>::empty());
        assert(se_list_fwd(l) + se_bits(x) =~= se_bits(x));
    } else {
        lemma_se_list_fwd_push(l.drop_first(), x);
        assert(l.push(x).drop_first() =~= l.drop_first().push(x));
        assert(se_bits(l[0]) + (se_list_fwd(l.drop_first()) + se_bits(x)) =~= se_bits(l[0]) + se_list_fwd(l.drop_first()) + se_bits(x));
    }
}

/// The codes written last to first are the codes in order.
proof fn lemma_se_list_order(l: Seq<i32>)
    ensures
        se_list_bits(l) == se_list_fwd(l),
    decreases l.len(),
{
    if l.len() > 0 {
        lemma_se_list_order(l.drop_last());
        lemma_se_list_fwd_push(l.drop_last(), l.last());
        assert(l.drop_last().push(l.last()) =~= l);
    }
}

/// `se(v)` values read back as written.
proof fn lemma_se_list_read(s: Seq<bool>, p: nat, l: Seq<i32>)
    requires
        holds_at(s, p, se_list_fwd(l)),
        forall|i: int| 0 <= i < l.len() ==> #[trigger] l[i] > i32::MIN,
    ensures
        se_list_spec(s, p, l.len()) == Ok::<(Seq<i32>, nat), Error>((l, p + se_list_fwd(l).len())),
    decreases l.len(),
{
    if l.len() == 0 {
        assert(l =~= Seq::<i32>::empty());
    } else {
        let b0 = se_bits(l[0]);
        let b1 = se_list_fwd(l.drop_first());
        lemma_holds_cat(s, p, b0, b1);
        lemma_se_at(s, p, l[0]);
        assert forall|i: int| 0 <= i < l.drop_first().len() implies #[trigger] l.drop_first()[i] > i32::MIN by {
            assert(l.drop_first()[i] == l[i + 1]);
        }
        lemma_se_list_read(s, p + b0.len(), l.drop_first());
        assert(seq![l[0]] + l.drop_first() =~= l);
        assert((l.len() - 1) as nat == l.drop_first().len());
    }
}

/// What reading the picture order count back needs: writable values and
/// one offset per reference frame in the cycle.
pub open spec fn poc_readable(c: PicOrderCntView) -> bool {
    c matches PicOrderCntView::Type1 { offset_for_non_ref_pic, offset_for_top_to_bottom_field,
        num_ref_frames_in_pic_order_cnt_cycle, offset_for_ref_frame, .. }
        ==> offset_for_non_ref_pic > i32::MIN && offset_for_top_to_bottom_field > i32::MIN
            && offset_for_ref_frame.len() == num_ref_frames_in_pic_order_cnt_cycle
            && forall|i: int| 0 <= i < offset_for_ref_frame.len() ==> #[trigger] offset_for_ref_frame[i] > i32::MIN
}

/// The type of a picture order count.
pub open spec fn poc_type(c: PicOrderCntView) -> u32 {
    match c {
        PicOrderCntView::Type0 { .. } => 0,
        PicOrderCntView::Type1 { .. } => 1,
        PicOrderCntView::Type2 => 2,
    }
}

/// The picture order count reads back as written: its type, then its fields.
#[verifier::spinoff_prover]
#[verifier::rlimit(60)]
pub proof fn lemma_poc_read(s: Seq<bool>, p: nat, c: PicOrderCntView)
    requires
        holds_at(s, p, pic_order_cnt_bits(c)),
        poc_readable(c),
    ensures
        sp_ue(s, p) == Ok::<(u32, nat), Error>((poc_type(c), p + ue_bits(poc_type(c)).len())),
        pic_order_cnt_spec(s, p + ue_bits(poc_type(c)).len(), poc_type(c))
            == Ok::<(PicOrderCntView, nat), Error>((c, p + pic_order_cnt_bits(c).len())),
{
    match c {
        PicOrderCntView::Type0 { log2_max_pic_order_cnt_lsb_minus4: v } => {
            let b0 = ue_bits(0);
            let b1 = ue_bits(v as u32);
            assert(pic_order_cnt_bits(c) == b0 + b1);
            lemma_holds_cat(s, p, b0, b1);
            lemma_ue_at(s, p, 0u32 as u32);
            lemma_ue_at(s, p + (b0).len(), v as u32);
        },
        PicOrderCntView::Type1 { delta_pic_order_always_zero_flag: z, offset_for_non_ref_pic: a,
            offset_for_top_to_bottom_field: t, num_ref_frames_in_pic_order_cnt_cycle: n, offset_for_ref_frame: l } => {
            lemma_se_list_order(l);
            let b0 = ue_bits(1);
            let b1 = flag_bits(z);
            let b2 = se_bits(a);
            let b3 = se_bits(t);
            let b4 = ue_bits(n as u32);
            let b5 = se_list_bits(l);
            assert(pic_order_cnt_bits(c) == b0 + b1 + b2 + b3 + b4 + b5);
            lemma_holds_cat(s, p, b0 + b1 + b2 + b3 + b4, b5);
            lemma_holds_cat(s, p, b0 + b1 + b2 + b3, b4);
            lemma_holds_cat(s, p, b0 + b1 + b2, b3);
            lemma_holds_cat(s, p, b0 + b1, b2);
            lemma_holds_cat(s, p, b0, b1);
            lemma_ue_at(s, p, 1u32 as u32);
            lemma_flag_at(s, p + (b0).len(), z);
            lemma_se_at(s, p + (b0 + b1).len(), a);
            lemma_se_at(s, p + (b0 + b1 + b2).len(), t);
            lemma_ue_at(s, p + (b0 + b1 + b2 + b3).len(), n as u32);
            lemma_se_list_read(s, p + (b0 + b1 + b2 + b3 + b4).len(), l);
        },
        PicOrderCntView::Type2 => {
            let b0 = ue_bits(2);
            assert(pic_order_cnt_bits(c) == b0);
            lemma_ue_at(s, p, 2u32 as u32);
        },
    }
}

/// What reading the frame fields back needs.
pub open spec fn frame_readable(v: SpsView) -> bool {
    &&& v.pic_width_in_mbs_minus1 < u32::MAX
    &&& v.pic_height_in_map_units_minus1 < u32::MAX
    &&& (v.mb_adaptive_frame_field_flag is Some <==> !v.frame_mbs_only_flag)
}

/// The frame fields read back as written.
#[verifier::spinoff_prover]
#[verifier::rlimit(60)]
pub proof fn lemma_frame_read(s: Seq<bool>, p: nat, v: SpsView)
    requires
        holds_at(s, p, sps_frame_bits(v)),
        frame_readable(v),
    ensures
        sps_frame_spec(s, p) == Ok::<(u8, bool, u32, u32, bool, Option<bool>, bool, nat), Error>((v.max_num_ref_frames,
            v.gaps_in_frame_num_value_allowed_flag, v.pic_width_in_mbs_minus1, v.pic_height_in_map_units_minus1,
            v.frame_mbs_only_flag, v.mb_adaptive_frame_field_flag, v.direct_8x8_inference_flag,
            p + sps_frame_bits(v).len())),
{
    vstd::arithmetic::power2::lemma2_to64();
    match v.mb_adaptive_frame_field_flag {
        Some(m) => {
            let b0 = ue_bits(v.max_num_ref_frames as u32);
            let b1 = flag_bits(v.gaps_in_frame_num_value_allowed_flag);
            let b2 = ue_bits(v.pic_width_in_mbs_minus1);
            let b3 = ue_bits(v.pic_height_in_map_units_minus1);
            let b4 = flag_bits(v.frame_mbs_only_flag);
            let b5 = seq![m];
            let b6 = flag_bits(v.direct_8x8_inference_flag);
            assert(sps_frame_bits(v) == b0 + b1 + b2 + b3 + b4 + b5 + b6);
            lemma_holds_cat(s, p, b0 + b1 + b2 + b3 + b4 + b5, b6);
            lemma_holds_cat(s, p, b0 + b1 + b2 + b3 + b4, b5);
            lemma_holds_cat(s, p, b0 + b1 + b2 + b3, b4);
            lemma_holds_cat(s, p, b0 + b1 + b2, b3);
            lemma_holds_cat(s, p, b0 + b1, b2);
            lemma_holds_cat(s, p, b0, b1);
            lemma_ue_at(s, p, v.max_num_ref_frames as u32);
            lemma_flag_at(s, p + (b0).len(), v.gaps_in_frame_num_value_allowed_flag);
            lemma_ue_at(s, p + (b0 + b1).len(), v.pic_width_in_mbs_minus1 as u32);
            lemma_ue_at(s, p + (b0 + b1 + b2).len(), v.pic_height_in_map_units_minus1 as u32);
            lemma_flag_at(s, p + (b0 + b1 + b2 + b3).len(), v.frame_mbs_only_flag);
            lemma_flag_at(s, p + (b0 + b1 + b2 + b3 + b4).len(), m);
            lemma_flag_at(s, p + (b0 + b1 + b2 + b3 + b4 + b5).len(), v.direct_8x8_inference_flag);
        },
        None => {
            let b0 = ue_bits(v.max_num_ref_frames as u32);
            let b1 = flag_bits(v.gaps_in_frame_num_value_allowed_flag);
            let b2 = ue_bits(v.pic_width_in_mbs_minus1);
            let b3 = ue_bits(v.pic_height_in_map_units_minus1);
            let b4 = flag_bits(v.frame_mbs_only_flag);
            let b5 = Seq::<bool>::empty();
            let b6 = flag_bits(v.direct_8x8_inference_flag);
            assert(sps_frame_bits(v) == b0 + b1 + b2 + b3 + b4 + b5 + b6);
            lemma_holds_cat(s, p, b0 + b1 + b2 + b3 + b4 + b5, b6);
            lemma_holds_cat(s, p, b0 + b1 + b2 + b3 + b4, b5);
            lemma_holds_cat(s, p, b0 + b1 + b2 + b3, b4);
            lemma_holds_cat(s, p, b0 + b1 + b2, b3);
            lemma_holds_cat(s, p, b0 + b1, b2);
            lemma_holds_cat(s, p, b0, b1);
            lemma_ue_at(s, p, v.max_num_ref_frames as u32);
            lemma_flag_at(s, p + (b0).len(), v.gaps_in_frame_num_value_allowed_flag);
            lemma_ue_at(s, p + (b0 + b1).len(), v.pic_width_in_mbs_minus1 as u32);
            lemma_ue_at(s, p + (b0 + b1 + b2).len(), v.pic_height_in_map_units_minus1 as u32);
            lemma_flag_at(s, p + (b0 + b1 + b2 + b3).len(), v.frame_mbs_only_flag);
            lemma_flag_at(s, p + (b0 + b1 + b2 + b3 + b4 + b5).len(), v.direct_8x8_inference_flag);
        },
    }
}

/// A scaling list that reads back: of `n` entries, none 0.
pub open spec fn list_readable(l: Seq<u8>, n: nat) -> bool {
    l.len() == n && forall|k: int| 0 <= k < l.len() ==> #[trigger] l[k] != 0
}

/// The lists read from a matrix of `num` lists, from the lists written:
/// the 8x8 lists beyond `num` stay at their default.
pub open spec fn read_l8(l8: Seq<Seq<u8>>, num: nat) -> Seq<Seq<u8>> {
    Seq::new(6, |k: int| if k + 6 < num { l8[k] } else { default_list(64) })
}

/// Lists `i..num` of a scaling matrix read back as written, after lists
/// `0..i` read into `a4` and `a8`.
#[verifier::spinoff_prover]
#[verifier::rlimit(60)]
proof fn lemma_matrix_read(s: Seq<bool>, p: nat, l4: Seq<Seq<u8>>, l8: Seq<Seq<u8>>, i: nat, num: nat,
    a4: Seq<Seq<u8>>, a8: Seq<Seq<u8>>)
    requires
        i <= num <= 12,
        num >= 6,
        holds_at(s, p, matrix_bits_from(Some(l4), Some(l8), i, num)),
        l4.len() == 6 && l8.len() == 6,
        forall|k: int| 0 <= k < 6 ==> list_readable(#[trigger] l4[k], 16),
        forall|k: int| 0 <= k < 6 ==> list_readable(#[trigger] l8[k], 64),
        a4.len() == 6 && a8.len() == 6,
        forall|k: int| 0 <= k < 6 ==> #[trigger] a4[k] == (if k < i { l4[k] } else { default_list(16) }),
        forall|k: int| 0 <= k < 6 ==> #[trigger] a8[k] == (if k + 6 < i { l8[k] } else { default_list(64) }),
    ensures
        scaling_matrix_from(s, p, i, num, a4, a8) == Ok::<(Seq<Seq<u8>>, Seq<Seq<u8>>, nat), Error>((l4, read_l8(l8, num),
            p + matrix_bits_from(Some(l4), Some(l8), i, num).len())),
    decreases num - i,
{
    if i >= num {
        assert(a4 =~= l4);
        assert(a8 =~= read_l8(l8, num));
    } else {
        let l = if i < 6 { l4[i as int] } else { l8[i - 6] };
        let n: nat = if i < 6 { 16 } else { 64 };
        let e = matrix_entry_bits(l, n);
        let rest = matrix_bits_from(Some(l4), Some(l8), i + 1, num);
        assert(matrix_bits_from(Some(l4), Some(l8), i, num) == e + rest);
        lemma_holds_cat(s, p, e, rest);
        if l == default_list(n) {
            lemma_flag_at(s, p, false);
            assert forall|k: int| 0 <= k < 6 implies #[trigger] a4[k] == (if k < i + 1 { l4[k] } else { default_list(16) }) by {
                if k == i { assert(l4[k] == l); }
            }
            assert forall|k: int| 0 <= k < 6 implies #[trigger] a8[k] == (if k + 6 < i + 1 { l8[k] } else { default_list(64) }) by {
                if k + 6 == i { assert(l8[k] == l); }
            }
            lemma_matrix_read(s, p + 1, l4, l8, i + 1, num, a4, a8);
        } else {
            let lb = scaling_list_bits(l, 8);
            lemma_holds_cat(s, p, seq![true], lb);
            lemma_flag_at(s, p, true);
            assert(list_readable(l, n));
            lemma_scaling_list_roundtrip(s, p + 1, l);
            if i < 6 {
                let a4n = a4.update(i as int, l);
                assert forall|k: int| 0 <= k < 6 implies #[trigger] a4n[k] == (if k < i + 1 { l4[k] } else { default_list(16) }) by {}
                lemma_matrix_read(s, p + 1 + lb.len(), l4, l8, i + 1, num, a4n, a8);
            } else {
                let a8n = a8.update(i - 6, l);
                assert forall|k: int| 0 <= k < 6 implies #[trigger] a8n[k] == (if k + 6 < i + 1 { l8[k] } else { default_list(64) }) by {}
                lemma_matrix_read(s, p + 1 + lb.len(), l4, l8, i + 1, num, a4, a8n);
            }
        }
    }
}

/// What reading the high-profile fields back needs: the colour plane flag
/// exactly for 4:4:4, and the lists exactly when the matrix is present,
/// six of each size, none with an entry 0, the 8x8 lists beyond those
/// written at their default.
pub open spec fn high_readable(h: HighProfileView) -> bool {
    let num: nat = if h.chroma_format_idc != 3 { 8 } else { 12 };
    &&& (h.separate_colour_plane_flag is Some <==> h.chroma_format_idc == 3)
    &&& (h.seq_scaling_matrix_present_flag <==> h.scaling_lists_4x4 is Some)
    &&& (h.seq_scaling_matrix_present_flag <==> h.scaling_lists_8x8 is Some)
    &&& (h.scaling_lists_4x4 matches Some(l4) ==> l4.len() == 6
        && forall|k: int| 0 <= k < 6 ==> list_readable(#[trigger] l4[k], 16))
    &&& (h.scaling_lists_8x8 matches Some(l8) ==> l8.len() == 6
        && (forall|k: int| 0 <= k < 6 ==> list_readable(#[trigger] l8[k], 64))
        && read_l8(l8, num) == l8)
}

/// The high-profile fields read back as written.
#[verifier::spinoff_prover]
#[verifier::rlimit(80)]
pub proof fn lemma_high_read(s: Seq<bool>, p: nat, h: HighProfileView)
    requires
        holds_at(s, p, high_profile_bits(h)),
        high_readable(h),
    ensures
        high_profile_spec(s, p) == Ok::<(HighProfileView, nat), Error>((h, p + high_profile_bits(h).len())),
{
    let num: nat = if h.chroma_format_idc != 3 { 8 } else { 12 };
    let tail = if h.seq_scaling_matrix_present_flag {
        matrix_bits_from(h.scaling_lists_4x4, h.scaling_lists_8x8, 0, num)
    } else {
        Seq::empty()
    };
    let b0 = ue_bits(h.chroma_format_idc as u32);
    let b1 = opt_flag_bits(h.separate_colour_plane_flag);
    let b2 = ue_bits(h.bit_depth_luma_minus8 as u32);
    let b3 = ue_bits(h.bit_depth_chroma_minus8 as u32);
    let b4 = flag_bits(h.qpprime_y_zero_transform_bypass_flag);
    let b5 = flag_bits(h.seq_scaling_matrix_present_flag);
    let b6 = tail;
    assert(high_profile_bits(h) == b0 + b1 + b2 + b3 + b4 + b5 + b6);
    lemma_holds_cat(s, p, b0 + b1 + b2 + b3 + b4 + b5, b6);
    lemma_holds_cat(s, p, b0 + b1 + b2 + b3 + b4, b5);
    lemma_holds_cat(s, p, b0 + b1 + b2 + b3, b4);
    lemma_holds_cat(s, p, b0 + b1 + b2, b3);
    lemma_holds_cat(s, p, b0 + b1, b2);
    lemma_holds_cat(s, p, b0, b1);
    lemma_ue_at(s, p, h.chroma_format_idc as u32);
    lemma_ue_at(s, p + (b0 + b1).len(), h.bit_depth_luma_minus8 as u32);
    lemma_ue_at(s, p + (b0 + b1 + b2).len(), h.bit_depth_chroma_minus8 as u32);
    lemma_flag_at(s, p + (b0 + b1 + b2 + b3).len(), h.qpprime_y_zero_transform_bypass_flag);
    lemma_flag_at(s, p + (b0 + b1 + b2 + b3 + b4).len(), h.seq_scaling_matrix_present_flag);
    if let Some(f) = h.separate_colour_plane_flag {
        lemma_flag_at(s, p + b0.len(), f);
    }
    if h.seq_scaling_matrix_present_flag {
        let l4 = h.scaling_lists_4x4->Some_0;
        let l8 = h.scaling_lists_8x8->Some_0;
        let d4 = Seq::new(6, |i: int| default_list(16));
        let d8 = Seq::new(6, |i: int| default_list(64));
        lemma_matrix_read(s, p + (b0 + b1 + b2 + b3 + b4 + b5).len(), l4, l8, 0, num, d4, d8);
    }
}

/// What reading the fields before the picture order count back needs.
pub open spec fn head_readable(v: SpsView) -> bool {
    &&& v.constraint_flags < 64
    &&& (v.high_profile is Some <==> is_high_profile(v.profile_idc))
    &&& (v.high_profile matches Some(h) ==> high_readable(h))
}

/// The fields before the picture order count read back as written.
#[verifier::spinoff_prover]
#[verifier::rlimit(80)]
pub proof fn lemma_head_read(s: Seq<bool>, v: SpsView)
    requires
        holds_at(s, 0, sps_head_bits(v)),
        head_readable(v),
    ensures
        sps_head_spec(s) == Ok::<(u8, u8, u8, u8, Option<HighProfileView>, u8, nat), Error>((v.profile_idc,
            v.constraint_flags, v.level_idc, v.seq_parameter_set_id, v.high_profile, v.log2_max_frame_num_minus4,
            sps_head_bits(v).len())),
{
    vstd::arithmetic::power2::lemma2_to64();
    let p: nat = 0;
    let b0 = u32_bits(v.profile_idc as u32, 8);
    let b1 = u32_bits(v.constraint_flags as u32, 6);
    let b2 = u32_bits(0, 2);
    let b3 = u32_bits(v.level_idc as u32, 8);
    let b4 = ue_bits(v.seq_parameter_set_id as u32);
    let b5 = opt_high_bits(v.high_profile);
    let b6 = ue_bits(v.log2_max_frame_num_minus4 as u32);
    assert(sps_head_bits(v) == b0 + b1 + b2 + b3 + b4 + b5 + b6);
    lemma_holds_cat(s, p, b0 + b1 + b2 + b3 + b4 + b5, b6);
    lemma_holds_cat(s, p, b0 + b1 + b2 + b3 + b4, b5);
    lemma_holds_cat(s, p, b0 + b1 + b2 + b3, b4);
    lemma_holds_cat(s, p, b0 + b1 + b2, b3);
    lemma_holds_cat(s, p, b0 + b1, b2);
    lemma_holds_cat(s, p, b0, b1);
    lemma_u_at(s, p, v.profile_idc as u32, 8);
    lemma_u_at(s, p + (b0).len(), v.constraint_flags as u32, 6);
    lemma_u_at(s, p + (b0 + b1).len(), 0u32, 2);
    lemma_u_at(s, p + (b0 + b1 + b2).len(), v.level_idc as u32, 8);
    lemma_ue_at(s, p + (b0 + b1 + b2 + b3).len(), v.seq_parameter_set_id as u32);
    lemma_ue_at(s, p + (b0 + b1 + b2 + b3 + b4 + b5).len(), v.log2_max_frame_num_minus4 as u32);
    if let Some(h) = v.high_profile {
        lemma_high_read(s, p + (b0 + b1 + b2 + b3 + b4).len(), h);
    }
}

/// What reading an SPS back needs, beyond writing it: fields within their
/// widths, and parts present exactly where the syntax reads them.
pub open spec fn sps_readable(v: SpsView) -> bool {
    &&& sps_writable(v)
    &&& head_readable(v)
    &&& poc_readable(v.pic_order_cnt)
    &&& frame_readable(v)
    &&& (v.vui matches Some(x) ==> vui_readable(x))
}

/// An SPS is read from its parts.
#[verifier::spinoff_prover]
#[verifier::rlimit(100)]
proof fn lemma_sps_compose(s: Seq<bool>, v: SpsView, q0: nat, q1: nat, q2: nat, q3: nat, q4: nat, q5: nat)
    requires
        sps_head_spec(s) == Ok::<(u8, u8, u8, u8, Option<HighProfileView>, u8, nat), Error>((v.profile_idc,
            v.constraint_flags, v.level_idc, v.seq_parameter_set_id, v.high_profile, v.log2_max_frame_num_minus4, q0)),
        sp_ue(s, q0) == Ok::<(u32, nat), Error>((poc_type(v.pic_order_cnt), q1)),
        pic_order_cnt_spec(s, q1, poc_type(v.pic_order_cnt)) == Ok::<(PicOrderCntView, nat), Error>((v.pic_order_cnt, q2)),
        sps_frame_spec(s, q2) == Ok::<(u8, bool, u32, u32, bool, Option<bool>, bool, nat), Error>((v.max_num_ref_frames,
            v.gaps_in_frame_num_value_allowed_flag, v.pic_width_in_mbs_minus1, v.pic_height_in_map_units_minus1,
            v.frame_mbs_only_flag, v.mb_adaptive_frame_field_flag, v.direct_8x8_inference_flag, q3)),
        cropping_spec(s, q3) == Ok::<(Option<FrameCropping>, nat), Error>((v.frame_cropping, q4)),
        sp_flag(s, q4) == Ok::<(bool, nat), Error>((v.vui is Some, q5)),
        v.vui matches Some(x) ==> vui_spec(s, q5) is Ok && vui_spec(s, q5)->Ok_0.0 == x,
    ensures
        sps_parse_spec(s) == Ok::<SpsView, Error>(v),
{
}

/// An SPS read from the bits it was written as is itself.
#[verifier::spinoff_prover]
#[verifier::rlimit(100)]
pub proof fn lemma_sps_read(s: Seq<bool>, v: SpsView)
    requires
        holds_at(s, 0, sps_bits(v)),
        sps_readable(v),
    ensures
        sps_parse_spec(s) == Ok::<SpsView, Error>(v),
{
    let t = poc_type(v.pic_order_cnt);
    let b0 = sps_head_bits(v);
    let b1 = pic_order_cnt_bits(v.pic_order_cnt);
    let b2 = sps_frame_bits(v);
    let b3 = cropping_bits(v.frame_cropping);
    let b4 = opt_vui_bits(v.vui);
    let q0 = b0.len();
    let q1 = q0 + ue_bits(t).len();
    let q2 = q0 + b1.len();
    let q3 = q2 + b2.len();
    let q4 = q3 + b3.len();
    let q5 = q4 + 1;
    assert(holds_at(s, 0, b0) && holds_at(s, q0, b1) && holds_at(s, q2, b2) && holds_at(s, q3, b3)
        && holds_at(s, q4, b4)) by {
        assert(sps_bits(v) == b0 + b1 + b2 + b3 + b4);
        lemma_holds_cat(s, 0, b0 + b1 + b2 + b3, b4);
        lemma_holds_cat(s, 0, b0 + b1 + b2, b3);
        lemma_holds_cat(s, 0, b0 + b1, b2);
        lemma_holds_cat(s, 0, b0, b1);
    }
    assert(sps_head_spec(s) == Ok::<(u8, u8, u8, u8, Option<HighProfileView>, u8, nat), Error>((v.profile_idc,
        v.constraint_flags, v.level_idc, v.seq_parameter_set_id, v.high_profile, v.log2_max_frame_num_minus4, q0))) by {
        lemma_head_read(s, v);
    }
    assert(sp_ue(s, q0) == Ok::<(u32, nat), Error>((t, q1))
        && pic_order_cnt_spec(s, q1, t) == Ok::<(PicOrderCntView, nat), Error>((v.pic_order_cnt, q2))) by {
        lemma_poc_read(s, q0, v.pic_order_cnt);
    }
    assert(sps_frame_spec(s, q2) == Ok::<(u8, bool, u32, u32, bool, Option<bool>, bool, nat), Error>((v.max_num_ref_frames,
        v.gaps_in_frame_num_value_allowed_flag, v.pic_width_in_mbs_minus1, v.pic_height_in_map_units_minus1,
        v.frame_mbs_only_flag, v.mb_adaptive_frame_field_flag, v.direct_8x8_inference_flag, q3))) by {
        lemma_frame_read(s, q2, v);
    }
    assert(cropping_spec(s, q3) == Ok::<(Option<FrameCropping>, nat), Error>((v.frame_cropping, q4))) by {
        lemma_cropping_read(s, q3, v.frame_cropping);
    }
    assert(sp_flag(s, q4) == Ok::<(bool, nat), Error>((v.vui is Some, q5))
        && (v.vui matches Some(x) ==> vui_spec(s, q5) is Ok && vui_spec(s, q5)->Ok_0.0 == x)) by {
        match v.vui {
            Some(x) => {
                assert(b4 == seq![true] + vui_bits(x));
                lemma_holds_cat(s, q4, seq![true], vui_bits(x));
                lemma_flag_at(s, q4, true);
                lemma_vui_read(s, q5, x);
            },
            None => {
                lemma_flag_at(s, q4, false);
            },
        }
    }
    lemma_sps_compose(s, v, q0, q1, q2, q3, q4, q5);
}

/// Parsing the RBSP that serializing an SPS gives yields that SPS again,
/// for every SPS whose fields fit their widths and whose optional parts
/// are present exactly where the syntax reads them.
pub proof fn lemma_sps_roundtrip(v: SpsView)
    requires
        sps_readable(v),
    ensures
        sps_parse_spec(rbsp_bits(sps_bits(v))) == Ok::<SpsView, Error>(v),
{
    let b = sps_bits(v);
    let s = rbsp_bits(b);
    assert(s.subrange(0, b.len() as int) =~= b);
    lemma_sps_read(s, v);
}

/// HRD entries `j..j + k`, first to last.
pub open spec fn hrd_entries_from(h: HrdView, j: nat, k: nat) -> Seq<bool>
    decreases k,
{
    if k == 0 {
        Seq::empty()
    } else {
        ue_bits(h.bit_rate_value_minus1[j as int]) + ue_bits(h.cpb_size_value_minus1[j as int]) + flag_bits(h.cbr_flag[j as int])
            + hrd_entries_from(h, j + 1, (k - 1) as nat)
    }
}

/// The entries in order are the entries written one after another.
proof fn lemma_hrd_entries_from_push(h: HrdView, j: nat, k: nat)
    ensures
        hrd_entries_from(h, j, k + 1) == hrd_entries_from(h, j, k) + (ue_bits(h.bit_rate_value_minus1[(j + k) as int])
            + ue_bits(h.cpb_size_value_minus1[(j + k) as int]) + flag_bits(h.cbr_flag[(j + k) as int])),
    decreases k,
{
    if k > 0 {
        lemma_hrd_entries_from_push(h, j + 1, (k - 1) as nat);
        let e = ue_bits(h.bit_rate_value_minus1[j as int]) + ue_bits(h.cpb_size_value_minus1[j as int]) + flag_bits(h.cbr_flag[j as int]);
        assert((j + 1 + (k - 1)) as int == (j + k) as int);
        assert(e + (hrd_entries_from(h, j + 1, (k - 1) as nat) + (ue_bits(h.bit_rate_value_minus1[(j + k) as int])
            + ue_bits(h.cpb_size_value_minus1[(j + k) as int]) + flag_bits(h.cbr_flag[(j + k) as int])))
            =~= e + hrd_entries_from(h, j + 1, (k - 1) as nat) + (ue_bits(h.bit_rate_value_minus1[(j + k) as int])
            + ue_bits(h.cpb_size_value_minus1[(j + k) as int]) + flag_bits(h.cbr_flag[(j + k) as int])));
    } else {
        assert(hrd_entries_from(h, j + 1, 0) =~= Seq::<bool>::empty());
        assert(hrd_entries_from(h, j, 0) =~= Seq::<bool>::empty());
        assert(hrd_entries_from(h, j, 1) =~= Seq::<bool>::empty() + (ue_bits(h.bit_rate_value_minus1[j as int])
            + ue_bits(h.cpb_size_value_minus1[j as int]) + flag_bits(h.cbr_flag[j as int])));
    }
}

/// The HRD entries written last to first are the entries in order.
proof fn lemma_hrd_entries_order(h: HrdView, n: nat)
    ensures
        hrd_entries_bits(h, n) == hrd_entries_from(h, 0, n),
    decreases n,
{
    if n > 0 {
        lemma_hrd_entries_order(h, (n - 1) as nat);
        lemma_hrd_entries_from_push(h, 0, (n - 1) as nat);
    }
}

/// HRD entries `j..j + k` read back as written.
#[verifier::spinoff_prover]
#[verifier::rlimit(50)]
proof fn lemma_hrd_entries_read(s: Seq<bool>, p: nat, h: HrdView, j: nat, k: nat)
    requires
        holds_at(s, p, hrd_entries_from(h, j, k)),
        j + k <= h.bit_rate_value_minus1.len(),
        j + k <= h.cpb_size_value_minus1.len(),
        j + k <= h.cbr_flag.len(),
        forall|i: int| j <= i < j + k ==> #[trigger] h.bit_rate_value_minus1[i] < u32::MAX,
        forall|i: int| j <= i < j + k ==> #[trigger] h.cpb_size_value_minus1[i] < u32::MAX,
    ensures
        hrd_entries_spec(s, p, k) == Ok::<(Seq<(u32, u32, bool)>, nat), Error>((
            Seq::new(k, |t: int| (h.bit_rate_value_minus1[j + t], h.cpb_size_value_minus1[j + t], h.cbr_flag[j + t])),
            p + hrd_entries_from(h, j, k).len())),
    decreases k,
{
    if k == 0 {
        assert(Seq::new(k, |t: int| (h.bit_rate_value_minus1[j + t], h.cpb_size_value_minus1[j + t], h.cbr_flag[j + t]))
            =~= Seq::<(u32, u32, bool)>::empty());
    } else {
        let br = h.bit_rate_value_minus1[j as int];
        let cs = h.cpb_size_value_minus1[j as int];
        let cbr = h.cbr_flag[j as int];
        let rest = hrd_entries_from(h, j + 1, (k - 1) as nat);
        let b0 = ue_bits(br);
        let b1 = ue_bits(cs);
        let b2 = seq![cbr];
        let b3 = rest;
        assert(hrd_entries_from(h, j, k) == b0 + b1 + b2 + b3);
        lemma_holds_cat(s, p, b0 + b1 + b2, b3);
        lemma_holds_cat(s, p, b0 + b1, b2);
        lemma_holds_cat(s, p, b0, b1);
        lemma_ue_at(s, p, br as u32);
        lemma_ue_at(s, p + (b0).len(), cs as u32);
        lemma_flag_at(s, p + (b0 + b1).len(), cbr);
        lemma_hrd_entries_read(s, p + b0.len() + b1.len() + b2.len(), h, j + 1, (k - 1) as nat);
        let tail = Seq::new((k - 1) as nat, |t: int| (h.bit_rate_value_minus1[j + 1 + t], h.cpb_size_value_minus1[j + 1 + t], h.cbr_flag[j + 1 + t]));
        assert(seq![(br, cs, cbr)] + tail =~= Seq::new(k, |t: int| (h.bit_rate_value_minus1[j + t], h.cpb_size_value_minus1[j + t], h.cbr_flag[j + t])));
    }
}

/// What reading HRD parameters back needs: exactly `cpb_cnt_minus1 + 1`
/// entries, the scales in four bits and the lengths in five.
pub open spec fn hrd_readable(h: HrdView) -> bool {
    &&& hrd_writable(h)
    &&& h.bit_rate_value_minus1.len() == h.cpb_cnt_minus1 + 1
    &&& h.cpb_size_value_minus1.len() == h.cpb_cnt_minus1 + 1
    &&& h.cbr_flag.len() == h.cpb_cnt_minus1 + 1
    &&& h.bit_rate_scale < 16 && h.cpb_size_scale < 16
    &&& h.initial_cpb_removal_delay_length_minus1 < 32 && h.cpb_removal_delay_length_minus1 < 32
    &&& h.dpb_output_delay_length_minus1 < 32 && h.time_offset_length < 32
}

/// HRD parameters read back as written.
#[verifier::spinoff_prover]
#[verifier::rlimit(80)]
pub proof fn lemma_hrd_read(s: Seq<bool>, p: nat, h: HrdView)
    requires
        holds_at(s, p, hrd_bits(h)),
        hrd_readable(h),
    ensures
        hrd_spec(s, p) == Ok::<(HrdView, nat), Error>((h, p + hrd_bits(h).len())),
{
    vstd::arithmetic::power2::lemma2_to64();
    let n = (h.cpb_cnt_minus1 + 1) as nat;
    lemma_hrd_entries_order(h, n);
    let b0 = ue_bits(h.cpb_cnt_minus1);
    let b1 = u32_bits(h.bit_rate_scale as u32, 4);
    let b2 = u32_bits(h.cpb_size_scale as u32, 4);
    let b3 = hrd_entries_bits(h, n);
    let b4 = u32_bits(h.initial_cpb_removal_delay_length_minus1 as u32, 5);
    let b5 = u32_bits(h.cpb_removal_delay_length_minus1 as u32, 5);
    let b6 = u32_bits(h.dpb_output_delay_length_minus1 as u32, 5);
    let b7 = u32_bits(h.time_offset_length as u32, 5);
    assert(hrd_bits(h) == b0 + b1 + b2 + b3 + b4 + b5 + b6 + b7);
    lemma_holds_cat(s, p, b0 + b1 + b2 + b3 + b4 + b5 + b6, b7);
    lemma_holds_cat(s, p, b0 + b1 + b2 + b3 + b4 + b5, b6);
    lemma_holds_cat(s, p, b0 + b1 + b2 + b3 + b4, b5);
    lemma_holds_cat(s, p, b0 + b1 + b2 + b3, b4);
    lemma_holds_cat(s, p, b0 + b1 + b2, b3);
    lemma_holds_cat(s, p, b0 + b1, b2);
    lemma_holds_cat(s, p, b0, b1);
    lemma_ue_at(s, p, h.cpb_cnt_minus1 as u32);
    lemma_u_at(s, p + (b0).len(), h.bit_rate_scale as u32, 4);
    lemma_u_at(s, p + (b0 + b1).len(), h.cpb_size_scale as u32, 4);
    lemma_hrd_entries_read(s, p + (b0 + b1 + b2).len(), h, 0, n);
    lemma_u_at(s, p + (b0 + b1 + b2 + b3).len(), h.initial_cpb_removal_delay_length_minus1 as u32, 5);
    lemma_u_at(s, p + (b0 + b1 + b2 + b3 + b4).len(), h.cpb_removal_delay_length_minus1 as u32, 5);
    lemma_u_at(s, p + (b0 + b1 + b2 + b3 + b4 + b5).len(), h.dpb_output_delay_length_minus1 as u32, 5);
    lemma_u_at(s, p + (b0 + b1 + b2 + b3 + b4 + b5 + b6).len(), h.time_offset_length as u32, 5);
    let es = Seq::new(n, |t: int| (h.bit_rate_value_minus1[0 + t], h.cpb_size_value_minus1[0 + t], h.cbr_flag[0 + t]));
    assert(es.map_values(|x: (u32, u32, bool)| x.0) =~= h.bit_rate_value_minus1);
    assert(es.map_values(|x: (u32, u32, bool)| x.1) =~= h.cpb_size_value_minus1);
    assert(es.map_values(|x: (u32, u32, bool)| x.2) =~= h.cbr_flag);
}

/// Optional HRD parameters read back as written.
pub proof fn lemma_opt_hrd_read(s: Seq<bool>, p: nat, h: Option<HrdView>)
    requires
        holds_at(s, p, opt_hrd_bits(h)),
        h matches Some(x) ==> hrd_readable(x),
    ensures
        opt_hrd_spec(s, p) == Ok::<(Option<HrdView>, nat), Error>((h, p + opt_hrd_bits(h).len())),
{
    match h {
        None => {
            let b0 = seq![false];
            assert(opt_hrd_bits(h) == b0);
            lemma_flag_at(s, p, false);
        },
        Some(x) => {
            let b0 = seq![true];
            let b1 = hrd_bits(x);
            assert(opt_hrd_bits(h) == b0 + b1);
            lemma_holds_cat(s, p, b0, b1);
            lemma_flag_at(s, p, true);
            lemma_hrd_read(s, p + (b0).len(), x);
        },
    }
}

/// What reading the VUI HRD part back needs: where it is present, one of
/// its parameter sets is.
pub open spec fn vui_hrd_readable(h: Option<VuiHrdView>) -> bool {
    h matches Some(x) ==> (x.nal_hrd_parameters is Some || x.vcl_hrd_parameters is Some)
        && (x.nal_hrd_parameters matches Some(n) ==> hrd_readable(n))
        && (x.vcl_hrd_parameters matches Some(c) ==> hrd_readable(c))
}

/// The HRD part of the VUI reads back as written.
#[verifier::spinoff_prover]
#[verifier::rlimit(60)]
pub proof fn lemma_vui_hrd_read(s: Seq<bool>, p: nat, h: Option<VuiHrdView>)
    requires
        holds_at(s, p, vui_hrd_bits(h)),
        vui_hrd_readable(h),
    ensures
        vui_hrd_spec(s, p) == Ok::<(Option<VuiHrdView>, nat), Error>((h, p + vui_hrd_bits(h).len())),
{
    match h {
        None => {
            let b0 = opt_hrd_bits(None::<HrdView>);
            let b1 = opt_hrd_bits(None::<HrdView>);
            assert(vui_hrd_bits(h) == b0 + b1);
            lemma_holds_cat(s, p, b0, b1);
            lemma_opt_hrd_read(s, p, None::<HrdView>);
            lemma_opt_hrd_read(s, p + (b0).len(), None::<HrdView>);
        },
        Some(x) => {
            let b0 = opt_hrd_bits(x.nal_hrd_parameters);
            let b1 = opt_hrd_bits(x.vcl_hrd_parameters);
            let b2 = flag_bits(x.low_delay_hrd_flag);
            assert(vui_hrd_bits(h) == b0 + b1 + b2);
            lemma_holds_cat(s, p, b0 + b1, b2);
            lemma_holds_cat(s, p, b0, b1);
            lemma_opt_hrd_read(s, p, x.nal_hrd_parameters);
            lemma_opt_hrd_read(s, p + (b0).len(), x.vcl_hrd_parameters);
            lemma_flag_at(s, p + (b0 + b1).len(), x.low_delay_hrd_flag);
        },
    }
}

/// What reading VUI parameters back needs, beyond writing them.
pub open spec fn vui_readable(v: VuiView) -> bool {
    &&& vui_writable(v)
    &&& (v.aspect_ratio_info matches Some(x) ==> (x.aspect_ratio_idc == 255 <==> x.sar_width is Some)
        && (x.sar_width is Some <==> x.sar_height is Some))
    &&& (v.video_signal_type matches Some(x) ==> x.video_format < 8)
    &&& vui_hrd_readable(v.hrd)
}

/// The VUI is read from its parts.
#[verifier::spinoff_prover]
#[verifier::rlimit(100)]
proof fn lemma_vui_compose(s: Seq<bool>, p: nat, v: VuiView, q0: nat, q1: nat, q2: nat, q3: nat, q4: nat, q5: nat,
    q6: nat, q7: nat)
    requires
        aspect_ratio_spec(s, p) == Ok::<(Option<AspectRatioInfo>, nat), Error>((v.aspect_ratio_info, q0)),
        overscan_spec(s, q0) == Ok::<(Option<bool>, nat), Error>((v.overscan_appropriate_flag, q1)),
        video_signal_spec(s, q1) == Ok::<(Option<VideoSignalType>, nat), Error>((v.video_signal_type, q2)),
        chroma_loc_spec(s, q2) == Ok::<(Option<ChromaLocInfo>, nat), Error>((v.chroma_loc_info, q3)),
        timing_spec(s, q3) == Ok::<(Option<TimingInfo>, nat), Error>((v.timing_info, q4)),
        vui_hrd_spec(s, q4) == Ok::<(Option<VuiHrdView>, nat), Error>((v.hrd, q5)),
        sp_flag(s, q5) == Ok::<(bool, nat), Error>((v.pic_struct_present_flag, q6)),
        restriction_spec(s, q6) == Ok::<(Option<BitstreamRestriction>, nat), Error>((v.bitstream_restriction, q7)),
    ensures
        vui_spec(s, p) == Ok::<(VuiView, nat), Error>((v, q7)),
{
}


/// VUI parameters read back as written.
#[verifier::spinoff_prover]
#[verifier::rlimit(100)]
pub proof fn lemma_vui_read(s: Seq<bool>, p: nat, v: VuiView)
    requires
        holds_at(s, p, vui_bits(v)),
        vui_readable(v),
    ensures
        vui_spec(s, p) == Ok::<(VuiView, nat), Error>((v, p + vui_bits(v).len())),
{
    let b0 = aspect_ratio_bits(v.aspect_ratio_info);
    let b1 = present_flag_bits(v.overscan_appropriate_flag);
    let b2 = video_signal_bits(v.video_signal_type);
    let b3 = chroma_loc_bits(v.chroma_loc_info);
    let b4 = timing_bits(v.timing_info);
    let b5 = vui_hrd_bits(v.hrd);
    let b6 = flag_bits(v.pic_struct_present_flag);
    let b7 = restriction_bits(v.bitstream_restriction);
    let q0 = p + b0.len();
    let q1 = q0 + b1.len();
    let q2 = q1 + b2.len();
    let q3 = q2 + b3.len();
    let q4 = q3 + b4.len();
    let q5 = q4 + b5.len();
    let q6 = q5 + b6.len();
    let q7 = q6 + b7.len();
    assert(holds_at(s, p, b0) && holds_at(s, q0, b1) && holds_at(s, q1, b2) && holds_at(s, q2, b3)
        && holds_at(s, q3, b4) && holds_at(s, q4, b5) && holds_at(s, q5, b6) && holds_at(s, q6, b7)
        && q7 == p + vui_bits(v).len()) by {
        assert(vui_bits(v) == b0 + b1 + b2 + b3 + b4 + b5 + b6 + b7);
        lemma_holds_cat(s, p, b0 + b1 + b2 + b3 + b4 + b5 + b6, b7);
        lemma_holds_cat(s, p, b0 + b1 + b2 + b3 + b4 + b5, b6);
        lemma_holds_cat(s, p, b0 + b1 + b2 + b3 + b4, b5);
        lemma_holds_cat(s, p, b0 + b1 + b2 + b3, b4);
        lemma_holds_cat(s, p, b0 + b1 + b2, b3);
        lemma_holds_cat(s, p, b0 + b1, b2);
        lemma_holds_cat(s, p, b0, b1);
    }
    assert(aspect_ratio_spec(s, p) == Ok::<(Option<AspectRatioInfo>, nat), Error>((v.aspect_ratio_info, q0))) by {
        lemma_aspect_ratio_read(s, p, v.aspect_ratio_info);
    }
    assert(overscan_spec(s, q0) == Ok::<(Option<bool>, nat), Error>((v.overscan_appropriate_flag, q1))) by {
        lemma_overscan_read(s, q0, v.overscan_appropriate_flag);
    }
    assert(video_signal_spec(s, q1) == Ok::<(Option<VideoSignalType>, nat), Error>((v.video_signal_type, q2))) by {
        lemma_video_signal_read(s, q1, v.video_signal_type);
    }
    assert(chroma_loc_spec(s, q2) == Ok::<(Option<ChromaLocInfo>, nat), Error>((v.chroma_loc_info, q3))) by {
        lemma_chroma_loc_read(s, q2, v.chroma_loc_info);
    }
    assert(timing_spec(s, q3) == Ok::<(Option<TimingInfo>, nat), Error>((v.timing_info, q4))) by {
        lemma_timing_read(s, q3, v.timing_info);
    }
    assert(vui_hrd_spec(s, q4) == Ok::<(Option<VuiHrdView>, nat), Error>((v.hrd, q5))) by {
        lemma_vui_hrd_read(s, q4, v.hrd);
    }
    assert(sp_flag(s, q5) == Ok::<(bool, nat), Error>((v.pic_struct_present_flag, q6))) by {
        lemma_flag_at(s, q5, v.pic_struct_present_flag);
    }
    assert(restriction_spec(s, q6) == Ok::<(Option<BitstreamRestriction>, nat), Error>((v.bitstream_restriction, q7))) by {
        lemma_restriction_read(s, q6, v.bitstream_restriction);
    }
    lemma_vui_compose(s, p, v, q0, q1, q2, q3, q4, q5, q6, q7);
}

/// `profile_idc` in bits 0 to 7, the constraint flags in bits 8 to 13,
/// two reserved zero bits, `level_idc` in bits 16 to 23 and
/// `seq_parameter_set_id` as the `ue(v)` from bit 24.
pub open spec fn sps_head_fields_at(s: Seq<bool>, profile: u8, cflags: u8, level: u8, id: u8) -> bool {
    &&& sp_u(s, 0, 8) is Ok && sp_u(s, 0, 8)->Ok_0.1 == 8 && profile == sp_u(s, 0, 8)->Ok_0.0 as u8
    &&& sp_u(s, 8, 6) is Ok && sp_u(s, 8, 6)->Ok_0.1 == 14 && cflags == sp_u(s, 8, 6)->Ok_0.0 as u8
    &&& sp_u(s, 14, 2) == Ok::<(u32, nat), Error>((0, 16))
    &&& sp_u(s, 16, 8) is Ok && sp_u(s, 16, 8)->Ok_0.1 == 24 && level == sp_u(s, 16, 8)->Ok_0.0 as u8
    &&& sp_ue(s, 24) is Ok && id == sp_ue(s, 24)->Ok_0.0 as u8
}

/// From bit `p` on: `max_num_ref_frames` as a `ue(v)`, the gaps flag,
/// the width in macroblocks minus 1 as a `ue(v)`, the height in map units
/// minus 1 as a `ue(v)`, the `frame_mbs_only_flag`, the
/// `mb_adaptive_frame_field_flag` exactly when that flag is clear, and the
/// `direct_8x8_inference_flag`, back to back.
pub open spec fn sps_frame_fields_at(s: Seq<bool>, p: nat, refs: u8, gaps: bool, width: u32, height: u32, fmo: bool,
    mbaff: Option<bool>, d8: bool) -> bool {
    let p1 = sp_ue(s, p)->Ok_0.1;
    let p3 = sp_ue(s, p1 + 1)->Ok_0.1;
    let p4 = sp_ue(s, p3)->Ok_0.1;
    &&& sp_ue(s, p) is Ok && refs == sp_ue(s, p)->Ok_0.0 as u8
    &&& sp_flag(s, p1) == Ok::<(bool, nat), Error>((gaps, p1 + 1))
    &&& sp_ue(s, p1 + 1) is Ok && sp_ue(s, p1 + 1)->Ok_0.0 == width
    &&& sp_ue(s, p3) is Ok && sp_ue(s, p3)->Ok_0.0 == height
    &&& sp_flag(s, p4) == Ok::<(bool, nat), Error>((fmo, p4 + 1))
    &&& (mbaff is Some <==> !fmo)
    &&& (mbaff matches Some(m) ==> sp_flag(s, p4 + 1) == Ok::<(bool, nat), Error>((m, p4 + 2)))
    &&& sp_flag(s, if fmo { p4 + 1 } else { p4 + 2 }) == Ok::<(bool, nat), Error>((d8, if fmo { p4 + 2 } else { p4 + 3 }))
}

/// The head fields of an SPS stand at their fixed positions.
proof fn lemma_sps_head_reads(s: Seq<bool>)
    requires
        sps_head_spec(s) is Ok,
    ensures
        sps_head_fields_at(s, sps_head_spec(s)->Ok_0.0, sps_head_spec(s)->Ok_0.1, sps_head_spec(s)->Ok_0.2,
            sps_head_spec(s)->Ok_0.3),
{
}

/// The frame fields are read back to back from `p`.
proof fn lemma_sps_frame_reads(s: Seq<bool>, p: nat)
    requires
        sps_frame_spec(s, p) is Ok,
    ensures
        sps_frame_fields_at(s, p, sps_frame_spec(s, p)->Ok_0.0, sps_frame_spec(s, p)->Ok_0.1, sps_frame_spec(s, p)->Ok_0.2,
            sps_frame_spec(s, p)->Ok_0.3, sps_frame_spec(s, p)->Ok_0.4, sps_frame_spec(s, p)->Ok_0.5,
            sps_frame_spec(s, p)->Ok_0.6),
{
}

/// The parts of a successful SPS parse: the head, and the frame fields
/// after the picture order count, from which the model takes its fields.
#[verifier::spinoff_prover]
#[verifier::rlimit(100)]
proof fn lemma_sps_parse_parts(s: Seq<bool>)
    requires
        sps_parse_spec(s) is Ok,
    ensures ({
        let v = sps_parse_spec(s)->Ok_0;
        let hd = sps_head_spec(s)->Ok_0;
        let p2 = sp_ue(s, hd.6)->Ok_0.1;
        let p3 = pic_order_cnt_spec(s, p2, sp_ue(s, hd.6)->Ok_0.0)->Ok_0.1;
        let fr = sps_frame_spec(s, p3)->Ok_0;
        &&& sps_head_spec(s) is Ok
        &&& v.profile_idc == hd.0 && v.constraint_flags == hd.1 && v.level_idc == hd.2 && v.seq_parameter_set_id == hd.3
        &&& sp_ue(s, hd.6) is Ok
        &&& pic_order_cnt_spec(s, p2, sp_ue(s, hd.6)->Ok_0.0) is Ok
        &&& sps_frame_spec(s, p3) is Ok
        &&& v.max_num_ref_frames == fr.0 && v.gaps_in_frame_num_value_allowed_flag == fr.1
        &&& v.pic_width_in_mbs_minus1 == fr.2 && v.pic_height_in_map_units_minus1 == fr.3 && v.frame_mbs_only_flag == fr.4
        &&& v.mb_adaptive_frame_field_flag == fr.5 && v.direct_8x8_inference_flag == fr.6
    }),
{
}

/// The parts of a successful SPS parse: the head fields at their fixed
/// positions, and the frame fields back to back after the picture order
/// count.
#[verifier::spinoff_prover]
#[verifier::rlimit(100)]
proof fn lemma_sps_parts(s: Seq<bool>)
    requires
        sps_parse_spec(s) is Ok,
    ensures ({
        let v = sps_parse_spec(s)->Ok_0;
        &&& sps_head_fields_at(s, v.profile_idc, v.constraint_flags, v.level_idc, v.seq_parameter_set_id)
        &&& exists|p: nat| #[trigger] sps_frame_fields_at(s, p, v.max_num_ref_frames, v.gaps_in_frame_num_value_allowed_flag,
            v.pic_width_in_mbs_minus1, v.pic_height_in_map_units_minus1, v.frame_mbs_only_flag, v.mb_adaptive_frame_field_flag,
            v.direct_8x8_inference_flag)
    }),
{
    let hd = sps_head_spec(s)->Ok_0;
    let p2 = sp_ue(s, hd.6)->Ok_0.1;
    let p3 = pic_order_cnt_spec(s, p2, sp_ue(s, hd.6)->Ok_0.0)->Ok_0.1;
    lemma_sps_parse_parts(s);
    lemma_sps_head_reads(s);
    lemma_sps_frame_reads(s, p3);
}

/// An SPS is read in the order of its syntax: `profile_idc` in the first
/// eight bits, the constraint flags in the next six, two reserved zero
/// bits, `level_idc` in bits 16 to 23, `seq_parameter_set_id` as the
/// `ue(v)` from bit 24; and, further on, `max_num_ref_frames` (`ue(v)`),
/// `gaps_in_frame_num_value_allowed_flag`, then `pic_width_in_mbs_minus1`
/// (`ue(v)`), then `pic_height_in_map_units_minus1` (`ue(v)`), then
/// `frame_mbs_only_flag`, the `mb_adaptive_frame_field_flag` when that
/// flag is clear, and the `direct_8x8_inference_flag`, back to back.
pub proof fn lemma_sps_field_order(s: Seq<bool>)
    requires
        sps_parse_spec(s) is Ok,
    ensures
        sps_head_fields_at(s, sps_parse_spec(s)->Ok_0.profile_idc, sps_parse_spec(s)->Ok_0.constraint_flags,
            sps_parse_spec(s)->Ok_0.level_idc, sps_parse_spec(s)->Ok_0.seq_parameter_set_id),
        exists|p: nat| #[trigger] sps_frame_fields_at(s, p, sps_parse_spec(s)->Ok_0.max_num_ref_frames,
            sps_parse_spec(s)->Ok_0.gaps_in_frame_num_value_allowed_flag, sps_parse_spec(s)->Ok_0.pic_width_in_mbs_minus1,
            sps_parse_spec(s)->Ok_0.pic_height_in_map_units_minus1, sps_parse_spec(s)->Ok_0.frame_mbs_only_flag,
            sps_parse_spec(s)->Ok_0.mb_adaptive_frame_field_flag, sps_parse_spec(s)->Ok_0.direct_8x8_inference_flag),
{
    lemma_sps_parts(s);
}

} // verus!
