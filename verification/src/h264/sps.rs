//! Sequence parameter set (SPS).
//!
//! Syntax, in order: profile_idc u(8), constraint flags u(6),
//! reserved_zero_2bits u(2), level_idc u(8), seq_parameter_set_id ue(v);
//! for the high profiles, chroma format, bit depths and scaling lists;
//! log2_max_frame_num_minus4 ue(v); pic_order_cnt_type ue(v) and its
//! fields; max_num_ref_frames ue(v); gaps flag; picture size in
//! macroblocks; frame/field flags; optional frame cropping; optional VUI.
//!
//! The parser is specified by `sps_parse_spec` over the bits of the RBSP;
//! the serializer by `sps_bits`, the syntax bits it writes.

use vstd::prelude::*;
use crate::bitstream::{BitstreamReader, BitstreamWriter, bytes_bits, u32_bits, ue_bits, se_bits, lemma_add_assoc};
use crate::h264::error::Error;
use crate::h264::syntax::{read_u, read_flag, read_ue, read_se, sp_u, sp_flag, sp_ue, sp_se, rbsp_bits};

verus! {

/// Fields present for the high profiles.
#[derive(Debug, Clone)]
pub struct HighProfileData {
    pub chroma_format_idc: u8,
    pub separate_colour_plane_flag: Option<bool>,
    pub bit_depth_luma_minus8: u8,
    pub bit_depth_chroma_minus8: u8,
    pub qpprime_y_zero_transform_bypass_flag: bool,
    pub seq_scaling_matrix_present_flag: bool,
    pub scaling_lists_4x4: Option<[[u8; 16]; 6]>,
    pub scaling_lists_8x8: Option<[[u8; 64]; 6]>,
}

/// Picture order count type and its fields.
#[derive(Debug, Clone)]
pub enum PicOrderCnt {
    Type0 { log2_max_pic_order_cnt_lsb_minus4: u8 },
    Type1 {
        delta_pic_order_always_zero_flag: bool,
        offset_for_non_ref_pic: i32,
        offset_for_top_to_bottom_field: i32,
        num_ref_frames_in_pic_order_cnt_cycle: u8,
        offset_for_ref_frame: Vec<i32>,
    },
    Type2,
}

/// Frame cropping offsets.
#[derive(Debug, Clone, Copy, PartialEq, Eq, Structural)]
pub struct FrameCropping {
    pub left_offset: u32,
    pub right_offset: u32,
    pub top_offset: u32,
    pub bottom_offset: u32,
}

/// Hypothetical reference decoder parameters.
#[derive(Debug, Clone)]
pub struct HrdParameters {
    pub cpb_cnt_minus1: u32,
    pub bit_rate_scale: u8,
    pub cpb_size_scale: u8,
    pub bit_rate_value_minus1: Vec<u32>,
    pub cpb_size_value_minus1: Vec<u32>,
    pub cbr_flag: Vec<bool>,
    pub initial_cpb_removal_delay_length_minus1: u8,
    pub cpb_removal_delay_length_minus1: u8,
    pub dpb_output_delay_length_minus1: u8,
    pub time_offset_length: u8,
}

/// Sample aspect ratio; the explicit width and height are present only
/// for `aspect_ratio_idc == 255` (Extended_SAR).
#[derive(Debug, Clone, Copy, PartialEq, Eq, Structural)]
pub struct AspectRatioInfo {
    pub aspect_ratio_idc: u8,
    pub sar_width: Option<u16>,
    pub sar_height: Option<u16>,
}

/// Colour description.
#[derive(Debug, Clone, Copy, PartialEq, Eq, Structural)]
pub struct ColourDescription {
    pub colour_primaries: u8,
    pub transfer_characteristics: u8,
    pub matrix_coefficients: u8,
}

/// Video signal type.
#[derive(Debug, Clone, Copy, PartialEq, Eq, Structural)]
pub struct VideoSignalType {
    pub video_format: u8,
    pub video_full_range_flag: bool,
    pub colour_description: Option<ColourDescription>,
}

/// Chroma sample location.
#[derive(Debug, Clone, Copy, PartialEq, Eq, Structural)]
pub struct ChromaLocInfo {
    pub chroma_sample_loc_type_top_field: u32,
    pub chroma_sample_loc_type_bottom_field: u32,
}

/// Timing information.
#[derive(Debug, Clone, Copy, PartialEq, Eq, Structural)]
pub struct TimingInfo {
    pub num_units_in_tick: u32,
    pub time_scale: u32,
    pub fixed_frame_rate_flag: bool,
}

/// Bitstream restriction.
#[derive(Debug, Clone, Copy, PartialEq, Eq, Structural)]
pub struct BitstreamRestriction {
    pub motion_vectors_over_pic_boundaries_flag: bool,
    pub max_bytes_per_pic_denom: u32,
    pub max_bits_per_mb_denom: u32,
    pub log2_max_mv_length_horizontal: u32,
    pub log2_max_mv_length_vertical: u32,
    pub max_num_reorder_frames: u32,
    pub max_dec_frame_buffering: u32,
}

/// HRD parameters of the VUI.
#[derive(Debug, Clone)]
pub struct VuiHrd {
    pub nal_hrd_parameters: Option<HrdParameters>,
    pub vcl_hrd_parameters: Option<HrdParameters>,
    pub low_delay_hrd_flag: bool,
}

/// Video usability information.
#[derive(Debug, Clone)]
pub struct VuiParameters {
    pub aspect_ratio_info: Option<AspectRatioInfo>,
    pub overscan_appropriate_flag: Option<bool>,
    pub video_signal_type: Option<VideoSignalType>,
    pub chroma_loc_info: Option<ChromaLocInfo>,
    pub timing_info: Option<TimingInfo>,
    pub hrd: Option<VuiHrd>,
    pub pic_struct_present_flag: bool,
    pub bitstream_restriction: Option<BitstreamRestriction>,
}

/// Sequence parameter set.
#[derive(Debug, Clone)]
pub struct Sps {
    pub profile_idc: u8,
    pub constraint_flags: u8,
    pub level_idc: u8,
    pub seq_parameter_set_id: u8,
    pub high_profile: Option<HighProfileData>,
    pub log2_max_frame_num_minus4: u8,
    pub pic_order_cnt: PicOrderCnt,
    pub max_num_ref_frames: u8,
    pub gaps_in_frame_num_value_allowed_flag: bool,
    pub pic_width_in_mbs_minus1: u32,
    pub pic_height_in_map_units_minus1: u32,
    pub frame_mbs_only_flag: bool,
    pub mb_adaptive_frame_field_flag: Option<bool>,
    pub direct_8x8_inference_flag: bool,
    pub frame_cropping: Option<FrameCropping>,
    pub vui: Option<VuiParameters>,
}

// ---------------------------------------------------------------------
// Mathematical models: sequences in place of vectors and arrays.
// ---------------------------------------------------------------------

/// Model of `HighProfileData`: each scaling list as a sequence.
pub struct HighProfileView {
    pub chroma_format_idc: u8,
    pub separate_colour_plane_flag: Option<bool>,
    pub bit_depth_luma_minus8: u8,
    pub bit_depth_chroma_minus8: u8,
    pub qpprime_y_zero_transform_bypass_flag: bool,
    pub seq_scaling_matrix_present_flag: bool,
    pub scaling_lists_4x4: Option<Seq<Seq<u8>>>,
    pub scaling_lists_8x8: Option<Seq<Seq<u8>>>,
}

/// Model of `PicOrderCnt`.
pub enum PicOrderCntView {
    Type0 { log2_max_pic_order_cnt_lsb_minus4: u8 },
    Type1 {
        delta_pic_order_always_zero_flag: bool,
        offset_for_non_ref_pic: i32,
        offset_for_top_to_bottom_field: i32,
        num_ref_frames_in_pic_order_cnt_cycle: u8,
        offset_for_ref_frame: Seq<i32>,
    },
    Type2,
}

/// Model of `HrdParameters`.
pub struct HrdView {
    pub cpb_cnt_minus1: u32,
    pub bit_rate_scale: u8,
    pub cpb_size_scale: u8,
    pub bit_rate_value_minus1: Seq<u32>,
    pub cpb_size_value_minus1: Seq<u32>,
    pub cbr_flag: Seq<bool>,
    pub initial_cpb_removal_delay_length_minus1: u8,
    pub cpb_removal_delay_length_minus1: u8,
    pub dpb_output_delay_length_minus1: u8,
    pub time_offset_length: u8,
}

/// Model of `VuiHrd`.
pub struct VuiHrdView {
    pub nal_hrd_parameters: Option<HrdView>,
    pub vcl_hrd_parameters: Option<HrdView>,
    pub low_delay_hrd_flag: bool,
}

/// Model of `VuiParameters`.
pub struct VuiView {
    pub aspect_ratio_info: Option<AspectRatioInfo>,
    pub overscan_appropriate_flag: Option<bool>,
    pub video_signal_type: Option<VideoSignalType>,
    pub chroma_loc_info: Option<ChromaLocInfo>,
    pub timing_info: Option<TimingInfo>,
    pub hrd: Option<VuiHrdView>,
    pub pic_struct_present_flag: bool,
    pub bitstream_restriction: Option<BitstreamRestriction>,
}

/// Model of `Sps`.
pub struct SpsView {
    pub profile_idc: u8,
    pub constraint_flags: u8,
    pub level_idc: u8,
    pub seq_parameter_set_id: u8,
    pub high_profile: Option<HighProfileView>,
    pub log2_max_frame_num_minus4: u8,
    pub pic_order_cnt: PicOrderCntView,
    pub max_num_ref_frames: u8,
    pub gaps_in_frame_num_value_allowed_flag: bool,
    pub pic_width_in_mbs_minus1: u32,
    pub pic_height_in_map_units_minus1: u32,
    pub frame_mbs_only_flag: bool,
    pub mb_adaptive_frame_field_flag: Option<bool>,
    pub direct_8x8_inference_flag: bool,
    pub frame_cropping: Option<FrameCropping>,
    pub vui: Option<VuiView>,
}

/// The model of six scaling lists of 16 entries.
pub open spec fn lists16_view(a: [[u8; 16]; 6]) -> Seq<Seq<u8>> {
    a@.map_values(|l: [u8; 16]| l@)
}

/// The model of six scaling lists of 64 entries.
pub open spec fn lists64_view(a: [[u8; 64]; 6]) -> Seq<Seq<u8>> {
    a@.map_values(|l: [u8; 64]| l@)
}

impl View for HighProfileData {
    type V = HighProfileView;

    open spec fn view(&self) -> HighProfileView {
        HighProfileView {
            chroma_format_idc: self.chroma_format_idc,
            separate_colour_plane_flag: self.separate_colour_plane_flag,
            bit_depth_luma_minus8: self.bit_depth_luma_minus8,
            bit_depth_chroma_minus8: self.bit_depth_chroma_minus8,
            qpprime_y_zero_transform_bypass_flag: self.qpprime_y_zero_transform_bypass_flag,
            seq_scaling_matrix_present_flag: self.seq_scaling_matrix_present_flag,
            scaling_lists_4x4: match self.scaling_lists_4x4 {
                Some(a) => Some(lists16_view(a)),
                None => None,
            },
            scaling_lists_8x8: match self.scaling_lists_8x8 {
                Some(a) => Some(lists64_view(a)),
                None => None,
            },
        }
    }
}

impl View for PicOrderCnt {
    type V = PicOrderCntView;

    open spec fn view(&self) -> PicOrderCntView {
        match self {
            PicOrderCnt::Type0 { log2_max_pic_order_cnt_lsb_minus4 } => PicOrderCntView::Type0 {
                log2_max_pic_order_cnt_lsb_minus4: *log2_max_pic_order_cnt_lsb_minus4,
            },
            PicOrderCnt::Type1 {
                delta_pic_order_always_zero_flag,
                offset_for_non_ref_pic,
                offset_for_top_to_bottom_field,
                num_ref_frames_in_pic_order_cnt_cycle,
                offset_for_ref_frame,
            } => PicOrderCntView::Type1 {
                delta_pic_order_always_zero_flag: *delta_pic_order_always_zero_flag,
                offset_for_non_ref_pic: *offset_for_non_ref_pic,
                offset_for_top_to_bottom_field: *offset_for_top_to_bottom_field,
                num_ref_frames_in_pic_order_cnt_cycle: *num_ref_frames_in_pic_order_cnt_cycle,
                offset_for_ref_frame: offset_for_ref_frame@,
            },
            PicOrderCnt::Type2 => PicOrderCntView::Type2,
        }
    }
}

impl View for HrdParameters {
    type V = HrdView;

    open spec fn view(&self) -> HrdView {
        HrdView {
            cpb_cnt_minus1: self.cpb_cnt_minus1,
            bit_rate_scale: self.bit_rate_scale,
            cpb_size_scale: self.cpb_size_scale,
            bit_rate_value_minus1: self.bit_rate_value_minus1@,
            cpb_size_value_minus1: self.cpb_size_value_minus1@,
            cbr_flag: self.cbr_flag@,
            initial_cpb_removal_delay_length_minus1: self.initial_cpb_removal_delay_length_minus1,
            cpb_removal_delay_length_minus1: self.cpb_removal_delay_length_minus1,
            dpb_output_delay_length_minus1: self.dpb_output_delay_length_minus1,
            time_offset_length: self.time_offset_length,
        }
    }
}

/// The model of optional HRD parameters.
pub open spec fn opt_hrd_view(h: Option<HrdParameters>) -> Option<HrdView> {
    match h {
        Some(x) => Some(x@),
        None => None,
    }
}

impl View for VuiHrd {
    type V = VuiHrdView;

    open spec fn view(&self) -> VuiHrdView {
        VuiHrdView {
            nal_hrd_parameters: opt_hrd_view(self.nal_hrd_parameters),
            vcl_hrd_parameters: opt_hrd_view(self.vcl_hrd_parameters),
            low_delay_hrd_flag: self.low_delay_hrd_flag,
        }
    }
}

impl View for VuiParameters {
    type V = VuiView;

    open spec fn view(&self) -> VuiView {
        VuiView {
            aspect_ratio_info: self.aspect_ratio_info,
            overscan_appropriate_flag: self.overscan_appropriate_flag,
            video_signal_type: self.video_signal_type,
            chroma_loc_info: self.chroma_loc_info,
            timing_info: self.timing_info,
            hrd: opt_vui_hrd_view(self.hrd),
            pic_struct_present_flag: self.pic_struct_present_flag,
            bitstream_restriction: self.bitstream_restriction,
        }
    }
}

/// The model of optional high-profile fields.
pub open spec fn opt_high_view(h: Option<HighProfileData>) -> Option<HighProfileView> {
    match h {
        Some(x) => Some(x@),
        None => None,
    }
}

/// The model of an optional VUI HRD part.
pub open spec fn opt_vui_hrd_view(h: Option<VuiHrd>) -> Option<VuiHrdView> {
    match h {
        Some(x) => Some(x@),
        None => None,
    }
}

/// The model of optional VUI parameters.
pub open spec fn opt_vui_view(v: Option<VuiParameters>) -> Option<VuiView> {
    match v {
        Some(x) => Some(x@),
        None => None,
    }
}

impl View for Sps {
    type V = SpsView;

    open spec fn view(&self) -> SpsView {
        SpsView {
            profile_idc: self.profile_idc,
            constraint_flags: self.constraint_flags,
            level_idc: self.level_idc,
            seq_parameter_set_id: self.seq_parameter_set_id,
            high_profile: opt_high_view(self.high_profile),
            log2_max_frame_num_minus4: self.log2_max_frame_num_minus4,
            pic_order_cnt: self.pic_order_cnt@,
            max_num_ref_frames: self.max_num_ref_frames,
            gaps_in_frame_num_value_allowed_flag: self.gaps_in_frame_num_value_allowed_flag,
            pic_width_in_mbs_minus1: self.pic_width_in_mbs_minus1,
            pic_height_in_map_units_minus1: self.pic_height_in_map_units_minus1,
            frame_mbs_only_flag: self.frame_mbs_only_flag,
            mb_adaptive_frame_field_flag: self.mb_adaptive_frame_field_flag,
            direct_8x8_inference_flag: self.direct_8x8_inference_flag,
            frame_cropping: self.frame_cropping,
            vui: opt_vui_view(self.vui),
        }
    }
}

// ---------------------------------------------------------------------
// Parsing, specified on the bits of the RBSP.
// ---------------------------------------------------------------------

/// Reading `ue(v)` stored in eight bits (the value is cut to its low byte).
pub open spec fn sp_ue8(s: Seq<bool>, p: nat) -> Result<(u8, nat), Error> {
    match sp_ue(s, p) {
        Ok((v, q)) => Ok((v as u8, q)),
        Err(e) => Err(e),
    }
}

/// Reading `u(n)` stored in eight bits.
pub open spec fn sp_u8(s: Seq<bool>, p: nat, n: nat) -> Result<(u8, nat), Error> {
    match sp_u(s, p, n) {
        Ok((v, q)) => Ok((v as u8, q)),
        Err(e) => Err(e),
    }
}

/// The remainder of `a / m` with the sign of `a`, as Rust's `%` computes it.
pub open spec fn rem_trunc(a: int, m: int) -> int {
    if a >= 0 { a % m } else { -((-a) % m) }
}

/// Reading entries `i..n` of a scaling list: while the next scale is not 0,
/// a delta `se(v)` gives the next scale `(last + delta + 256) % 256`; an
/// entry is the next scale, or the last one when the next scale is 0.
pub open spec fn scaling_list_from(s: Seq<bool>, p: nat, i: nat, n: nat, last: int, next: int) -> Result<(Seq<u8>, nat), Error>
    decreases n - i,
{
    if i >= n {
        Ok((Seq::empty(), p))
    } else if next != 0 {
        match sp_se(s, p) {
            Err(e) => Err(e),
            Ok((delta, q)) => {
                let nx = rem_trunc(last + delta + 256, 256);
                let item: u8 = if nx == 0 { last as u8 } else { nx as u8 };
                match scaling_list_from(s, q, i + 1, n, item as int, nx) {
                    Err(e) => Err(e),
                    Ok((rest, q2)) => Ok((seq![item] + rest, q2)),
                }
            },
        }
    } else {
        let item: u8 = last as u8;
        match scaling_list_from(s, p, i + 1, n, item as int, next) {
            Err(e) => Err(e),
            Ok((rest, q2)) => Ok((seq![item] + rest, q2)),
        }
    }
}

/// Reading a scaling list of `n` entries at bit position `p`.
pub open spec fn scaling_list_spec(s: Seq<bool>, p: nat, n: nat) -> Result<(Seq<u8>, nat), Error> {
    scaling_list_from(s, p, 0, n, 8, 8)
}

/// `n` entries of value 16 (a default list).
pub open spec fn default_list(n: nat) -> Seq<u8> {
    Seq::new(n, |i: int| 16u8)
}

/// Reading the scaling matrix from list `i` of `num`: a presence flag per
/// list, and the list when present; lists 0..6 are 4x4 (16 entries), the
/// others 8x8 (64 entries); absent lists are all 16.
pub open spec fn scaling_matrix_from(s: Seq<bool>, p: nat, i: nat, num: nat, l4: Seq<Seq<u8>>, l8: Seq<Seq<u8>>)
    -> Result<(Seq<Seq<u8>>, Seq<Seq<u8>>, nat), Error>
    decreases num - i,
{
    if i >= num {
        Ok((l4, l8, p))
    } else {
        match sp_flag(s, p) {
            Err(e) => Err(e),
            Ok((present, p1)) => if !present {
                scaling_matrix_from(s, p1, i + 1, num, l4, l8)
            } else if i < 6 {
                match scaling_list_spec(s, p1, 16) {
                    Err(e) => Err(e),
                    Ok((l, p2)) => scaling_matrix_from(s, p2, i + 1, num, l4.update(i as int, l), l8),
                }
            } else {
                match scaling_list_spec(s, p1, 64) {
                    Err(e) => Err(e),
                    Ok((l, p2)) => scaling_matrix_from(s, p2, i + 1, num, l4, l8.update(i - 6, l)),
                }
            },
        }
    }
}

/// Whether a profile carries the high-profile fields.
pub open spec fn is_high_profile(profile_idc: u8) -> bool {
    profile_idc == 100 || profile_idc == 110 || profile_idc == 122 || profile_idc == 244 || profile_idc == 44
        || profile_idc == 83 || profile_idc == 86 || profile_idc == 118 || profile_idc == 128
        || profile_idc == 138 || profile_idc == 139 || profile_idc == 134 || profile_idc == 135
}

/// Reading the high-profile fields at bit position `p`.
pub open spec fn high_profile_spec(s: Seq<bool>, p: nat) -> Result<(HighProfileView, nat), Error> {
    match sp_ue8(s, p) {
        Err(e) => Err(e),
        Ok((cf, p1)) => match (if cf == 3 {
            match sp_flag(s, p1) {
                Err(e) => Err(e),
                Ok((f, q)) => Ok((Some(f), q)),
            }
        } else {
            Ok((None, p1))
        }) {
            Err(e) => Err(e),
            Ok((sep, p2)) => match sp_ue8(s, p2) {
                Err(e) => Err(e),
                Ok((bdl, p3)) => match sp_ue8(s, p3) {
                    Err(e) => Err(e),
                    Ok((bdc, p4)) => match sp_flag(s, p4) {
                        Err(e) => Err(e),
                        Ok((qp, p5)) => match sp_flag(s, p5) {
                            Err(e) => Err(e),
                            Ok((present, p6)) => if present {
                                let num: nat = if cf != 3 { 8 } else { 12 };
                                match scaling_matrix_from(s, p6, 0, num, Seq::new(6, |i: int| default_list(16)),
                                    Seq::new(6, |i: int| default_list(64))) {
                                    Err(e) => Err(e),
                                    Ok((l4, l8, p7)) => Ok((HighProfileView {
                                        chroma_format_idc: cf,
                                        separate_colour_plane_flag: sep,
                                        bit_depth_luma_minus8: bdl,
                                        bit_depth_chroma_minus8: bdc,
                                        qpprime_y_zero_transform_bypass_flag: qp,
                                        seq_scaling_matrix_present_flag: true,
                                        scaling_lists_4x4: Some(l4),
                                        scaling_lists_8x8: Some(l8),
                                    }, p7)),
                                }
                            } else {
                                Ok((HighProfileView {
                                    chroma_format_idc: cf,
                                    separate_colour_plane_flag: sep,
                                    bit_depth_luma_minus8: bdl,
                                    bit_depth_chroma_minus8: bdc,
                                    qpprime_y_zero_transform_bypass_flag: qp,
                                    seq_scaling_matrix_present_flag: false,
                                    scaling_lists_4x4: None,
                                    scaling_lists_8x8: None,
                                }, p6))
                            },
                        },
                    },
                },
            },
        },
    }
}

/// Reading `n` values `se(v)` at bit position `p`.
pub open spec fn se_list_spec(s: Seq<bool>, p: nat, n: nat) -> Result<(Seq<i32>, nat), Error>
    decreases n,
{
    if n == 0 {
        Ok((Seq::empty(), p))
    } else {
        match sp_se(s, p) {
            Err(e) => Err(e),
            Ok((v, q)) => match se_list_spec(s, q, (n - 1) as nat) {
                Err(e) => Err(e),
                Ok((rest, q2)) => Ok((seq![v] + rest, q2)),
            },
        }
    }
}

/// Reading the picture order count fields of type `t` at bit position `p`;
/// types above 2 are refused.
pub open spec fn pic_order_cnt_spec(s: Seq<bool>, p: nat, t: u32) -> Result<(PicOrderCntView, nat), Error> {
    if t == 0 {
        match sp_ue8(s, p) {
            Err(e) => Err(e),
            Ok((v, q)) => Ok((PicOrderCntView::Type0 { log2_max_pic_order_cnt_lsb_minus4: v }, q)),
        }
    } else if t == 1 {
        match sp_flag(s, p) {
            Err(e) => Err(e),
            Ok((z, p1)) => match sp_se(s, p1) {
                Err(e) => Err(e),
                Ok((nonref, p2)) => match sp_se(s, p2) {
                    Err(e) => Err(e),
                    Ok((tb, p3)) => match sp_ue8(s, p3) {
                        Err(e) => Err(e),
                        Ok((n, p4)) => match se_list_spec(s, p4, n as nat) {
                            Err(e) => Err(e),
                            Ok((offsets, p5)) => Ok((PicOrderCntView::Type1 {
                                delta_pic_order_always_zero_flag: z,
                                offset_for_non_ref_pic: nonref,
                                offset_for_top_to_bottom_field: tb,
                                num_ref_frames_in_pic_order_cnt_cycle: n,
                                offset_for_ref_frame: offsets,
                            }, p5)),
                        },
                    },
                },
            },
        }
    } else if t == 2 {
        Ok((PicOrderCntView::Type2, p))
    } else {
        Err(Error::InvalidPicOrderCntType(t))
    }
}

/// Reading `n` HRD entries (bit rate `ue(v)`, CPB size `ue(v)`, CBR flag).
pub open spec fn hrd_entries_spec(s: Seq<bool>, p: nat, n: nat) -> Result<(Seq<(u32, u32, bool)>, nat), Error>
    decreases n,
{
    if n == 0 {
        Ok((Seq::empty(), p))
    } else {
        match sp_ue(s, p) {
            Err(e) => Err(e),
            Ok((br, p1)) => match sp_ue(s, p1) {
                Err(e) => Err(e),
                Ok((cs, p2)) => match sp_flag(s, p2) {
                    Err(e) => Err(e),
                    Ok((cbr, p3)) => match hrd_entries_spec(s, p3, (n - 1) as nat) {
                        Err(e) => Err(e),
                        Ok((rest, q)) => Ok((seq![(br, cs, cbr)] + rest, q)),
                    },
                },
            },
        }
    }
}

/// Reading HRD parameters at bit position `p`: `cpb_cnt_minus1 + 1` entries.
pub open spec fn hrd_spec(s: Seq<bool>, p: nat) -> Result<(HrdView, nat), Error> {
    match sp_ue(s, p) {
        Err(e) => Err(e),
        Ok((cnt, p1)) => match sp_u8(s, p1, 4) {
            Err(e) => Err(e),
            Ok((brs, p2)) => match sp_u8(s, p2, 4) {
                Err(e) => Err(e),
                Ok((css, p3)) => match hrd_entries_spec(s, p3, cnt as nat + 1) {
                    Err(e) => Err(e),
                    Ok((entries, p4)) => match sp_u8(s, p4, 5) {
                        Err(e) => Err(e),
                        Ok((a, p5)) => match sp_u8(s, p5, 5) {
                            Err(e) => Err(e),
                            Ok((b, p6)) => match sp_u8(s, p6, 5) {
                                Err(e) => Err(e),
                                Ok((c, p7)) => match sp_u8(s, p7, 5) {
                                    Err(e) => Err(e),
                                    Ok((d, p8)) => Ok((HrdView {
                                        cpb_cnt_minus1: cnt,
                                        bit_rate_scale: brs,
                                        cpb_size_scale: css,
                                        bit_rate_value_minus1: entries.map_values(|x: (u32, u32, bool)| x.0),
                                        cpb_size_value_minus1: entries.map_values(|x: (u32, u32, bool)| x.1),
                                        cbr_flag: entries.map_values(|x: (u32, u32, bool)| x.2),
                                        initial_cpb_removal_delay_length_minus1: a,
                                        cpb_removal_delay_length_minus1: b,
                                        dpb_output_delay_length_minus1: c,
                                        time_offset_length: d,
                                    }, p8)),
                                },
                            },
                        },
                    },
                },
            },
        },
    }
}

/// Reading HRD parameters after a presence flag.
pub open spec fn opt_hrd_spec(s: Seq<bool>, p: nat) -> Result<(Option<HrdView>, nat), Error> {
    match sp_flag(s, p) {
        Err(e) => Err(e),
        Ok((present, p1)) => if present {
            match hrd_spec(s, p1) {
                Err(e) => Err(e),
                Ok((h, q)) => Ok((Some(h), q)),
            }
        } else {
            Ok((None, p1))
        },
    }
}

/// Reading the aspect ratio after its presence flag.
pub open spec fn aspect_ratio_spec(s: Seq<bool>, p: nat) -> Result<(Option<AspectRatioInfo>, nat), Error> {
    match sp_flag(s, p) {
        Err(e) => Err(e),
        Ok((present, p1)) => if !present {
            Ok((None, p1))
        } else {
            match sp_u8(s, p1, 8) {
                Err(e) => Err(e),
                Ok((idc, p2)) => if idc == 255 {
                    match sp_u(s, p2, 16) {
                        Err(e) => Err(e),
                        Ok((w, p3)) => match sp_u(s, p3, 16) {
                            Err(e) => Err(e),
                            Ok((h, p4)) => Ok((Some(AspectRatioInfo {
                                aspect_ratio_idc: idc,
                                sar_width: Some(w as u16),
                                sar_height: Some(h as u16),
                            }), p4)),
                        },
                    }
                } else {
                    Ok((Some(AspectRatioInfo { aspect_ratio_idc: idc, sar_width: None, sar_height: None }), p2))
                },
            }
        },
    }
}

/// Reading a flag that, when set, is followed by another flag.
pub open spec fn overscan_spec(s: Seq<bool>, p: nat) -> Result<(Option<bool>, nat), Error> {
    match sp_flag(s, p) {
        Err(e) => Err(e),
        Ok((present, p1)) => if present {
            match sp_flag(s, p1) {
                Err(e) => Err(e),
                Ok((f, q)) => Ok((Some(f), q)),
            }
        } else {
            Ok((None, p1))
        },
    }
}

/// Reading the video signal type after its presence flag.
pub open spec fn video_signal_spec(s: Seq<bool>, p: nat) -> Result<(Option<VideoSignalType>, nat), Error> {
    match sp_flag(s, p) {
        Err(e) => Err(e),
        Ok((present, p1)) => if !present {
            Ok((None, p1))
        } else {
            match sp_u8(s, p1, 3) {
                Err(e) => Err(e),
                Ok((fmt, p2)) => match sp_flag(s, p2) {
                    Err(e) => Err(e),
                    Ok((full, p3)) => match sp_flag(s, p3) {
                        Err(e) => Err(e),
                        Ok((cd, p4)) => if cd {
                            match sp_u8(s, p4, 8) {
                                Err(e) => Err(e),
                                Ok((cp, p5)) => match sp_u8(s, p5, 8) {
                                    Err(e) => Err(e),
                                    Ok((tc, p6)) => match sp_u8(s, p6, 8) {
                                        Err(e) => Err(e),
                                        Ok((mc, p7)) => Ok((Some(VideoSignalType {
                                            video_format: fmt,
                                            video_full_range_flag: full,
                                            colour_description: Some(ColourDescription {
                                                colour_primaries: cp,
                                                transfer_characteristics: tc,
                                                matrix_coefficients: mc,
                                            }),
                                        }), p7)),
                                    },
                                },
                            }
                        } else {
                            Ok((Some(VideoSignalType { video_format: fmt, video_full_range_flag: full, colour_description: None }), p4))
                        },
                    },
                },
            }
        },
    }
}

/// Reading the chroma sample location after its presence flag.
pub open spec fn chroma_loc_spec(s: Seq<bool>, p: nat) -> Result<(Option<ChromaLocInfo>, nat), Error> {
    match sp_flag(s, p) {
        Err(e) => Err(e),
        Ok((present, p1)) => if !present {
            Ok((None, p1))
        } else {
            match sp_ue(s, p1) {
                Err(e) => Err(e),
                Ok((top, p2)) => match sp_ue(s, p2) {
                    Err(e) => Err(e),
                    Ok((bottom, p3)) => Ok((Some(ChromaLocInfo {
                        chroma_sample_loc_type_top_field: top,
                        chroma_sample_loc_type_bottom_field: bottom,
                    }), p3)),
                },
            }
        },
    }
}

/// Reading the timing information after its presence flag.
pub open spec fn timing_spec(s: Seq<bool>, p: nat) -> Result<(Option<TimingInfo>, nat), Error> {
    match sp_flag(s, p) {
        Err(e) => Err(e),
        Ok((present, p1)) => if !present {
            Ok((None, p1))
        } else {
            match sp_u(s, p1, 32) {
                Err(e) => Err(e),
                Ok((units, p2)) => match sp_u(s, p2, 32) {
                    Err(e) => Err(e),
                    Ok((scale, p3)) => match sp_flag(s, p3) {
                        Err(e) => Err(e),
                        Ok((fixed, p4)) => Ok((Some(TimingInfo {
                            num_units_in_tick: units,
                            time_scale: scale,
                            fixed_frame_rate_flag: fixed,
                        }), p4)),
                    },
                },
            }
        },
    }
}

/// Reading the HRD part of the VUI: NAL and VCL parameters, each after a
/// presence flag, then the low-delay flag when either is present.
pub open spec fn vui_hrd_spec(s: Seq<bool>, p: nat) -> Result<(Option<VuiHrdView>, nat), Error> {
    match opt_hrd_spec(s, p) {
        Err(e) => Err(e),
        Ok((nal, p1)) => match opt_hrd_spec(s, p1) {
            Err(e) => Err(e),
            Ok((vcl, p2)) => if nal is Some || vcl is Some {
                match sp_flag(s, p2) {
                    Err(e) => Err(e),
                    Ok((low, p3)) => Ok((Some(VuiHrdView {
                        nal_hrd_parameters: nal,
                        vcl_hrd_parameters: vcl,
                        low_delay_hrd_flag: low,
                    }), p3)),
                }
            } else {
                Ok((None, p2))
            },
        },
    }
}

/// Reading the bitstream restriction after its presence flag.
pub open spec fn restriction_spec(s: Seq<bool>, p: nat) -> Result<(Option<BitstreamRestriction>, nat), Error> {
    match sp_flag(s, p) {
        Err(e) => Err(e),
        Ok((present, p1)) => if !present {
            Ok((None, p1))
        } else {
            match sp_flag(s, p1) {
                Err(e) => Err(e),
                Ok((mv, p2)) => match sp_ue(s, p2) {
                    Err(e) => Err(e),
                    Ok((a, p3)) => match sp_ue(s, p3) {
                        Err(e) => Err(e),
                        Ok((b, p4)) => match sp_ue(s, p4) {
                            Err(e) => Err(e),
                            Ok((c, p5)) => match sp_ue(s, p5) {
                                Err(e) => Err(e),
                                Ok((d, p6)) => match sp_ue(s, p6) {
                                    Err(e) => Err(e),
                                    Ok((e2, p7)) => match sp_ue(s, p7) {
                                        Err(e) => Err(e),
                                        Ok((f, p8)) => Ok((Some(BitstreamRestriction {
                                            motion_vectors_over_pic_boundaries_flag: mv,
                                            max_bytes_per_pic_denom: a,
                                            max_bits_per_mb_denom: b,
                                            log2_max_mv_length_horizontal: c,
                                            log2_max_mv_length_vertical: d,
                                            max_num_reorder_frames: e2,
                                            max_dec_frame_buffering: f,
                                        }), p8)),
                                    },
                                },
                            },
                        },
                    },
                },
            }
        },
    }
}

/// Reading the VUI parameters at bit position `p`.
pub open spec fn vui_spec(s: Seq<bool>, p: nat) -> Result<(VuiView, nat), Error> {
    match aspect_ratio_spec(s, p) {
        Err(e) => Err(e),
        Ok((ar, p1)) => match overscan_spec(s, p1) {
            Err(e) => Err(e),
            Ok((ov, p2)) => match video_signal_spec(s, p2) {
                Err(e) => Err(e),
                Ok((vs, p3)) => match chroma_loc_spec(s, p3) {
                    Err(e) => Err(e),
                    Ok((cl, p4)) => match timing_spec(s, p4) {
                        Err(e) => Err(e),
                        Ok((ti, p5)) => match vui_hrd_spec(s, p5) {
                            Err(e) => Err(e),
                            Ok((hrd, p6)) => match sp_flag(s, p6) {
                                Err(e) => Err(e),
                                Ok((ps, p7)) => match restriction_spec(s, p7) {
                                    Err(e) => Err(e),
                                    Ok((br, p8)) => Ok((VuiView {
                                        aspect_ratio_info: ar,
                                        overscan_appropriate_flag: ov,
                                        video_signal_type: vs,
                                        chroma_loc_info: cl,
                                        timing_info: ti,
                                        hrd,
                                        pic_struct_present_flag: ps,
                                        bitstream_restriction: br,
                                    }, p8)),
                                },
                            },
                        },
                    },
                },
            },
        },
    }
}

/// Reading the frame cropping offsets after their presence flag.
pub open spec fn cropping_spec(s: Seq<bool>, p: nat) -> Result<(Option<FrameCropping>, nat), Error> {
    match sp_flag(s, p) {
        Err(e) => Err(e),
        Ok((present, p1)) => if !present {
            Ok((None, p1))
        } else {
            match sp_ue(s, p1) {
                Err(e) => Err(e),
                Ok((l, p2)) => match sp_ue(s, p2) {
                    Err(e) => Err(e),
                    Ok((r, p3)) => match sp_ue(s, p3) {
                        Err(e) => Err(e),
                        Ok((t, p4)) => match sp_ue(s, p4) {
                            Err(e) => Err(e),
                            Ok((b, p5)) => Ok((Some(FrameCropping {
                                left_offset: l,
                                right_offset: r,
                                top_offset: t,
                                bottom_offset: b,
                            }), p5)),
                        },
                    },
                },
            }
        },
    }
}

/// The part of an SPS before the picture order count: profile, constraint
/// flags, level, id, high-profile fields and `log2_max_frame_num_minus4`;
/// reserved bits other than `00` are refused.
pub open spec fn sps_head_spec(s: Seq<bool>) -> Result<(u8, u8, u8, u8, Option<HighProfileView>, u8, nat), Error> {
    match sp_u8(s, 0, 8) {
        Err(e) => Err(e),
        Ok((profile, p1)) => match sp_u8(s, p1, 6) {
            Err(e) => Err(e),
            Ok((cflags, p2)) => match sp_u(s, p2, 2) {
                Err(e) => Err(e),
                Ok((reserved, p3)) => if reserved != 0 {
                    Err(Error::InvalidReservedData(reserved))
                } else {
                    match sp_u8(s, p3, 8) {
                        Err(e) => Err(e),
                        Ok((level, p4)) => match sp_ue8(s, p4) {
                            Err(e) => Err(e),
                            Ok((id, p5)) => match (if is_high_profile(profile) {
                                match high_profile_spec(s, p5) {
                                    Err(e) => Err(e),
                                    Ok((h, q)) => Ok((Some(h), q)),
                                }
                            } else {
                                Ok((None, p5))
                            }) {
                                Err(e) => Err(e),
                                Ok((high, p6)) => match sp_ue8(s, p6) {
                                    Err(e) => Err(e),
                                    Ok((fn4, p7)) => Ok((profile, cflags, level, id, high, fn4, p7)),
                                },
                            },
                        },
                    }
                },
            },
        },
    }
}

/// The frame fields after the picture order count: reference frames, gaps
/// flag, picture size, frame/field flags, 8x8 inference flag.
pub open spec fn sps_frame_spec(s: Seq<bool>, p: nat) -> Result<(u8, bool, u32, u32, bool, Option<bool>, bool, nat), Error> {
    match sp_ue8(s, p) {
        Err(e) => Err(e),
        Ok((refs, p1)) => match sp_flag(s, p1) {
            Err(e) => Err(e),
            Ok((gaps, p2)) => match sp_ue(s, p2) {
                Err(e) => Err(e),
                Ok((w, p3)) => match sp_ue(s, p3) {
                    Err(e) => Err(e),
                    Ok((h, p4)) => match sp_flag(s, p4) {
                        Err(e) => Err(e),
                        Ok((fmo, p5)) => match overscan_like(s, p5, !fmo) {
                            Err(e) => Err(e),
                            Ok((mbaff, p6)) => match sp_flag(s, p6) {
                                Err(e) => Err(e),
                                Ok((d8, p7)) => Ok((refs, gaps, w, h, fmo, mbaff, d8, p7)),
                            },
                        },
                    },
                },
            },
        },
    }
}

/// Reading a flag when `present`.
pub open spec fn overscan_like(s: Seq<bool>, p: nat, present: bool) -> Result<(Option<bool>, nat), Error> {
    if present {
        match sp_flag(s, p) {
            Err(e) => Err(e),
            Ok((f, q)) => Ok((Some(f), q)),
        }
    } else {
        Ok((None, p))
    }
}

/// Parsing an SPS from the bits `s` of its RBSP.
pub open spec fn sps_parse_spec(s: Seq<bool>) -> Result<SpsView, Error> {
    match sps_head_spec(s) {
        Err(e) => Err(e),
        Ok((profile, cflags, level, id, high, fn4, p1)) => match sp_ue(s, p1) {
            Err(e) => Err(e),
            Ok((poc_type, p2)) => match pic_order_cnt_spec(s, p2, poc_type) {
                Err(e) => Err(e),
                Ok((poc, p3)) => match sps_frame_spec(s, p3) {
                    Err(e) => Err(e),
                    Ok((refs, gaps, w, h, fmo, mbaff, d8, p4)) => match cropping_spec(s, p4) {
                        Err(e) => Err(e),
                        Ok((crop, p5)) => match sp_flag(s, p5) {
                            Err(e) => Err(e),
                            Ok((vui_present, p6)) => match (if vui_present {
                                match vui_spec(s, p6) {
                                    Err(e) => Err(e),
                                    Ok((v, q)) => Ok((Some(v), q)),
                                }
                            } else {
                                Ok((None, p6))
                            }) {
                                Err(e) => Err(e),
                                Ok((vui, _)) => Ok(SpsView {
                                    profile_idc: profile,
                                    constraint_flags: cflags,
                                    level_idc: level,
                                    seq_parameter_set_id: id,
                                    high_profile: high,
                                    log2_max_frame_num_minus4: fn4,
                                    pic_order_cnt: poc,
                                    max_num_ref_frames: refs,
                                    gaps_in_frame_num_value_allowed_flag: gaps,
                                    pic_width_in_mbs_minus1: w,
                                    pic_height_in_map_units_minus1: h,
                                    frame_mbs_only_flag: fmo,
                                    mb_adaptive_frame_field_flag: mbaff,
                                    direct_8x8_inference_flag: d8,
                                    frame_cropping: crop,
                                    vui,
                                }),
                            },
                        },
                    },
                },
            },
        },
    }
}


// ---------------------------------------------------------------------
// Parsing.
// ---------------------------------------------------------------------

/// Read `ue(v)` and keep its low byte.
fn read_ue8(r: &mut BitstreamReader) -> (res: Result<u8, Error>)
    ensures
        final(r).bytes() == old(r).bytes(),
        match sp_ue8(old(r).bits(), old(r).pos()) {
            Ok((v, q)) => res == Ok::<u8, Error>(v) && final(r).pos() == q,
            Err(e) => res == Err::<u8, Error>(e),
        },
{
    let v = read_ue(r)?;
    Ok(v as u8)
}

/// Read `u(n)` and keep its low byte.
fn read_u8(r: &mut BitstreamReader, n: u8) -> (res: Result<u8, Error>)
    requires
        n <= 32,
    ensures
        final(r).bytes() == old(r).bytes(),
        match sp_u8(old(r).bits(), old(r).pos(), n as nat) {
            Ok((v, q)) => res == Ok::<u8, Error>(v) && final(r).pos() == q,
            Err(e) => res == Err::<u8, Error>(e),
        },
{
    let v = read_u(r, n)?;
    Ok(v as u8)
}

/// `pre` followed by the entries of a list parse result.
pub open spec fn prepend_u8(pre: Seq<u8>, r: Result<(Seq<u8>, nat), Error>) -> Result<(Seq<u8>, nat), Error> {
    match r {
        Ok((rest, q)) => Ok((pre + rest, q)),
        Err(e) => Err(e),
    }
}

impl Sps {
    /// Read a scaling list of `N` entries.
    pub fn parse_scaling_list<const N: usize>(reader: &mut BitstreamReader) -> (r: Result<[u8; N], Error>)
        ensures
            final(reader).bytes() == old(reader).bytes(),
            match scaling_list_spec(old(reader).bits(), old(reader).pos(), N as nat) {
                Ok((l, q)) => r matches Ok(a) && a@ == l && final(reader).pos() == q,
                Err(e) => r matches Err(x) && x == e,
            },
    {
        let ghost s = old(reader).bits();
        let ghost p0 = old(reader).pos();
        let mut list: [u8; N] = [0u8; N];
        let mut last: i64 = 8;
        let mut next: i64 = 8;
        let mut i: usize = 0;
        assert(list@.subrange(0, 0) =~= Seq::<u8>::empty());
        while i < N
            invariant
                i <= N,
                list@.len() == N,
                reader.bytes() == old(reader).bytes(),
                s == old(reader).bits(),
                s == reader.bits(),
                p0 == old(reader).pos(),
                0 <= last < 256,
                -256 < next < 256,
                scaling_list_spec(s, p0, N as nat) == prepend_u8(list@.subrange(0, i as int),
                    scaling_list_from(s, reader.pos(), i as nat, N as nat, last as int, next as int)),
            decreases N - i,
        {
            let ghost before = list@.subrange(0, i as int);
            let ghost p = reader.pos();
            let item: u8;
            if next != 0 {
                let delta = read_se(reader)?;
                let t: i64 = last + delta as i64 + 256;
                let nx: i64 = if t >= 0 { t % 256 } else { -((-t) % 256) };
                item = if nx == 0 { last as u8 } else { nx as u8 };
                proof {
                    assert(nx as int == rem_trunc(last + delta + 256, 256));
                }
                next = nx;
            } else {
                item = last as u8;
            }
            list[i] = item;
            last = item as i64;
            proof {
                assert(list@.subrange(0, i + 1) =~= before.push(item));
                let r = scaling_list_from(s, reader.pos(), (i + 1) as nat, N as nat, last as int, next as int);
                match r {
                    Ok((rest, q)) => { assert(before + (seq![item] + rest) =~= before.push(item) + rest); },
                    Err(_) => {},
                }
            }
            i = i + 1;
        }
        assert(list@.subrange(0, N as int) =~= list@);
        assert(list@ + Seq::<u8>::empty() =~= list@);
        Ok(list)
    }
}

/// Read the scaling matrix: `num` lists, each after its presence flag.
fn parse_scaling_matrix(reader: &mut BitstreamReader, num: usize) -> (r: Result<([[u8; 16]; 6], [[u8; 64]; 6]), Error>)
    requires
        num <= 12,
    ensures
        final(reader).bytes() == old(reader).bytes(),
        match scaling_matrix_from(old(reader).bits(), old(reader).pos(), 0, num as nat,
            Seq::new(6, |i: int| default_list(16)), Seq::new(6, |i: int| default_list(64))) {
            Ok((l4, l8, q)) => r matches Ok(m) && lists16_view(m.0) == l4 && lists64_view(m.1) == l8 && final(reader).pos() == q,
            Err(e) => r matches Err(x) && x == e,
        },
{
    let ghost s = old(reader).bits();
    let ghost p0 = old(reader).pos();
    let mut l4: [[u8; 16]; 6] = [[16u8; 16]; 6];
    let mut l8: [[u8; 64]; 6] = [[16u8; 64]; 6];
    proof {
        assert forall|k: int| 0 <= k < 6 implies #[trigger] lists16_view(l4)[k] == default_list(16) by {
            assert(lists16_view(l4)[k] =~= default_list(16));
        }
        assert forall|k: int| 0 <= k < 6 implies #[trigger] lists64_view(l8)[k] == default_list(64) by {
            assert(lists64_view(l8)[k] =~= default_list(64));
        }
        assert(lists16_view(l4) =~= Seq::new(6, |i: int| default_list(16)));
        assert(lists64_view(l8) =~= Seq::new(6, |i: int| default_list(64)));
    }
    let mut i: usize = 0;
    while i < num
        invariant
            i <= num <= 12,
            reader.bytes() == old(reader).bytes(),
            s == old(reader).bits(),
            s == reader.bits(),
            p0 == old(reader).pos(),
            scaling_matrix_from(s, p0, 0, num as nat, Seq::new(6, |i: int| default_list(16)), Seq::new(6, |i: int| default_list(64)))
                == scaling_matrix_from(s, reader.pos(), i as nat, num as nat, lists16_view(l4), lists64_view(l8)),
        decreases num - i,
    {
        let present = read_flag(reader)?;
        if present {
            if i < 6 {
                let l = Sps::parse_scaling_list::<16>(reader)?;
                let ghost old4 = lists16_view(l4);
                l4[i] = l;
                assert(lists16_view(l4) =~= old4.update(i as int, l@));
            } else {
                let l = Sps::parse_scaling_list::<64>(reader)?;
                let ghost old8 = lists64_view(l8);
                l8[i - 6] = l;
                assert(lists64_view(l8) =~= old8.update(i - 6, l@));
            }
        }
        i = i + 1;
    }
    Ok((l4, l8))
}

/// Whether a profile carries the high-profile fields.
fn is_high(profile_idc: u8) -> (r: bool)
    ensures
        r == is_high_profile(profile_idc),
{
    profile_idc == 100 || profile_idc == 110 || profile_idc == 122 || profile_idc == 244 || profile_idc == 44
        || profile_idc == 83 || profile_idc == 86 || profile_idc == 118 || profile_idc == 128
        || profile_idc == 138 || profile_idc == 139 || profile_idc == 134 || profile_idc == 135
}

/// Read the high-profile fields.
fn parse_high_profile(reader: &mut BitstreamReader) -> (r: Result<HighProfileData, Error>)
    ensures
        final(reader).bytes() == old(reader).bytes(),
        match high_profile_spec(old(reader).bits(), old(reader).pos()) {
            Ok((v, q)) => r matches Ok(x) && x@ == v && final(reader).pos() == q,
            Err(e) => r matches Err(x) && x == e,
        },
{
    let chroma_format_idc = read_ue8(reader)?;
    let separate_colour_plane_flag = if chroma_format_idc == 3 { Some(read_flag(reader)?) } else { None };
    let bit_depth_luma_minus8 = read_ue8(reader)?;
    let bit_depth_chroma_minus8 = read_ue8(reader)?;
    let qpprime_y_zero_transform_bypass_flag = read_flag(reader)?;
    let seq_scaling_matrix_present_flag = read_flag(reader)?;
    if seq_scaling_matrix_present_flag {
        let num: usize = if chroma_format_idc != 3 { 8 } else { 12 };
        let (l4, l8) = parse_scaling_matrix(reader, num)?;
        Ok(HighProfileData {
            chroma_format_idc,
            separate_colour_plane_flag,
            bit_depth_luma_minus8,
            bit_depth_chroma_minus8,
            qpprime_y_zero_transform_bypass_flag,
            seq_scaling_matrix_present_flag,
            scaling_lists_4x4: Some(l4),
            scaling_lists_8x8: Some(l8),
        })
    } else {
        Ok(HighProfileData {
            chroma_format_idc,
            separate_colour_plane_flag,
            bit_depth_luma_minus8,
            bit_depth_chroma_minus8,
            qpprime_y_zero_transform_bypass_flag,
            seq_scaling_matrix_present_flag,
            scaling_lists_4x4: None,
            scaling_lists_8x8: None,
        })
    }
}

/// `pre` followed by the entries of a list parse result.
pub open spec fn prepend_i32(pre: Seq<i32>, r: Result<(Seq<i32>, nat), Error>) -> Result<(Seq<i32>, nat), Error> {
    match r {
        Ok((rest, q)) => Ok((pre + rest, q)),
        Err(e) => Err(e),
    }
}

/// Read `n` values `se(v)`.
fn parse_se_list(reader: &mut BitstreamReader, n: u8) -> (r: Result<Vec<i32>, Error>)
    ensures
        final(reader).bytes() == old(reader).bytes(),
        match se_list_spec(old(reader).bits(), old(reader).pos(), n as nat) {
            Ok((v, q)) => r matches Ok(x) && x@ == v && final(reader).pos() == q,
            Err(e) => r matches Err(x) && x == e,
        },
{
    let ghost s = old(reader).bits();
    let ghost p0 = old(reader).pos();
    let mut out: Vec<i32> = Vec::new();
    let mut i: u8 = 0;
    assert(out@ + Seq::<i32>::empty() =~= Seq::<i32>::empty());
    while i < n
        invariant
            i <= n,
            reader.bytes() == old(reader).bytes(),
            s == old(reader).bits(),
            s == reader.bits(),
            p0 == old(reader).pos(),
            se_list_spec(s, p0, n as nat) == prepend_i32(out@, se_list_spec(s, reader.pos(), (n - i) as nat)),
        decreases n - i,
    {
        let v = read_se(reader)?;
        let ghost before = out@;
        out.push(v);
        proof {
            let r = se_list_spec(s, reader.pos(), (n - i - 1) as nat);
            match r {
                Ok((rest, q)) => { assert(before + (seq![v] + rest) =~= before.push(v) + rest); },
                Err(_) => {},
            }
        }
        i = i + 1;
    }
    assert(out@ + Seq::<i32>::empty() =~= out@);
    Ok(out)
}

/// Read the picture order count fields of type `t`.
fn parse_pic_order_cnt(reader: &mut BitstreamReader, t: u32) -> (r: Result<PicOrderCnt, Error>)
    ensures
        final(reader).bytes() == old(reader).bytes(),
        match pic_order_cnt_spec(old(reader).bits(), old(reader).pos(), t) {
            Ok((v, q)) => r matches Ok(x) && x@ == v && final(reader).pos() == q,
            Err(e) => r matches Err(x) && x == e,
        },
{
    if t == 0 {
        let log2_max_pic_order_cnt_lsb_minus4 = read_ue8(reader)?;
        Ok(PicOrderCnt::Type0 { log2_max_pic_order_cnt_lsb_minus4 })
    } else if t == 1 {
        let delta_pic_order_always_zero_flag = read_flag(reader)?;
        let offset_for_non_ref_pic = read_se(reader)?;
        let offset_for_top_to_bottom_field = read_se(reader)?;
        let num_ref_frames_in_pic_order_cnt_cycle = read_ue8(reader)?;
        let offset_for_ref_frame = parse_se_list(reader, num_ref_frames_in_pic_order_cnt_cycle)?;
        Ok(PicOrderCnt::Type1 {
            delta_pic_order_always_zero_flag,
            offset_for_non_ref_pic,
            offset_for_top_to_bottom_field,
            num_ref_frames_in_pic_order_cnt_cycle,
            offset_for_ref_frame,
        })
    } else if t == 2 {
        Ok(PicOrderCnt::Type2)
    } else {
        Err(Error::InvalidPicOrderCntType(t))
    }
}

/// `pre` followed by the entries of an HRD entry parse result.
pub open spec fn prepend_hrd(pre: Seq<(u32, u32, bool)>, r: Result<(Seq<(u32, u32, bool)>, nat), Error>)
    -> Result<(Seq<(u32, u32, bool)>, nat), Error> {
    match r {
        Ok((rest, q)) => Ok((pre + rest, q)),
        Err(e) => Err(e),
    }
}

/// Read `count` HRD entries.
fn parse_hrd_entries(reader: &mut BitstreamReader, count: u64) -> (r: Result<(Vec<u32>, Vec<u32>, Vec<bool>), Error>)
    ensures
        final(reader).bytes() == old(reader).bytes(),
        match hrd_entries_spec(old(reader).bits(), old(reader).pos(), count as nat) {
            Ok((v, q)) => r matches Ok(x) && x.0@ == v.map_values(|e: (u32, u32, bool)| e.0)
                && x.1@ == v.map_values(|e: (u32, u32, bool)| e.1) && x.2@ == v.map_values(|e: (u32, u32, bool)| e.2)
                && final(reader).pos() == q,
            Err(e) => r matches Err(x) && x == e,
        },
{
    let ghost s = old(reader).bits();
    let ghost p0 = old(reader).pos();
    let mut bit_rate_value_minus1: Vec<u32> = Vec::new();
    let mut cpb_size_value_minus1: Vec<u32> = Vec::new();
    let mut cbr_flag: Vec<bool> = Vec::new();
    let mut i: u64 = 0;
    let ghost mut done: Seq<(u32, u32, bool)> = Seq::empty();
    assert(done + Seq::<(u32, u32, bool)>::empty() =~= Seq::<(u32, u32, bool)>::empty());
    while i < count
        invariant
            i <= count,
            reader.bytes() == old(reader).bytes(),
            s == old(reader).bits(),
            p0 == old(reader).pos(),
            s == reader.bits(),
            done.len() == i,
            bit_rate_value_minus1@.len() == i,
            cpb_size_value_minus1@.len() == i,
            cbr_flag@.len() == i,
            forall|k: int| 0 <= k < i ==> #[trigger] bit_rate_value_minus1@[k] == done[k].0,
            forall|k: int| 0 <= k < i ==> #[trigger] cpb_size_value_minus1@[k] == done[k].1,
            forall|k: int| 0 <= k < i ==> #[trigger] cbr_flag@[k] == done[k].2,
            hrd_entries_spec(s, p0, count as nat) == prepend_hrd(done, hrd_entries_spec(s, reader.pos(), (count - i) as nat)),
        decreases count - i,
    {
        let br = read_ue(reader)?;
        let cs = read_ue(reader)?;
        let cbr = read_flag(reader)?;
        proof {
            let r = hrd_entries_spec(s, reader.pos(), (count - i - 1) as nat);
            match r {
                Ok((rest, q)) => { assert(done + (seq![(br, cs, cbr)] + rest) =~= done.push((br, cs, cbr)) + rest); },
                Err(_) => {},
            }
        }
        bit_rate_value_minus1.push(br);
        cpb_size_value_minus1.push(cs);
        cbr_flag.push(cbr);
        proof {
            done = done.push((br, cs, cbr));
        }
        i = i + 1;
    }
    assert(done + Seq::<(u32, u32, bool)>::empty() =~= done);
    assert(bit_rate_value_minus1@ =~= done.map_values(|x: (u32, u32, bool)| x.0));
    assert(cpb_size_value_minus1@ =~= done.map_values(|x: (u32, u32, bool)| x.1));
    assert(cbr_flag@ =~= done.map_values(|x: (u32, u32, bool)| x.2));
    Ok((bit_rate_value_minus1, cpb_size_value_minus1, cbr_flag))
}

/// Read HRD parameters.
fn parse_hrd_params(reader: &mut BitstreamReader) -> (r: Result<HrdParameters, Error>)
    ensures
        final(reader).bytes() == old(reader).bytes(),
        match hrd_spec(old(reader).bits(), old(reader).pos()) {
            Ok((v, q)) => r matches Ok(x) && x@ == v && final(reader).pos() == q,
            Err(e) => r matches Err(x) && x == e,
        },
{
    let cpb_cnt_minus1 = read_ue(reader)?;
    let bit_rate_scale = read_u8(reader, 4)?;
    let cpb_size_scale = read_u8(reader, 4)?;
    let (bit_rate_value_minus1, cpb_size_value_minus1, cbr_flag) =
        parse_hrd_entries(reader, cpb_cnt_minus1 as u64 + 1)?;
    let initial_cpb_removal_delay_length_minus1 = read_u8(reader, 5)?;
    let cpb_removal_delay_length_minus1 = read_u8(reader, 5)?;
    let dpb_output_delay_length_minus1 = read_u8(reader, 5)?;
    let time_offset_length = read_u8(reader, 5)?;
    Ok(HrdParameters {
        cpb_cnt_minus1,
        bit_rate_scale,
        cpb_size_scale,
        bit_rate_value_minus1,
        cpb_size_value_minus1,
        cbr_flag,
        initial_cpb_removal_delay_length_minus1,
        cpb_removal_delay_length_minus1,
        dpb_output_delay_length_minus1,
        time_offset_length,
    })
}

/// Read HRD parameters after a presence flag.
fn parse_opt_hrd(reader: &mut BitstreamReader) -> (r: Result<Option<HrdParameters>, Error>)
    ensures
        final(reader).bytes() == old(reader).bytes(),
        match opt_hrd_spec(old(reader).bits(), old(reader).pos()) {
            Ok((v, q)) => r matches Ok(x) && opt_hrd_view(x) == v && final(reader).pos() == q,
            Err(e) => r matches Err(x) && x == e,
        },
{
    if read_flag(reader)? {
        Ok(Some(parse_hrd_params(reader)?))
    } else {
        Ok(None)
    }
}

/// Read the aspect ratio after its presence flag.
fn parse_aspect_ratio(reader: &mut BitstreamReader) -> (r: Result<Option<AspectRatioInfo>, Error>)
    ensures
        final(reader).bytes() == old(reader).bytes(),
        match aspect_ratio_spec(old(reader).bits(), old(reader).pos()) {
            Ok((v, q)) => r == Ok::<Option<AspectRatioInfo>, Error>(v) && final(reader).pos() == q,
            Err(e) => r == Err::<Option<AspectRatioInfo>, Error>(e),
        },
{
    if !read_flag(reader)? {
        return Ok(None);
    }
    let idc = read_u8(reader, 8)?;
    if idc == 255 {
        let w = read_u(reader, 16)?;
        let h = read_u(reader, 16)?;
        Ok(Some(AspectRatioInfo { aspect_ratio_idc: idc, sar_width: Some(w as u16), sar_height: Some(h as u16) }))
    } else {
        Ok(Some(AspectRatioInfo { aspect_ratio_idc: idc, sar_width: None, sar_height: None }))
    }
}

/// Read a flag after a presence flag.
fn parse_overscan(reader: &mut BitstreamReader) -> (r: Result<Option<bool>, Error>)
    ensures
        final(reader).bytes() == old(reader).bytes(),
        match overscan_spec(old(reader).bits(), old(reader).pos()) {
            Ok((v, q)) => r == Ok::<Option<bool>, Error>(v) && final(reader).pos() == q,
            Err(e) => r == Err::<Option<bool>, Error>(e),
        },
{
    if read_flag(reader)? {
        Ok(Some(read_flag(reader)?))
    } else {
        Ok(None)
    }
}

/// Read the video signal type after its presence flag.
fn parse_video_signal(reader: &mut BitstreamReader) -> (r: Result<Option<VideoSignalType>, Error>)
    ensures
        final(reader).bytes() == old(reader).bytes(),
        match video_signal_spec(old(reader).bits(), old(reader).pos()) {
            Ok((v, q)) => r == Ok::<Option<VideoSignalType>, Error>(v) && final(reader).pos() == q,
            Err(e) => r == Err::<Option<VideoSignalType>, Error>(e),
        },
{
    if !read_flag(reader)? {
        return Ok(None);
    }
    let video_format = read_u8(reader, 3)?;
    let video_full_range_flag = read_flag(reader)?;
    let colour_description = if read_flag(reader)? {
        let colour_primaries = read_u8(reader, 8)?;
        let transfer_characteristics = read_u8(reader, 8)?;
        let matrix_coefficients = read_u8(reader, 8)?;
        Some(ColourDescription { colour_primaries, transfer_characteristics, matrix_coefficients })
    } else {
        None
    };
    Ok(Some(VideoSignalType { video_format, video_full_range_flag, colour_description }))
}

/// Read the chroma sample location after its presence flag.
fn parse_chroma_loc(reader: &mut BitstreamReader) -> (r: Result<Option<ChromaLocInfo>, Error>)
    ensures
        final(reader).bytes() == old(reader).bytes(),
        match chroma_loc_spec(old(reader).bits(), old(reader).pos()) {
            Ok((v, q)) => r == Ok::<Option<ChromaLocInfo>, Error>(v) && final(reader).pos() == q,
            Err(e) => r == Err::<Option<ChromaLocInfo>, Error>(e),
        },
{
    if !read_flag(reader)? {
        return Ok(None);
    }
    let top = read_ue(reader)?;
    let bottom = read_ue(reader)?;
    Ok(Some(ChromaLocInfo { chroma_sample_loc_type_top_field: top, chroma_sample_loc_type_bottom_field: bottom }))
}

/// Read the timing information after its presence flag.
fn parse_timing(reader: &mut BitstreamReader) -> (r: Result<Option<TimingInfo>, Error>)
    ensures
        final(reader).bytes() == old(reader).bytes(),
        match timing_spec(old(reader).bits(), old(reader).pos()) {
            Ok((v, q)) => r == Ok::<Option<TimingInfo>, Error>(v) && final(reader).pos() == q,
            Err(e) => r == Err::<Option<TimingInfo>, Error>(e),
        },
{
    if !read_flag(reader)? {
        return Ok(None);
    }
    let num_units_in_tick = read_u(reader, 32)?;
    let time_scale = read_u(reader, 32)?;
    let fixed_frame_rate_flag = read_flag(reader)?;
    Ok(Some(TimingInfo { num_units_in_tick, time_scale, fixed_frame_rate_flag }))
}

/// Read the HRD part of the VUI.
fn parse_vui_hrd(reader: &mut BitstreamReader) -> (r: Result<Option<VuiHrd>, Error>)
    ensures
        final(reader).bytes() == old(reader).bytes(),
        match vui_hrd_spec(old(reader).bits(), old(reader).pos()) {
            Ok((v, q)) => r matches Ok(x) && opt_vui_hrd_view(x) == v && final(reader).pos() == q,
            Err(e) => r matches Err(x) && x == e,
        },
{
    let nal_hrd_parameters = parse_opt_hrd(reader)?;
    let vcl_hrd_parameters = parse_opt_hrd(reader)?;
    if nal_hrd_parameters.is_some() || vcl_hrd_parameters.is_some() {
        let low_delay_hrd_flag = read_flag(reader)?;
        Ok(Some(VuiHrd { nal_hrd_parameters, vcl_hrd_parameters, low_delay_hrd_flag }))
    } else {
        Ok(None)
    }
}

/// Read the bitstream restriction after its presence flag.
fn parse_restriction(reader: &mut BitstreamReader) -> (r: Result<Option<BitstreamRestriction>, Error>)
    ensures
        final(reader).bytes() == old(reader).bytes(),
        match restriction_spec(old(reader).bits(), old(reader).pos()) {
            Ok((v, q)) => r == Ok::<Option<BitstreamRestriction>, Error>(v) && final(reader).pos() == q,
            Err(e) => r == Err::<Option<BitstreamRestriction>, Error>(e),
        },
{
    if !read_flag(reader)? {
        return Ok(None);
    }
    let motion_vectors_over_pic_boundaries_flag = read_flag(reader)?;
    let max_bytes_per_pic_denom = read_ue(reader)?;
    let max_bits_per_mb_denom = read_ue(reader)?;
    let log2_max_mv_length_horizontal = read_ue(reader)?;
    let log2_max_mv_length_vertical = read_ue(reader)?;
    let max_num_reorder_frames = read_ue(reader)?;
    let max_dec_frame_buffering = read_ue(reader)?;
    Ok(Some(BitstreamRestriction {
        motion_vectors_over_pic_boundaries_flag,
        max_bytes_per_pic_denom,
        max_bits_per_mb_denom,
        log2_max_mv_length_horizontal,
        log2_max_mv_length_vertical,
        max_num_reorder_frames,
        max_dec_frame_buffering,
    }))
}

/// Read the VUI parameters.
fn parse_vui(reader: &mut BitstreamReader) -> (r: Result<VuiParameters, Error>)
    ensures
        final(reader).bytes() == old(reader).bytes(),
        match vui_spec(old(reader).bits(), old(reader).pos()) {
            Ok((v, q)) => r matches Ok(x) && x@ == v && final(reader).pos() == q,
            Err(e) => r matches Err(x) && x == e,
        },
{
    let aspect_ratio_info = parse_aspect_ratio(reader)?;
    let overscan_appropriate_flag = parse_overscan(reader)?;
    let video_signal_type = parse_video_signal(reader)?;
    let chroma_loc_info = parse_chroma_loc(reader)?;
    let timing_info = parse_timing(reader)?;
    let hrd = parse_vui_hrd(reader)?;
    let pic_struct_present_flag = read_flag(reader)?;
    let bitstream_restriction = parse_restriction(reader)?;
    Ok(VuiParameters {
        aspect_ratio_info,
        overscan_appropriate_flag,
        video_signal_type,
        chroma_loc_info,
        timing_info,
        hrd,
        pic_struct_present_flag,
        bitstream_restriction,
    })
}

/// Read the frame cropping offsets after their presence flag.
fn parse_cropping(reader: &mut BitstreamReader) -> (r: Result<Option<FrameCropping>, Error>)
    ensures
        final(reader).bytes() == old(reader).bytes(),
        match cropping_spec(old(reader).bits(), old(reader).pos()) {
            Ok((v, q)) => r == Ok::<Option<FrameCropping>, Error>(v) && final(reader).pos() == q,
            Err(e) => r == Err::<Option<FrameCropping>, Error>(e),
        },
{
    if !read_flag(reader)? {
        return Ok(None);
    }
    let left_offset = read_ue(reader)?;
    let right_offset = read_ue(reader)?;
    let top_offset = read_ue(reader)?;
    let bottom_offset = read_ue(reader)?;
    Ok(Some(FrameCropping { left_offset, right_offset, top_offset, bottom_offset }))
}

/// Read the part of an SPS before the picture order count.
fn parse_head(reader: &mut BitstreamReader) -> (r: Result<(u8, u8, u8, u8, Option<HighProfileData>, u8), Error>)
    requires
        old(reader).pos() == 0,
    ensures
        final(reader).bytes() == old(reader).bytes(),
        match sps_head_spec(old(reader).bits()) {
            Ok(m) => r matches Ok(x) && x.0 == m.0 && x.1 == m.1 && x.2 == m.2 && x.3 == m.3
                && opt_high_view(x.4) == m.4 && x.5 == m.5 && final(reader).pos() == m.6,
            Err(e) => r matches Err(x) && x == e,
        },
{
    let profile_idc = read_u8(reader, 8)?;
    let constraint_flags = read_u8(reader, 6)?;
    let reserved_zero_2bits = read_u(reader, 2)?;
    if reserved_zero_2bits != 0 {
        return Err(Error::InvalidReservedData(reserved_zero_2bits));
    }
    let level_idc = read_u8(reader, 8)?;
    let seq_parameter_set_id = read_ue8(reader)?;
    let high_profile = if is_high(profile_idc) { Some(parse_high_profile(reader)?) } else { None };
    let log2_max_frame_num_minus4 = read_ue8(reader)?;
    Ok((profile_idc, constraint_flags, level_idc, seq_parameter_set_id, high_profile, log2_max_frame_num_minus4))
}

/// Read the frame fields after the picture order count.
fn parse_frame(reader: &mut BitstreamReader) -> (r: Result<(u8, bool, u32, u32, bool, Option<bool>, bool), Error>)
    ensures
        final(reader).bytes() == old(reader).bytes(),
        match sps_frame_spec(old(reader).bits(), old(reader).pos()) {
            Ok(m) => r == Ok::<(u8, bool, u32, u32, bool, Option<bool>, bool), Error>((m.0, m.1, m.2, m.3, m.4, m.5, m.6))
                && final(reader).pos() == m.7,
            Err(e) => r == Err::<(u8, bool, u32, u32, bool, Option<bool>, bool), Error>(e),
        },
{
    let max_num_ref_frames = read_ue8(reader)?;
    let gaps = read_flag(reader)?;
    let w = read_ue(reader)?;
    let h = read_ue(reader)?;
    let frame_mbs_only_flag = read_flag(reader)?;
    let mbaff = if !frame_mbs_only_flag { Some(read_flag(reader)?) } else { None };
    let direct_8x8_inference_flag = read_flag(reader)?;
    Ok((max_num_ref_frames, gaps, w, h, frame_mbs_only_flag, mbaff, direct_8x8_inference_flag))
}

impl Sps {
    /// Parse an SPS RBSP.
    pub fn parse(data: &[u8]) -> (r: Result<Self, Error>)
        requires
            data@.len() * 8 <= usize::MAX,
        ensures
            match sps_parse_spec(bytes_bits(data@)) {
                Ok(v) => r matches Ok(x) && x@ == v,
                Err(e) => r matches Err(x) && x == e,
            },
    {
        let mut reader = BitstreamReader::new(data);
        let (profile_idc, constraint_flags, level_idc, seq_parameter_set_id, high_profile, log2_max_frame_num_minus4) =
            parse_head(&mut reader)?;
        let pic_order_cnt_type = read_ue(&mut reader)?;
        let pic_order_cnt = parse_pic_order_cnt(&mut reader, pic_order_cnt_type)?;
        let (max_num_ref_frames, gaps_in_frame_num_value_allowed_flag, pic_width_in_mbs_minus1,
            pic_height_in_map_units_minus1, frame_mbs_only_flag, mb_adaptive_frame_field_flag,
            direct_8x8_inference_flag) = parse_frame(&mut reader)?;
        let frame_cropping = parse_cropping(&mut reader)?;
        let vui_parameters_present_flag = read_flag(&mut reader)?;
        let vui = if vui_parameters_present_flag { Some(parse_vui(&mut reader)?) } else { None };
        Ok(Sps {
            profile_idc,
            constraint_flags,
            level_idc,
            seq_parameter_set_id,
            high_profile,
            log2_max_frame_num_minus4,
            pic_order_cnt,
            max_num_ref_frames,
            gaps_in_frame_num_value_allowed_flag,
            pic_width_in_mbs_minus1,
            pic_height_in_map_units_minus1,
            frame_mbs_only_flag,
            mb_adaptive_frame_field_flag,
            direct_8x8_inference_flag,
            frame_cropping,
            vui,
        })
    }

    /// Picture width in pixels.
    pub fn width(&self) -> (r: u32)
        requires
            (self.pic_width_in_mbs_minus1 + 1) * 16 <= u32::MAX,
        ensures
            r == (self.pic_width_in_mbs_minus1 + 1) * 16,
    {
        (self.pic_width_in_mbs_minus1 + 1) * 16
    }

    /// Picture height in pixels (of the frame's map units).
    pub fn height(&self) -> (r: u32)
        requires
            (self.pic_height_in_map_units_minus1 + 1) * 16 <= u32::MAX,
        ensures
            r == (self.pic_height_in_map_units_minus1 + 1) * 16,
    {
        (self.pic_height_in_map_units_minus1 + 1) * 16
    }
}


// ---------------------------------------------------------------------
// Serializing, specified by the syntax bits written.
// ---------------------------------------------------------------------

/// The bits of a one-element flag.
pub open spec fn flag_bits(b: bool) -> Seq<bool> {
    seq![b]
}

/// The bits of an optional flag: nothing when absent.
pub open spec fn opt_flag_bits(f: Option<bool>) -> Seq<bool> {
    match f {
        Some(b) => seq![b],
        None => Seq::empty(),
    }
}

/// The delta code of a scale after `last`: `(scale - last) mod 256`, taken
/// in `-127..=128`.
pub open spec fn scale_delta(scale: u8, last: int) -> int {
    let d = (scale - last + 256) % 256;
    if d > 128 { d - 256 } else { d }
}

/// The bits of a scaling list written after the scale `last`: one
/// `se(v)` delta per entry.
pub open spec fn scaling_list_bits(l: Seq<u8>, last: int) -> Seq<bool>
    decreases l.len(),
{
    if l.len() == 0 {
        Seq::empty()
    } else {
        se_bits(scale_delta(l[0], last) as i32) + scaling_list_bits(l.drop_first(), l[0] as int)
    }
}

/// The bits of one list of a scaling matrix: a flag set when the list is
/// not all 16, then the list.
pub open spec fn matrix_entry_bits(l: Seq<u8>, n: nat) -> Seq<bool> {
    if l == default_list(n) {
        seq![false]
    } else {
        seq![true] + scaling_list_bits(l, 8)
    }
}

/// The bits of lists `i..num` of a scaling matrix; a missing set of lists
/// writes clear flags.
pub open spec fn matrix_bits_from(l4: Option<Seq<Seq<u8>>>, l8: Option<Seq<Seq<u8>>>, i: nat, num: nat) -> Seq<bool>
    decreases num - i,
{
    if i >= num {
        Seq::empty()
    } else {
        let entry = if i < 6 {
            match l4 {
                Some(ls) => matrix_entry_bits(ls[i as int], 16),
                None => seq![false],
            }
        } else {
            match l8 {
                Some(ls) => matrix_entry_bits(ls[i - 6], 64),
                None => seq![false],
            }
        };
        entry + matrix_bits_from(l4, l8, i + 1, num)
    }
}

/// The bits of the high-profile fields.
pub open spec fn high_profile_bits(h: HighProfileView) -> Seq<bool> {
    ue_bits(h.chroma_format_idc as u32) + opt_flag_bits(h.separate_colour_plane_flag)
        + ue_bits(h.bit_depth_luma_minus8 as u32) + ue_bits(h.bit_depth_chroma_minus8 as u32)
        + flag_bits(h.qpprime_y_zero_transform_bypass_flag) + flag_bits(h.seq_scaling_matrix_present_flag)
        + if h.seq_scaling_matrix_present_flag {
            matrix_bits_from(h.scaling_lists_4x4, h.scaling_lists_8x8, 0, if h.chroma_format_idc != 3 { 8 } else { 12 })
        } else {
            Seq::empty()
        }
}

/// The bits of `se(v)` values.
pub open spec fn se_list_bits(l: Seq<i32>) -> Seq<bool>
    decreases l.len(),
{
    if l.len() == 0 {
        Seq::empty()
    } else {
        se_list_bits(l.drop_last()) + se_bits(l.last())
    }
}

/// The bits of the picture order count type and fields.
pub open spec fn pic_order_cnt_bits(p: PicOrderCntView) -> Seq<bool> {
    match p {
        PicOrderCntView::Type0 { log2_max_pic_order_cnt_lsb_minus4 } => ue_bits(0) + ue_bits(log2_max_pic_order_cnt_lsb_minus4 as u32),
        PicOrderCntView::Type1 {
            delta_pic_order_always_zero_flag,
            offset_for_non_ref_pic,
            offset_for_top_to_bottom_field,
            num_ref_frames_in_pic_order_cnt_cycle,
            offset_for_ref_frame,
        } => ue_bits(1) + flag_bits(delta_pic_order_always_zero_flag) + se_bits(offset_for_non_ref_pic)
            + se_bits(offset_for_top_to_bottom_field) + ue_bits(num_ref_frames_in_pic_order_cnt_cycle as u32)
            + se_list_bits(offset_for_ref_frame),
        PicOrderCntView::Type2 => ue_bits(2),
    }
}

/// The bits of HRD entries `0..n`.
pub open spec fn hrd_entries_bits(h: HrdView, n: nat) -> Seq<bool>
    decreases n,
{
    if n == 0 {
        Seq::empty()
    } else {
        let i = n - 1;
        hrd_entries_bits(h, i as nat) + ue_bits(h.bit_rate_value_minus1[i]) + ue_bits(h.cpb_size_value_minus1[i])
            + flag_bits(h.cbr_flag[i])
    }
}

/// The bits of HRD parameters (entries `0..=cpb_cnt_minus1`).
pub open spec fn hrd_bits(h: HrdView) -> Seq<bool> {
    ue_bits(h.cpb_cnt_minus1) + u32_bits(h.bit_rate_scale as u32, 4) + u32_bits(h.cpb_size_scale as u32, 4)
        + hrd_entries_bits(h, h.cpb_cnt_minus1 as nat + 1)
        + u32_bits(h.initial_cpb_removal_delay_length_minus1 as u32, 5) + u32_bits(h.cpb_removal_delay_length_minus1 as u32, 5)
        + u32_bits(h.dpb_output_delay_length_minus1 as u32, 5) + u32_bits(h.time_offset_length as u32, 5)
}

/// The bits of optional HRD parameters after a presence flag.
pub open spec fn opt_hrd_bits(h: Option<HrdView>) -> Seq<bool> {
    match h {
        Some(x) => seq![true] + hrd_bits(x),
        None => seq![false],
    }
}

/// The bits of the aspect ratio part of the VUI.
pub open spec fn aspect_ratio_bits(a: Option<AspectRatioInfo>) -> Seq<bool> {
    match a {
        Some(ari) => seq![true] + u32_bits(ari.aspect_ratio_idc as u32, 8) + match (ari.sar_width, ari.sar_height) {
            (Some(w), Some(h)) => if ari.aspect_ratio_idc == 255 {
                u32_bits(w as u32, 16) + u32_bits(h as u32, 16)
            } else {
                Seq::empty()
            },
            _ => Seq::empty(),
        },
        None => seq![false],
    }
}

/// The bits of an optional flag after a presence flag.
pub open spec fn present_flag_bits(f: Option<bool>) -> Seq<bool> {
    match f {
        Some(b) => seq![true, b],
        None => seq![false],
    }
}

/// The bits of the video signal type part of the VUI.
pub open spec fn video_signal_bits(v: Option<VideoSignalType>) -> Seq<bool> {
    match v {
        Some(vst) => seq![true] + u32_bits(vst.video_format as u32, 3) + flag_bits(vst.video_full_range_flag)
            + match vst.colour_description {
                Some(cd) => seq![true] + u32_bits(cd.colour_primaries as u32, 8)
                    + u32_bits(cd.transfer_characteristics as u32, 8) + u32_bits(cd.matrix_coefficients as u32, 8),
                None => seq![false],
            },
        None => seq![false],
    }
}

/// The bits of the chroma location part of the VUI.
pub open spec fn chroma_loc_bits(c: Option<ChromaLocInfo>) -> Seq<bool> {
    match c {
        Some(cli) => seq![true] + ue_bits(cli.chroma_sample_loc_type_top_field) + ue_bits(cli.chroma_sample_loc_type_bottom_field),
        None => seq![false],
    }
}

/// The bits of the timing part of the VUI.
pub open spec fn timing_bits(t: Option<TimingInfo>) -> Seq<bool> {
    match t {
        Some(ti) => seq![true] + u32_bits(ti.num_units_in_tick, 32) + u32_bits(ti.time_scale, 32) + flag_bits(ti.fixed_frame_rate_flag),
        None => seq![false],
    }
}

/// The bits of the HRD part of the VUI: absent HRD writes two clear flags.
pub open spec fn vui_hrd_bits(h: Option<VuiHrdView>) -> Seq<bool> {
    match h {
        Some(x) => opt_hrd_bits(x.nal_hrd_parameters) + opt_hrd_bits(x.vcl_hrd_parameters) + flag_bits(x.low_delay_hrd_flag),
        None => seq![false, false],
    }
}

/// The bits of the bitstream restriction part of the VUI.
pub open spec fn restriction_bits(b: Option<BitstreamRestriction>) -> Seq<bool> {
    match b {
        Some(r) => seq![true] + flag_bits(r.motion_vectors_over_pic_boundaries_flag) + ue_bits(r.max_bytes_per_pic_denom)
            + ue_bits(r.max_bits_per_mb_denom) + ue_bits(r.log2_max_mv_length_horizontal)
            + ue_bits(r.log2_max_mv_length_vertical) + ue_bits(r.max_num_reorder_frames) + ue_bits(r.max_dec_frame_buffering),
        None => seq![false],
    }
}

/// The bits of the VUI parameters.
pub open spec fn vui_bits(v: VuiView) -> Seq<bool> {
    aspect_ratio_bits(v.aspect_ratio_info) + present_flag_bits(v.overscan_appropriate_flag)
        + video_signal_bits(v.video_signal_type) + chroma_loc_bits(v.chroma_loc_info) + timing_bits(v.timing_info)
        + vui_hrd_bits(v.hrd) + flag_bits(v.pic_struct_present_flag) + restriction_bits(v.bitstream_restriction)
}

/// The bits of the frame cropping part.
pub open spec fn cropping_bits(c: Option<FrameCropping>) -> Seq<bool> {
    match c {
        Some(f) => seq![true] + ue_bits(f.left_offset) + ue_bits(f.right_offset) + ue_bits(f.top_offset) + ue_bits(f.bottom_offset),
        None => seq![false],
    }
}

/// The bits of the fields before the picture order count.
pub open spec fn sps_head_bits(v: SpsView) -> Seq<bool> {
    u32_bits(v.profile_idc as u32, 8) + u32_bits(v.constraint_flags as u32, 6) + u32_bits(0, 2)
        + u32_bits(v.level_idc as u32, 8) + ue_bits(v.seq_parameter_set_id as u32)
        + opt_high_bits(v.high_profile) + ue_bits(v.log2_max_frame_num_minus4 as u32)
}

/// The bits of optional high-profile fields.
pub open spec fn opt_high_bits(h: Option<HighProfileView>) -> Seq<bool> {
    match h {
        Some(x) => high_profile_bits(x),
        None => Seq::empty(),
    }
}

/// The bits of the frame fields after the picture order count.
pub open spec fn sps_frame_bits(v: SpsView) -> Seq<bool> {
    ue_bits(v.max_num_ref_frames as u32) + flag_bits(v.gaps_in_frame_num_value_allowed_flag)
        + ue_bits(v.pic_width_in_mbs_minus1) + ue_bits(v.pic_height_in_map_units_minus1)
        + flag_bits(v.frame_mbs_only_flag) + opt_flag_bits(v.mb_adaptive_frame_field_flag)
        + flag_bits(v.direct_8x8_inference_flag)
}

/// The bits of optional VUI parameters after their presence flag.
pub open spec fn opt_vui_bits(v: Option<VuiView>) -> Seq<bool> {
    match v {
        Some(x) => seq![true] + vui_bits(x),
        None => seq![false],
    }
}

/// The syntax bits of an SPS (without the trailing bits).
pub open spec fn sps_bits(v: SpsView) -> Seq<bool> {
    sps_head_bits(v) + pic_order_cnt_bits(v.pic_order_cnt) + sps_frame_bits(v) + cropping_bits(v.frame_cropping)
        + opt_vui_bits(v.vui)
}

/// What serializing HRD parameters needs: an entry for each of the
/// `cpb_cnt_minus1 + 1` entries, and `ue(v)` values below `u32::MAX`.
pub open spec fn hrd_writable(h: HrdView) -> bool {
    &&& h.cpb_cnt_minus1 < u32::MAX
    &&& h.bit_rate_value_minus1.len() > h.cpb_cnt_minus1
    &&& h.cpb_size_value_minus1.len() > h.cpb_cnt_minus1
    &&& h.cbr_flag.len() > h.cpb_cnt_minus1
    &&& forall|i: int| 0 <= i <= h.cpb_cnt_minus1 ==> #[trigger] h.bit_rate_value_minus1[i] < u32::MAX
    &&& forall|i: int| 0 <= i <= h.cpb_cnt_minus1 ==> #[trigger] h.cpb_size_value_minus1[i] < u32::MAX
}

/// What serializing an SPS needs: every `ue(v)` value below `u32::MAX`,
/// every `se(v)` value above `i32::MIN`, and HRD entries for each count.
pub open spec fn sps_writable(v: SpsView) -> bool {
    &&& v.pic_width_in_mbs_minus1 < u32::MAX
    &&& v.pic_height_in_map_units_minus1 < u32::MAX
    &&& (v.pic_order_cnt matches PicOrderCntView::Type1 { offset_for_non_ref_pic, offset_for_top_to_bottom_field, offset_for_ref_frame, .. }
        ==> offset_for_non_ref_pic > i32::MIN && offset_for_top_to_bottom_field > i32::MIN
            && forall|i: int| 0 <= i < offset_for_ref_frame.len() ==> #[trigger] offset_for_ref_frame[i] > i32::MIN)
    &&& (v.frame_cropping matches Some(c) ==> c.left_offset < u32::MAX && c.right_offset < u32::MAX
        && c.top_offset < u32::MAX && c.bottom_offset < u32::MAX)
    &&& (v.vui matches Some(x) ==> vui_writable(x))
}

/// What serializing VUI parameters needs.
pub open spec fn vui_writable(x: VuiView) -> bool {
    &&& (x.chroma_loc_info matches Some(c) ==> c.chroma_sample_loc_type_top_field < u32::MAX
        && c.chroma_sample_loc_type_bottom_field < u32::MAX)
    &&& (x.hrd matches Some(h) ==> (h.nal_hrd_parameters matches Some(n) ==> hrd_writable(n))
        && (h.vcl_hrd_parameters matches Some(c) ==> hrd_writable(c)))
    &&& (x.bitstream_restriction matches Some(r) ==> r.max_bytes_per_pic_denom < u32::MAX
        && r.max_bits_per_mb_denom < u32::MAX && r.log2_max_mv_length_horizontal < u32::MAX
        && r.log2_max_mv_length_vertical < u32::MAX && r.max_num_reorder_frames < u32::MAX
        && r.max_dec_frame_buffering < u32::MAX)
}

/// Whether all entries of a list are 16.
fn is_default_list(l: &[u8]) -> (r: bool)
    ensures
        r == (l@ == default_list(l@.len())),
{
    let mut i: usize = 0;
    while i < l.len()
        invariant
            i <= l@.len(),
            forall|j: int| 0 <= j < i ==> l@[j] == 16u8,
        decreases l@.len() - i,
    {
        if l[i] != 16 {
            assert(l@[i as int] != default_list(l@.len())[i as int]);
            return false;
        }
        i = i + 1;
    }
    assert(l@ =~= default_list(l@.len()));
    true
}

/// Write a flag.
fn write_flag(writer: &mut BitstreamWriter, b: bool)
    ensures
        final(writer).bits() == old(writer).bits() + seq![b],
{
    writer.write_bool(b);
    assert(old(writer).bits().push(b) =~= old(writer).bits() + seq![b]);
}

impl Sps {
    /// Write a scaling list: one `se(v)` delta per entry, starting after 8.
    pub fn write_scaling_list(writer: &mut BitstreamWriter, list: &[u8])
        ensures
            final(writer).bits() == old(writer).bits() + scaling_list_bits(list@, 8),
    {
        let mut last: i32 = 8;
        let mut i: usize = 0;
        assert(list@.subrange(0, list@.len() as int) =~= list@);
        while i < list.len()
            invariant
                i <= list@.len(),
                0 <= last < 256,
                writer.bits() + scaling_list_bits(list@.subrange(i as int, list@.len() as int), last as int)
                    == old(writer).bits() + scaling_list_bits(list@, 8),
            decreases list@.len() - i,
        {
            let scale = list[i];
            let d = (scale as i32 - last + 256) % 256;
            let delta = if d > 128 { d - 256 } else { d };
            let ghost before = writer.bits();
            writer.write_se(delta);
            proof {
                let rest = list@.subrange(i as int, list@.len() as int);
                assert(rest[0] == scale);
                assert(rest.drop_first() =~= list@.subrange(i + 1, list@.len() as int));
                assert(delta as int == scale_delta(scale, last as int));
                assert(before + scaling_list_bits(rest, last as int) =~= writer.bits()
                    + scaling_list_bits(rest.drop_first(), scale as int));
            }
            last = scale as i32;
            i = i + 1;
        }
        assert(list@.subrange(list@.len() as int, list@.len() as int) =~= Seq::<u8>::empty());
        assert(writer.bits() + Seq::<bool>::empty() =~= writer.bits());
    }
}

/// A written scale delta reads back as the scale it was written for.
proof fn lemma_scale_delta(scale: u8, last: int)
    requires
        0 <= last < 256,
    ensures
        -127 <= scale_delta(scale, last) <= 128,
        rem_trunc(last + scale_delta(scale, last) + 256, 256) == scale as int,
{
    let d = (scale - last + 256) % 256;
    assert(0 <= d < 256);
    assert(last + d + 256 >= 0);
    if d > 128 {
        assert((last + (d - 256) + 256) % 256 == scale as int) by {
            assert(last + (d - 256) + 256 == last + d);
            assert((scale - last + 256) == d + 256 * ((scale - last + 256) / 256));
        }
    } else {
        assert((last + d + 256) % 256 == scale as int) by {
            assert((scale - last + 256) == d + 256 * ((scale - last + 256) / 256));
        }
    }
}

/// Entries `i..n` of a scaling list read back from their written bits,
/// where no entry is 0 (a next scale of 0 would end the deltas).
proof fn lemma_scaling_list_from_written(s: Seq<bool>, p: nat, l: Seq<u8>, i: nat, n: nat, last: int, next: int)
    requires
        0 <= last < 256,
        next != 0,
        l.len() + i == n,
        forall|k: int| 0 <= k < l.len() ==> #[trigger] l[k] != 0,
        p + scaling_list_bits(l, last).len() <= s.len(),
        s.subrange(p as int, (p + scaling_list_bits(l, last).len()) as int) == scaling_list_bits(l, last),
    ensures
        scaling_list_from(s, p, i, n, last, next) == Ok::<(Seq<u8>, nat), Error>((l, p + scaling_list_bits(l, last).len())),
    decreases n - i,
{
    if l.len() == 0 {
        assert(l =~= Seq::<u8>::empty());
    } else {
        let delta = scale_delta(l[0], last);
        lemma_scale_delta(l[0], last);
        let b0 = se_bits(delta as i32);
        let rest = scaling_list_bits(l.drop_first(), l[0] as int);
        let all = scaling_list_bits(l, last);
        assert(all == b0 + rest);
        let q = p + b0.len();
        assert(s.subrange(p as int, q as int) =~= all.subrange(0, b0.len() as int));
        assert(all.subrange(0, b0.len() as int) =~= b0);
        crate::bitstream::lemma_read_se_written(s, p, delta as i32);
        assert(s.subrange(q as int, (q + rest.len()) as int) =~= all.subrange(b0.len() as int, all.len() as int));
        assert(all.subrange(b0.len() as int, all.len() as int) =~= rest);
        assert forall|k: int| 0 <= k < l.drop_first().len() implies #[trigger] l.drop_first()[k] != 0 by {
            assert(l.drop_first()[k] == l[k + 1]);
        }
        lemma_scaling_list_from_written(s, q, l.drop_first(), i + 1, n, l[0] as int, l[0] as int);
        assert(seq![l[0]] + l.drop_first() =~= l);
    }
}

/// A scaling list with no entry 0, written, reads back as itself.
pub proof fn lemma_scaling_list_roundtrip(s: Seq<bool>, p: nat, l: Seq<u8>)
    requires
        forall|k: int| 0 <= k < l.len() ==> #[trigger] l[k] != 0,
        p + scaling_list_bits(l, 8).len() <= s.len(),
        s.subrange(p as int, (p + scaling_list_bits(l, 8).len()) as int) == scaling_list_bits(l, 8),
    ensures
        scaling_list_spec(s, p, l.len()) == Ok::<(Seq<u8>, nat), Error>((l, p + scaling_list_bits(l, 8).len())),
{
    lemma_scaling_list_from_written(s, p, l, 0, l.len(), 8, 8);
}

/// Write one list of a scaling matrix.
fn write_matrix_entry(writer: &mut BitstreamWriter, l: &[u8])
    ensures
        final(writer).bits() == old(writer).bits() + matrix_entry_bits(l@, l@.len()),
{
    let is_default = is_default_list(l);
    write_flag(writer, !is_default);
    if !is_default {
        Sps::write_scaling_list(writer, l);
        assert(writer.bits() =~= old(writer).bits() + matrix_entry_bits(l@, l@.len()));
    }
}

/// Write the scaling matrix lists `0..num`.
fn write_scaling_matrix(writer: &mut BitstreamWriter, l4: &Option<[[u8; 16]; 6]>, l8: &Option<[[u8; 64]; 6]>, num: usize)
    requires
        num <= 12,
    ensures
        final(writer).bits() == old(writer).bits() + matrix_bits_from(
            match *l4 { Some(a) => Some(lists16_view(a)), None => None },
            match *l8 { Some(a) => Some(lists64_view(a)), None => None },
            0, num as nat),
{
    let ghost v4 = match *l4 { Some(a) => Some(lists16_view(a)), None => None };
    let ghost v8 = match *l8 { Some(a) => Some(lists64_view(a)), None => None };
    let mut i: usize = 0;
    assert(old(writer).bits() + matrix_bits_from(v4, v8, 0, num as nat) =~= old(writer).bits() + matrix_bits_from(v4, v8, 0, num as nat));
    while i < num
        invariant
            i <= num <= 12,
            v4 == match *l4 { Some(a) => Some(lists16_view(a)), None => None },
            v8 == match *l8 { Some(a) => Some(lists64_view(a)), None => None },
            writer.bits() + matrix_bits_from(v4, v8, i as nat, num as nat) == old(writer).bits() + matrix_bits_from(v4, v8, 0, num as nat),
        decreases num - i,
    {
        let ghost before = writer.bits();
        if i < 6 {
            match l4 {
                Some(lists) => {
                    write_matrix_entry(writer, lists[i].as_slice());
                    assert(lists16_view(*lists)[i as int] == lists[i as int]@);
                },
                None => {
                    write_flag(writer, false);
                },
            }
        } else {
            match l8 {
                Some(lists) => {
                    write_matrix_entry(writer, lists[i - 6].as_slice());
                    assert(lists64_view(*lists)[i - 6] == lists[i - 6]@);
                },
                None => {
                    write_flag(writer, false);
                },
            }
        }
        proof {
            let e = if i < 6 {
                match v4 { Some(ls) => matrix_entry_bits(ls[i as int], 16), None => seq![false] }
            } else {
                match v8 { Some(ls) => matrix_entry_bits(ls[i - 6], 64), None => seq![false] }
            };
            assert(writer.bits() == before + e);
            assert(before + (e + matrix_bits_from(v4, v8, (i + 1) as nat, num as nat))
                =~= writer.bits() + matrix_bits_from(v4, v8, (i + 1) as nat, num as nat));
        }
        i = i + 1;
    }
    assert(writer.bits() + Seq::<bool>::empty() =~= writer.bits());
}

/// Write an optional flag (nothing when absent).
fn write_opt_flag(writer: &mut BitstreamWriter, f: Option<bool>)
    ensures
        final(writer).bits() == old(writer).bits() + opt_flag_bits(f),
{
    match f {
        Some(flag) => { write_flag(writer, flag); },
        None => { assert(old(writer).bits() + Seq::<bool>::empty() =~= old(writer).bits()); },
    }
}

/// Write the scaling matrix when present.
fn write_opt_matrix(writer: &mut BitstreamWriter, hp: &HighProfileData)
    ensures
        final(writer).bits() == old(writer).bits() + if hp@.seq_scaling_matrix_present_flag {
            matrix_bits_from(hp@.scaling_lists_4x4, hp@.scaling_lists_8x8, 0, if hp@.chroma_format_idc != 3 { 8 } else { 12 })
        } else {
            Seq::empty()
        },
{
    if hp.seq_scaling_matrix_present_flag {
        let num: usize = if hp.chroma_format_idc != 3 { 8 } else { 12 };
        write_scaling_matrix(writer, &hp.scaling_lists_4x4, &hp.scaling_lists_8x8, num);
    } else {
        assert(old(writer).bits() + Seq::<bool>::empty() =~= old(writer).bits());
    }
}

/// Write the high-profile fields.
#[verifier::rlimit(40)]
fn write_high_profile(writer: &mut BitstreamWriter, hp: &HighProfileData)
    ensures
        final(writer).bits() == old(writer).bits() + high_profile_bits(hp@),
{
    writer.write_ue(hp.chroma_format_idc as u32);
    write_opt_flag(writer, hp.separate_colour_plane_flag);
    writer.write_ue(hp.bit_depth_luma_minus8 as u32);
    writer.write_ue(hp.bit_depth_chroma_minus8 as u32);
    write_flag(writer, hp.qpprime_y_zero_transform_bypass_flag);
    write_flag(writer, hp.seq_scaling_matrix_present_flag);
    write_opt_matrix(writer, hp);
    assert(writer.bits() =~= old(writer).bits() + high_profile_bits(hp@));
}

/// Write `se(v)` values.
fn write_se_list(writer: &mut BitstreamWriter, l: &Vec<i32>)
    requires
        forall|i: int| 0 <= i < l@.len() ==> #[trigger] l@[i] > i32::MIN,
    ensures
        final(writer).bits() == old(writer).bits() + se_list_bits(l@),
{
    let mut i: usize = 0;
    while i < l.len()
        invariant
            i <= l@.len(),
            forall|j: int| 0 <= j < l@.len() ==> #[trigger] l@[j] > i32::MIN,
            writer.bits() == old(writer).bits() + se_list_bits(l@.subrange(0, i as int)),
        decreases l@.len() - i,
    {
        writer.write_se(l[i]);
        proof {
            let t = l@.subrange(0, i + 1);
            assert(t.drop_last() =~= l@.subrange(0, i as int));
            assert(writer.bits() =~= old(writer).bits() + se_list_bits(t));
        }
        i = i + 1;
    }
    assert(l@.subrange(0, l@.len() as int) =~= l@);
}

/// Write the picture order count type and fields.
#[verifier::spinoff_prover]
fn write_pic_order_cnt(writer: &mut BitstreamWriter, poc: &PicOrderCnt)
    requires
        poc@ matches PicOrderCntView::Type1 { offset_for_non_ref_pic, offset_for_top_to_bottom_field, offset_for_ref_frame, .. }
            ==> offset_for_non_ref_pic > i32::MIN && offset_for_top_to_bottom_field > i32::MIN
                && forall|i: int| 0 <= i < offset_for_ref_frame.len() ==> #[trigger] offset_for_ref_frame[i] > i32::MIN,
    ensures
        final(writer).bits() == old(writer).bits() + pic_order_cnt_bits(poc@),
{
    match poc {
        PicOrderCnt::Type0 { log2_max_pic_order_cnt_lsb_minus4 } => {
            writer.write_ue(0);
            writer.write_ue(*log2_max_pic_order_cnt_lsb_minus4 as u32);
        },
        PicOrderCnt::Type1 {
            delta_pic_order_always_zero_flag,
            offset_for_non_ref_pic,
            offset_for_top_to_bottom_field,
            num_ref_frames_in_pic_order_cnt_cycle,
            offset_for_ref_frame,
        } => {
            writer.write_ue(1);
            write_flag(writer, *delta_pic_order_always_zero_flag);
            writer.write_se(*offset_for_non_ref_pic);
            writer.write_se(*offset_for_top_to_bottom_field);
            writer.write_ue(*num_ref_frames_in_pic_order_cnt_cycle as u32);
            assert forall|i: int| 0 <= i < offset_for_ref_frame@.len() implies #[trigger] offset_for_ref_frame@[i] > i32::MIN by {
                assert(poc@ matches PicOrderCntView::Type1 { offset_for_ref_frame: o, .. } && o == offset_for_ref_frame@);
            }
            write_se_list(writer, offset_for_ref_frame);
        },
        PicOrderCnt::Type2 => {
            writer.write_ue(2);
        },
    }
    assert(writer.bits() =~= old(writer).bits() + pic_order_cnt_bits(poc@));
}

/// Write HRD parameters.
fn write_hrd_params(writer: &mut BitstreamWriter, hrd: &HrdParameters)
    requires
        hrd_writable(hrd@),
    ensures
        final(writer).bits() == old(writer).bits() + hrd_bits(hrd@),
{
    writer.write_ue(hrd.cpb_cnt_minus1);
    writer.write_bits(hrd.bit_rate_scale as u32, 4);
    writer.write_bits(hrd.cpb_size_scale as u32, 4);
    let ghost b0 = writer.bits();
    let n: u64 = hrd.cpb_cnt_minus1 as u64 + 1;
    let mut i: u64 = 0;
    assert(b0 + Seq::<bool>::empty() =~= b0);
    while i < n
        invariant
            i <= n,
            n == hrd@.cpb_cnt_minus1 as nat + 1,
            hrd_writable(hrd@),
            writer.bits() == b0 + hrd_entries_bits(hrd@, i as nat),
        decreases n - i,
    {
        let k = i as usize;
        writer.write_ue(hrd.bit_rate_value_minus1[k]);
        writer.write_ue(hrd.cpb_size_value_minus1[k]);
        write_flag(writer, hrd.cbr_flag[k]);
        assert(writer.bits() =~= b0 + hrd_entries_bits(hrd@, (i + 1) as nat));
        i = i + 1;
    }
    writer.write_bits(hrd.initial_cpb_removal_delay_length_minus1 as u32, 5);
    writer.write_bits(hrd.cpb_removal_delay_length_minus1 as u32, 5);
    writer.write_bits(hrd.dpb_output_delay_length_minus1 as u32, 5);
    writer.write_bits(hrd.time_offset_length as u32, 5);
    assert(writer.bits() =~= old(writer).bits() + hrd_bits(hrd@));
}

/// Write optional HRD parameters after a presence flag.
fn write_opt_hrd(writer: &mut BitstreamWriter, h: &Option<HrdParameters>)
    requires
        h matches Some(x) ==> hrd_writable(x@),
    ensures
        final(writer).bits() == old(writer).bits() + opt_hrd_bits(opt_hrd_view(*h)),
{
    match h {
        Some(x) => {
            write_flag(writer, true);
            write_hrd_params(writer, x);
            assert(writer.bits() =~= old(writer).bits() + opt_hrd_bits(opt_hrd_view(*h)));
        },
        None => {
            write_flag(writer, false);
        },
    }
}

/// Write the aspect ratio part of the VUI.
fn write_aspect_ratio(writer: &mut BitstreamWriter, a: &Option<AspectRatioInfo>)
    ensures
        final(writer).bits() == old(writer).bits() + aspect_ratio_bits(*a),
{
    match a {
        Some(ari) => {
            write_flag(writer, true);
            writer.write_bits(ari.aspect_ratio_idc as u32, 8);
            let ghost b1 = writer.bits();
            match (ari.sar_width, ari.sar_height) {
                (Some(w), Some(h)) => {
                    if ari.aspect_ratio_idc == 255 {
                        writer.write_bits(w as u32, 16);
                        writer.write_bits(h as u32, 16);
                    } else {
                        assert(writer.bits() =~= b1 + Seq::<bool>::empty());
                    }
                },
                _ => {
                    assert(writer.bits() =~= b1 + Seq::<bool>::empty());
                },
            }
        },
        None => {
            write_flag(writer, false);
        },
    }
    assert(writer.bits() =~= old(writer).bits() + aspect_ratio_bits(*a));
}

/// Write an optional flag after a presence flag.
fn write_present_flag(writer: &mut BitstreamWriter, f: Option<bool>)
    ensures
        final(writer).bits() == old(writer).bits() + present_flag_bits(f),
{
    match f {
        Some(flag) => {
            write_flag(writer, true);
            write_flag(writer, flag);
        },
        None => {
            write_flag(writer, false);
        },
    }
    assert(writer.bits() =~= old(writer).bits() + present_flag_bits(f));
}

/// Write the video signal type part of the VUI.
fn write_video_signal(writer: &mut BitstreamWriter, v: &Option<VideoSignalType>)
    ensures
        final(writer).bits() == old(writer).bits() + video_signal_bits(*v),
{
    match v {
        Some(vst) => {
            write_flag(writer, true);
            writer.write_bits(vst.video_format as u32, 3);
            write_flag(writer, vst.video_full_range_flag);
            match &vst.colour_description {
                Some(cd) => {
                    write_flag(writer, true);
                    writer.write_bits(cd.colour_primaries as u32, 8);
                    writer.write_bits(cd.transfer_characteristics as u32, 8);
                    writer.write_bits(cd.matrix_coefficients as u32, 8);
                },
                None => {
                    write_flag(writer, false);
                },
            }
        },
        None => {
            write_flag(writer, false);
        },
    }
    assert(writer.bits() =~= old(writer).bits() + video_signal_bits(*v));
}

/// Write the chroma location part of the VUI.
fn write_chroma_loc(writer: &mut BitstreamWriter, c: &Option<ChromaLocInfo>)
    requires
        c matches Some(x) ==> x.chroma_sample_loc_type_top_field < u32::MAX && x.chroma_sample_loc_type_bottom_field < u32::MAX,
    ensures
        final(writer).bits() == old(writer).bits() + chroma_loc_bits(*c),
{
    match c {
        Some(cli) => {
            write_flag(writer, true);
            writer.write_ue(cli.chroma_sample_loc_type_top_field);
            writer.write_ue(cli.chroma_sample_loc_type_bottom_field);
        },
        None => {
            write_flag(writer, false);
        },
    }
    assert(writer.bits() =~= old(writer).bits() + chroma_loc_bits(*c));
}

/// Write the timing part of the VUI.
fn write_timing(writer: &mut BitstreamWriter, t: &Option<TimingInfo>)
    ensures
        final(writer).bits() == old(writer).bits() + timing_bits(*t),
{
    match t {
        Some(ti) => {
            write_flag(writer, true);
            writer.write_bits(ti.num_units_in_tick, 32);
            writer.write_bits(ti.time_scale, 32);
            write_flag(writer, ti.fixed_frame_rate_flag);
        },
        None => {
            write_flag(writer, false);
        },
    }
    assert(writer.bits() =~= old(writer).bits() + timing_bits(*t));
}

/// Write the HRD part of the VUI.
fn write_vui_hrd(writer: &mut BitstreamWriter, h: &Option<VuiHrd>)
    requires
        h matches Some(x) ==> (x@.nal_hrd_parameters matches Some(n) ==> hrd_writable(n))
            && (x@.vcl_hrd_parameters matches Some(c) ==> hrd_writable(c)),
    ensures
        final(writer).bits() == old(writer).bits() + vui_hrd_bits(opt_vui_hrd_view(*h)),
{
    match h {
        Some(hrd) => {
            write_opt_hrd(writer, &hrd.nal_hrd_parameters);
            write_opt_hrd(writer, &hrd.vcl_hrd_parameters);
            write_flag(writer, hrd.low_delay_hrd_flag);
        },
        None => {
            write_flag(writer, false);
            write_flag(writer, false);
        },
    }
    assert(writer.bits() =~= old(writer).bits() + vui_hrd_bits(opt_vui_hrd_view(*h)));
}

/// Write the bitstream restriction part of the VUI.
fn write_restriction(writer: &mut BitstreamWriter, b: &Option<BitstreamRestriction>)
    requires
        b matches Some(r) ==> r.max_bytes_per_pic_denom < u32::MAX && r.max_bits_per_mb_denom < u32::MAX
            && r.log2_max_mv_length_horizontal < u32::MAX && r.log2_max_mv_length_vertical < u32::MAX
            && r.max_num_reorder_frames < u32::MAX && r.max_dec_frame_buffering < u32::MAX,
    ensures
        final(writer).bits() == old(writer).bits() + restriction_bits(*b),
{
    match b {
        Some(bsr) => {
            write_flag(writer, true);
            write_flag(writer, bsr.motion_vectors_over_pic_boundaries_flag);
            writer.write_ue(bsr.max_bytes_per_pic_denom);
            writer.write_ue(bsr.max_bits_per_mb_denom);
            writer.write_ue(bsr.log2_max_mv_length_horizontal);
            writer.write_ue(bsr.log2_max_mv_length_vertical);
            writer.write_ue(bsr.max_num_reorder_frames);
            writer.write_ue(bsr.max_dec_frame_buffering);
        },
        None => {
            write_flag(writer, false);
        },
    }
    assert(writer.bits() =~= old(writer).bits() + restriction_bits(*b));
}

/// Write the VUI parameters.
fn write_vui(writer: &mut BitstreamWriter, vui: &VuiParameters)
    requires
        vui_writable(vui@),
    ensures
        final(writer).bits() == old(writer).bits() + vui_bits(vui@),
{
    let ghost b0 = old(writer).bits();
    let ghost v = vui@;
    write_aspect_ratio(writer, &vui.aspect_ratio_info);
    let ghost p1 = aspect_ratio_bits(v.aspect_ratio_info);
    write_present_flag(writer, vui.overscan_appropriate_flag);
    proof { lemma_add_assoc(b0, p1, present_flag_bits(v.overscan_appropriate_flag)); }
    let ghost p2 = p1 + present_flag_bits(v.overscan_appropriate_flag);
    write_video_signal(writer, &vui.video_signal_type);
    proof { lemma_add_assoc(b0, p2, video_signal_bits(v.video_signal_type)); }
    let ghost p3 = p2 + video_signal_bits(v.video_signal_type);
    write_chroma_loc(writer, &vui.chroma_loc_info);
    proof { lemma_add_assoc(b0, p3, chroma_loc_bits(v.chroma_loc_info)); }
    let ghost p4 = p3 + chroma_loc_bits(v.chroma_loc_info);
    write_timing(writer, &vui.timing_info);
    proof { lemma_add_assoc(b0, p4, timing_bits(v.timing_info)); }
    let ghost p5 = p4 + timing_bits(v.timing_info);
    write_vui_hrd(writer, &vui.hrd);
    proof { lemma_add_assoc(b0, p5, vui_hrd_bits(v.hrd)); }
    let ghost p6 = p5 + vui_hrd_bits(v.hrd);
    write_flag(writer, vui.pic_struct_present_flag);
    proof { lemma_add_assoc(b0, p6, flag_bits(v.pic_struct_present_flag)); }
    let ghost p7 = p6 + flag_bits(v.pic_struct_present_flag);
    write_restriction(writer, &vui.bitstream_restriction);
    proof { lemma_add_assoc(b0, p7, restriction_bits(v.bitstream_restriction)); }
}

/// Write the fields before the picture order count.
fn write_head(writer: &mut BitstreamWriter, sps: &Sps)
    ensures
        final(writer).bits() == old(writer).bits() + sps_head_bits(sps@),
{
    writer.write_bits(sps.profile_idc as u32, 8);
    writer.write_bits(sps.constraint_flags as u32, 6);
    writer.write_bits(0, 2);
    writer.write_bits(sps.level_idc as u32, 8);
    writer.write_ue(sps.seq_parameter_set_id as u32);
    let ghost b1 = writer.bits();
    match &sps.high_profile {
        Some(hp) => { write_high_profile(writer, hp); },
        None => { assert(writer.bits() =~= b1 + Seq::<bool>::empty()); },
    }
    writer.write_ue(sps.log2_max_frame_num_minus4 as u32);
    assert(writer.bits() =~= old(writer).bits() + sps_head_bits(sps@));
}

/// Write the frame fields after the picture order count.
fn write_frame(writer: &mut BitstreamWriter, sps: &Sps)
    requires
        sps.pic_width_in_mbs_minus1 < u32::MAX,
        sps.pic_height_in_map_units_minus1 < u32::MAX,
    ensures
        final(writer).bits() == old(writer).bits() + sps_frame_bits(sps@),
{
    writer.write_ue(sps.max_num_ref_frames as u32);
    write_flag(writer, sps.gaps_in_frame_num_value_allowed_flag);
    writer.write_ue(sps.pic_width_in_mbs_minus1);
    writer.write_ue(sps.pic_height_in_map_units_minus1);
    write_flag(writer, sps.frame_mbs_only_flag);
    write_opt_flag(writer, sps.mb_adaptive_frame_field_flag);
    write_flag(writer, sps.direct_8x8_inference_flag);
    assert(writer.bits() =~= old(writer).bits() + sps_frame_bits(sps@));
}

/// Write the frame cropping part.
fn write_cropping(writer: &mut BitstreamWriter, c: &Option<FrameCropping>)
    requires
        c matches Some(x) ==> x.left_offset < u32::MAX && x.right_offset < u32::MAX
            && x.top_offset < u32::MAX && x.bottom_offset < u32::MAX,
    ensures
        final(writer).bits() == old(writer).bits() + cropping_bits(*c),
{
    match c {
        Some(f) => {
            write_flag(writer, true);
            writer.write_ue(f.left_offset);
            writer.write_ue(f.right_offset);
            writer.write_ue(f.top_offset);
            writer.write_ue(f.bottom_offset);
        },
        None => {
            write_flag(writer, false);
        },
    }
    assert(writer.bits() =~= old(writer).bits() + cropping_bits(*c));
}

/// Write the VUI presence flag and the VUI.
fn write_opt_vui(writer: &mut BitstreamWriter, v: &Option<VuiParameters>)
    requires
        v matches Some(x) ==> vui_writable(x@),
    ensures
        final(writer).bits() == old(writer).bits() + opt_vui_bits(opt_vui_view(*v)),
{
    match v {
        Some(vui) => {
            write_flag(writer, true);
            write_vui(writer, vui);
        },
        None => {
            write_flag(writer, false);
        },
    }
    assert(writer.bits() =~= old(writer).bits() + opt_vui_bits(opt_vui_view(*v)));
}

impl Sps {
    /// Serialize the SPS: the syntax fields, the stop bit, and the
    /// alignment bits.
    pub fn to_bytes(&self) -> (r: Vec<u8>)
        requires
            sps_writable(self@),
        ensures
            bytes_bits(r@) == rbsp_bits(sps_bits(self@)),
    {
        let mut writer = BitstreamWriter::new();
        write_head(&mut writer, self);
        assert(writer.bits() =~= sps_head_bits(self@));
        write_pic_order_cnt(&mut writer, &self.pic_order_cnt);
        write_frame(&mut writer, self);
        write_cropping(&mut writer, &self.frame_cropping);
        write_opt_vui(&mut writer, &self.vui);
        assert(writer.bits() =~= sps_bits(self@));
        writer.write_bits(1, 1);
        proof {
            crate::bitstream::lemma_u32_bits_one();
        }
        writer.finish()
    }
}

} // verus!
