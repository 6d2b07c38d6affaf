//! Picture parameter set (PPS).
//!
//! Syntax, in order: pic_parameter_set_id ue(v), seq_parameter_set_id
//! ue(v), entropy_coding_mode_flag, bottom_field_pic_order_in_frame_present_flag,
//! num_slice_groups_minus1 ue(v) and, when above 0, the slice group map;
//! default reference index counts ue(v); weighted prediction fields;
//! initial QP/QS and chroma offset se(v); three flags; then, while RBSP
//! data remains, the 8x8 transform flag, the scaling matrix and the second
//! chroma offset.
//!
//! The parser is specified by `pps_parse_spec` over the bits of the RBSP;
//! the serializer by `pps_bits`, the syntax bits it writes.

use vstd::prelude::*;
use crate::bitstream::{
    BitstreamReader, BitstreamWriter, bytes_bits, u32_bits, ue_bits, se_bits, has_more_rbsp_data_spec,
    lemma_add_assoc,
};
use crate::h264::error::Error;
use crate::h264::sps::{
    Sps, scaling_list_spec, scaling_list_bits, default_list, lists16_view, lists64_view, flag_bits,
};
use crate::h264::syntax::{read_u, read_flag, read_ue, read_se, sp_u, sp_flag, sp_ue, sp_se, rbsp_bits};

verus! {

/// Slice group map.
#[derive(Debug)]
pub enum SliceGroup {
    Type0 { slice_group_map_type: u32, run_length_minus1: Vec<u32> },
    /// Dispersed map (type 1): no fields beyond the type.
    Type1 { slice_group_map_type: u32 },
    Type2 { slice_group_map_type: u32, top_left: Vec<u32>, bottom_right: Vec<u32> },
    Type3_5 { slice_group_map_type: u32, slice_group_change_direction_flag: bool, slice_group_change_rate_minus1: u32 },
    Type6 { slice_group_map_type: u32, pic_size_in_map_units_minus1: u32, slice_group_id: Vec<u32> },
}

/// Fields present when RBSP data remains after the base fields.
#[derive(Debug)]
pub struct MoreRbspData {
    pub transform_8x8_mode_flag: bool,
    pub pic_scaling_matrix_present_flag: bool,
    pub pic_scaling_list_present_flag: Option<Vec<bool>>,
    pub scaling_list_4x4: Option<[[u8; 16]; 6]>,
    pub scaling_list_8x8: Option<[[u8; 64]; 6]>,
    pub second_chroma_qp_index_offset: i32,
}

/// Picture parameter set.
#[derive(Debug)]
pub struct Pps {
    pub pic_parameter_set_id: u32,
    pub seq_parameter_set_id: u32,
    pub entropy_coding_mode_flag: bool,
    pub bottom_field_pic_order_in_frame_present_flag: bool,
    pub num_slice_groups_minus1: u32,
    pub slice_group: Option<SliceGroup>,
    pub num_ref_idx_l0_default_active_minus1: u32,
    pub num_ref_idx_l1_default_active_minus1: u32,
    pub weighted_pred_flag: bool,
    pub weighted_bipred_idc: u8,
    pub pic_init_qp_minus26: i32,
    pub pic_init_qs_minus26: i32,
    pub chroma_qp_index_offset: i32,
    pub deblocking_filter_control_present_flag: bool,
    pub constrained_intra_pred_flag: bool,
    pub redundant_pic_cnt_present_flag: bool,
    pub more_rbsp_data: Option<MoreRbspData>,
}

/// Model of `SliceGroup`.
pub enum SliceGroupView {
    Type0 { slice_group_map_type: u32, run_length_minus1: Seq<u32> },
    Type1 { slice_group_map_type: u32 },
    Type2 { slice_group_map_type: u32, top_left: Seq<u32>, bottom_right: Seq<u32> },
    Type3_5 { slice_group_map_type: u32, slice_group_change_direction_flag: bool, slice_group_change_rate_minus1: u32 },
    Type6 { slice_group_map_type: u32, pic_size_in_map_units_minus1: u32, slice_group_id: Seq<u32> },
}

/// Model of `MoreRbspData`.
pub struct MoreRbspView {
    pub transform_8x8_mode_flag: bool,
    pub pic_scaling_matrix_present_flag: bool,
    pub pic_scaling_list_present_flag: Option<Seq<bool>>,
    pub scaling_list_4x4: Option<Seq<Seq<u8>>>,
    pub scaling_list_8x8: Option<Seq<Seq<u8>>>,
    pub second_chroma_qp_index_offset: i32,
}

/// Model of `Pps`.
pub struct PpsView {
    pub pic_parameter_set_id: u32,
    pub seq_parameter_set_id: u32,
    pub entropy_coding_mode_flag: bool,
    pub bottom_field_pic_order_in_frame_present_flag: bool,
    pub num_slice_groups_minus1: u32,
    pub slice_group: Option<SliceGroupView>,
    pub num_ref_idx_l0_default_active_minus1: u32,
    pub num_ref_idx_l1_default_active_minus1: u32,
    pub weighted_pred_flag: bool,
    pub weighted_bipred_idc: u8,
    pub pic_init_qp_minus26: i32,
    pub pic_init_qs_minus26: i32,
    pub chroma_qp_index_offset: i32,
    pub deblocking_filter_control_present_flag: bool,
    pub constrained_intra_pred_flag: bool,
    pub redundant_pic_cnt_present_flag: bool,
    pub more_rbsp_data: Option<MoreRbspView>,
}

impl View for SliceGroup {
    type V = SliceGroupView;

    open spec fn view(&self) -> SliceGroupView {
        match self {
            SliceGroup::Type0 { slice_group_map_type, run_length_minus1 } => SliceGroupView::Type0 {
                slice_group_map_type: *slice_group_map_type,
                run_length_minus1: run_length_minus1@,
            },
            SliceGroup::Type1 { slice_group_map_type } => SliceGroupView::Type1 { slice_group_map_type: *slice_group_map_type },
            SliceGroup::Type2 { slice_group_map_type, top_left, bottom_right } => SliceGroupView::Type2 {
                slice_group_map_type: *slice_group_map_type,
                top_left: top_left@,
                bottom_right: bottom_right@,
            },
            SliceGroup::Type3_5 { slice_group_map_type, slice_group_change_direction_flag, slice_group_change_rate_minus1 } =>
                SliceGroupView::Type3_5 {
                    slice_group_map_type: *slice_group_map_type,
                    slice_group_change_direction_flag: *slice_group_change_direction_flag,
                    slice_group_change_rate_minus1: *slice_group_change_rate_minus1,
                },
            SliceGroup::Type6 { slice_group_map_type, pic_size_in_map_units_minus1, slice_group_id } => SliceGroupView::Type6 {
                slice_group_map_type: *slice_group_map_type,
                pic_size_in_map_units_minus1: *pic_size_in_map_units_minus1,
                slice_group_id: slice_group_id@,
            },
        }
    }
}

/// The model of optional lists of 16 entries.
pub open spec fn opt_lists16(a: Option<[[u8; 16]; 6]>) -> Option<Seq<Seq<u8>>> {
    match a {
        Some(x) => Some(lists16_view(x)),
        None => None,
    }
}

/// The model of optional lists of 64 entries.
pub open spec fn opt_lists64(a: Option<[[u8; 64]; 6]>) -> Option<Seq<Seq<u8>>> {
    match a {
        Some(x) => Some(lists64_view(x)),
        None => None,
    }
}

impl View for MoreRbspData {
    type V = MoreRbspView;

    open spec fn view(&self) -> MoreRbspView {
        MoreRbspView {
            transform_8x8_mode_flag: self.transform_8x8_mode_flag,
            pic_scaling_matrix_present_flag: self.pic_scaling_matrix_present_flag,
            pic_scaling_list_present_flag: match self.pic_scaling_list_present_flag {
                Some(v) => Some(v@),
                None => None,
            },
            scaling_list_4x4: opt_lists16(self.scaling_list_4x4),
            scaling_list_8x8: opt_lists64(self.scaling_list_8x8),
            second_chroma_qp_index_offset: self.second_chroma_qp_index_offset,
        }
    }
}

/// The model of an optional slice group map.
pub open spec fn opt_slice_group_view(g: Option<SliceGroup>) -> Option<SliceGroupView> {
    match g {
        Some(x) => Some(x@),
        None => None,
    }
}

/// The model of optional trailing fields.
pub open spec fn opt_more_view(m: Option<MoreRbspData>) -> Option<MoreRbspView> {
    match m {
        Some(x) => Some(x@),
        None => None,
    }
}

impl View for Pps {
    type V = PpsView;

    open spec fn view(&self) -> PpsView {
        PpsView {
            pic_parameter_set_id: self.pic_parameter_set_id,
            seq_parameter_set_id: self.seq_parameter_set_id,
            entropy_coding_mode_flag: self.entropy_coding_mode_flag,
            bottom_field_pic_order_in_frame_present_flag: self.bottom_field_pic_order_in_frame_present_flag,
            num_slice_groups_minus1: self.num_slice_groups_minus1,
            slice_group: opt_slice_group_view(self.slice_group),
            num_ref_idx_l0_default_active_minus1: self.num_ref_idx_l0_default_active_minus1,
            num_ref_idx_l1_default_active_minus1: self.num_ref_idx_l1_default_active_minus1,
            weighted_pred_flag: self.weighted_pred_flag,
            weighted_bipred_idc: self.weighted_bipred_idc,
            pic_init_qp_minus26: self.pic_init_qp_minus26,
            pic_init_qs_minus26: self.pic_init_qs_minus26,
            chroma_qp_index_offset: self.chroma_qp_index_offset,
            deblocking_filter_control_present_flag: self.deblocking_filter_control_present_flag,
            constrained_intra_pred_flag: self.constrained_intra_pred_flag,
            redundant_pic_cnt_present_flag: self.redundant_pic_cnt_present_flag,
            more_rbsp_data: opt_more_view(self.more_rbsp_data),
        }
    }
}

/// `ceil(log2(x))`: the fewest bits that hold the numbers `0..x`.
pub open spec fn ceil_log2(x: nat) -> nat
    decreases x,
{
    if x <= 1 {
        0
    } else {
        1 + ceil_log2((x + 1) / 2)
    }
}

/// The fewest bits that hold the numbers `0..x`.
pub(crate) fn ceil_log2_exec(x: u64) -> (r: u8)
    requires
        x <= 0x1_0000_0000,
    ensures
        r == ceil_log2(x as nat),
        r <= 32,
{
    proof {
        vstd::arithmetic::power2::lemma2_to64();
        lemma_ceil_log2_bound(x as nat, 32);
    }
    let mut v = x;
    let mut k: u8 = 0;
    while v > 1
        invariant
            v <= 0x1_0000_0000,
            ceil_log2(x as nat) == k + ceil_log2(v as nat),
            ceil_log2(x as nat) <= 32,
        decreases v,
    {
        v = (v + 1) / 2;
        k = k + 1;
    }
    k
}

/// `ceil(log2(x))` is at most 32 for `x <= 2^32`.
pub proof fn lemma_ceil_log2_bound(x: nat, b: nat)
    requires
        x <= vstd::arithmetic::power2::pow2(b),
    ensures
        ceil_log2(x) <= b,
    decreases x,
{
    if x > 1 {
        vstd::arithmetic::power2::lemma_pow2_pos(b);
        if b == 0 {
            vstd::arithmetic::power2::lemma2_to64();
        } else {
            vstd::arithmetic::power2::lemma_pow2_unfold(b);
            lemma_ceil_log2_bound((x + 1) / 2, (b - 1) as nat);
        }
    }
}

// ---------------------------------------------------------------------
// Parsing.
// ---------------------------------------------------------------------

/// Reading `n` values `ue(v)` at bit position `p`.
pub open spec fn ue_list_spec(s: Seq<bool>, p: nat, n: nat) -> Result<(Seq<u32>, nat), Error>
    decreases n,
{
    if n == 0 {
        Ok((Seq::empty(), p))
    } else {
        match sp_ue(s, p) {
            Err(e) => Err(e),
            Ok((v, q)) => match ue_list_spec(s, q, (n - 1) as nat) {
                Err(e) => Err(e),
                Ok((rest, q2)) => Ok((seq![v] + rest, q2)),
            },
        }
    }
}

/// Reading `n` pairs of `ue(v)` values at bit position `p`.
pub open spec fn ue_pairs_spec(s: Seq<bool>, p: nat, n: nat) -> Result<(Seq<(u32, u32)>, nat), Error>
    decreases n,
{
    if n == 0 {
        Ok((Seq::empty(), p))
    } else {
        match sp_ue(s, p) {
            Err(e) => Err(e),
            Ok((a, q)) => match sp_ue(s, q) {
                Err(e) => Err(e),
                Ok((b, q1)) => match ue_pairs_spec(s, q1, (n - 1) as nat) {
                    Err(e) => Err(e),
                    Ok((rest, q2)) => Ok((seq![(a, b)] + rest, q2)),
                },
            },
        }
    }
}

/// Reading `n` values `u(bits)` at bit position `p`.
pub open spec fn u_list_spec(s: Seq<bool>, p: nat, n: nat, bits: nat) -> Result<(Seq<u32>, nat), Error>
    decreases n,
{
    if n == 0 {
        Ok((Seq::empty(), p))
    } else {
        match sp_u(s, p, bits) {
            Err(e) => Err(e),
            Ok((v, q)) => match u_list_spec(s, q, (n - 1) as nat, bits) {
                Err(e) => Err(e),
                Ok((rest, q2)) => Ok((seq![v] + rest, q2)),
            },
        }
    }
}

/// Reading the slice group map for `num + 1` slice groups at bit position
/// `p`; map types above 6 are refused.
pub open spec fn slice_group_spec(s: Seq<bool>, p: nat, num: u32) -> Result<(SliceGroupView, nat), Error> {
    match sp_ue(s, p) {
        Err(e) => Err(e),
        Ok((t, p1)) => if t == 0 {
            match ue_list_spec(s, p1, num as nat + 1) {
                Err(e) => Err(e),
                Ok((l, q)) => Ok((SliceGroupView::Type0 { slice_group_map_type: t, run_length_minus1: l }, q)),
            }
        } else if t == 1 {
            Ok((SliceGroupView::Type1 { slice_group_map_type: t }, p1))
        } else if t == 2 {
            match ue_pairs_spec(s, p1, num as nat) {
                Err(e) => Err(e),
                Ok((l, q)) => Ok((SliceGroupView::Type2 {
                    slice_group_map_type: t,
                    top_left: l.map_values(|x: (u32, u32)| x.0),
                    bottom_right: l.map_values(|x: (u32, u32)| x.1),
                }, q)),
            }
        } else if 3 <= t <= 5 {
            match sp_flag(s, p1) {
                Err(e) => Err(e),
                Ok((dir, p2)) => match sp_ue(s, p2) {
                    Err(e) => Err(e),
                    Ok((rate, q)) => Ok((SliceGroupView::Type3_5 {
                        slice_group_map_type: t,
                        slice_group_change_direction_flag: dir,
                        slice_group_change_rate_minus1: rate,
                    }, q)),
                },
            }
        } else if t == 6 {
            match sp_ue(s, p1) {
                Err(e) => Err(e),
                Ok((size, p2)) => match u_list_spec(s, p2, size as nat + 1, ceil_log2(num as nat + 1)) {
                    Err(e) => Err(e),
                    Ok((ids, q)) => Ok((SliceGroupView::Type6 {
                        slice_group_map_type: t,
                        pic_size_in_map_units_minus1: size,
                        slice_group_id: ids,
                    }, q)),
                },
            }
        } else {
            Err(Error::InvalidSliceGroupMapType(t))
        }
    }
}

/// Reading the PPS scaling matrix from list `i` of `num`: a presence flag
/// per list (recorded), and the list when present; lists 0..6 are 4x4, the
/// others 8x8; absent lists are all 16.
pub open spec fn pps_matrix_from(s: Seq<bool>, p: nat, i: nat, num: nat, flags: Seq<bool>, l4: Seq<Seq<u8>>, l8: Seq<Seq<u8>>)
    -> Result<(Seq<bool>, Seq<Seq<u8>>, Seq<Seq<u8>>, nat), Error>
    decreases num - i,
{
    if i >= num {
        Ok((flags, l4, l8, p))
    } else {
        match sp_flag(s, p) {
            Err(e) => Err(e),
            Ok((present, p1)) => if !present {
                pps_matrix_from(s, p1, i + 1, num, flags.push(false), l4, l8)
            } else if i < 6 {
                match scaling_list_spec(s, p1, 16) {
                    Err(e) => Err(e),
                    Ok((l, p2)) => pps_matrix_from(s, p2, i + 1, num, flags.push(true), l4.update(i as int, l), l8),
                }
            } else {
                match scaling_list_spec(s, p1, 64) {
                    Err(e) => Err(e),
                    Ok((l, p2)) => pps_matrix_from(s, p2, i + 1, num, flags.push(true), l4, l8.update(i - 6, l)),
                }
            },
        }
    }
}

/// Reading the trailing fields at bit position `p`, with the chroma format
/// of the SPS (`None` when the SPS has no high-profile fields, which a
/// scaling matrix needs).
pub open spec fn more_rbsp_spec(s: Seq<bool>, p: nat, chroma: Option<u8>) -> Result<(MoreRbspView, nat), Error> {
    match sp_flag(s, p) {
        Err(e) => Err(e),
        Ok((t8, p1)) => match sp_flag(s, p1) {
            Err(e) => Err(e),
            Ok((psm, p2)) => match (if !psm {
                Ok((None, None, None, p2))
            } else {
                match chroma {
                    None => Err(Error::MissingHighProfileData),
                    Some(cf) => {
                        let num: nat = 6 + if t8 { if cf != 3 { 2nat } else { 6nat } } else { 0nat };
                        match pps_matrix_from(s, p2, 0, num, Seq::empty(), Seq::new(6, |i: int| default_list(16)),
                            Seq::new(6, |i: int| default_list(64))) {
                            Err(e) => Err(e),
                            Ok((flags, l4, l8, q)) => Ok((Some(flags), Some(l4), if t8 { Some(l8) } else { None }, q)),
                        }
                    },
                }
            }) {
                Err(e) => Err(e),
                Ok((flags, l4, l8, p3)) => match sp_se(s, p3) {
                    Err(e) => Err(e),
                    Ok((second, p4)) => Ok((MoreRbspView {
                        transform_8x8_mode_flag: t8,
                        pic_scaling_matrix_present_flag: psm,
                        pic_scaling_list_present_flag: flags,
                        scaling_list_4x4: l4,
                        scaling_list_8x8: l8,
                        second_chroma_qp_index_offset: second,
                    }, p4)),
                },
            },
        },
    }
}

/// The fields of a PPS from the reference index counts to the redundant
/// picture count flag.
pub open spec fn pps_mid_spec(s: Seq<bool>, p: nat) -> Result<(u32, u32, bool, u8, i32, i32, i32, bool, bool, bool, nat), Error> {
    match sp_ue(s, p) {
        Err(e) => Err(e),
        Ok((l0, p1)) => match sp_ue(s, p1) {
            Err(e) => Err(e),
            Ok((l1, p2)) => match sp_flag(s, p2) {
                Err(e) => Err(e),
                Ok((wp, p3)) => match sp_u(s, p3, 2) {
                    Err(e) => Err(e),
                    Ok((wb, p4)) => match sp_se(s, p4) {
                        Err(e) => Err(e),
                        Ok((qp, p5)) => match sp_se(s, p5) {
                            Err(e) => Err(e),
                            Ok((qs, p6)) => match sp_se(s, p6) {
                                Err(e) => Err(e),
                                Ok((cq, p7)) => match sp_flag(s, p7) {
                                    Err(e) => Err(e),
                                    Ok((dfc, p8)) => match sp_flag(s, p8) {
                                        Err(e) => Err(e),
                                        Ok((cip, p9)) => match sp_flag(s, p9) {
                                            Err(e) => Err(e),
                                            Ok((rpc, p10)) => Ok((l0, l1, wp, wb as u8, qp, qs, cq, dfc, cip, rpc, p10)),
                                        },
                                    },
                                },
                            },
                        },
                    },
                },
            },
        },
    }
}

/// Parsing a PPS from the bytes `d` of its RBSP, with the chroma format of
/// its SPS.
pub open spec fn pps_parse_spec(d: Seq<u8>, chroma: Option<u8>) -> Result<PpsView, Error> {
    let s = bytes_bits(d);
    match sp_ue(s, 0) {
        Err(e) => Err(e),
        Ok((pid, p1)) => match sp_ue(s, p1) {
            Err(e) => Err(e),
            Ok((sid, p2)) => match sp_flag(s, p2) {
                Err(e) => Err(e),
                Ok((ecm, p3)) => match sp_flag(s, p3) {
                    Err(e) => Err(e),
                    Ok((bfp, p4)) => match sp_ue(s, p4) {
                        Err(e) => Err(e),
                        Ok((num, p5)) => match (if num > 0 {
                            match slice_group_spec(s, p5, num) {
                                Err(e) => Err(e),
                                Ok((g, q)) => Ok((Some(g), q)),
                            }
                        } else {
                            Ok((None, p5))
                        }) {
                            Err(e) => Err(e),
                            Ok((sg, p6)) => match pps_mid_spec(s, p6) {
                                Err(e) => Err(e),
                                Ok((l0, l1, wp, wb, qp, qs, cq, dfc, cip, rpc, p7)) => match (if has_more_rbsp_data_spec(d, p7) {
                                    match more_rbsp_spec(s, p7, chroma) {
                                        Err(e) => Err(e),
                                        Ok((m, q)) => Ok((Some(m), q)),
                                    }
                                } else {
                                    Ok((None, p7))
                                }) {
                                    Err(e) => Err(e),
                                    Ok((more, _)) => Ok(PpsView {
                                        pic_parameter_set_id: pid,
                                        seq_parameter_set_id: sid,
                                        entropy_coding_mode_flag: ecm,
                                        bottom_field_pic_order_in_frame_present_flag: bfp,
                                        num_slice_groups_minus1: num,
                                        slice_group: sg,
                                        num_ref_idx_l0_default_active_minus1: l0,
                                        num_ref_idx_l1_default_active_minus1: l1,
                                        weighted_pred_flag: wp,
                                        weighted_bipred_idc: wb,
                                        pic_init_qp_minus26: qp,
                                        pic_init_qs_minus26: qs,
                                        chroma_qp_index_offset: cq,
                                        deblocking_filter_control_present_flag: dfc,
                                        constrained_intra_pred_flag: cip,
                                        redundant_pic_cnt_present_flag: rpc,
                                        more_rbsp_data: more,
                                    }),
                                },
                            },
                        },
                    },
                },
            },
        },
    }
}

/// The chroma format an SPS gives a PPS parser.
pub open spec fn sps_chroma(sps: Sps) -> Option<u8> {
    match sps.high_profile {
        Some(h) => Some(h.chroma_format_idc),
        None => None,
    }
}


/// `pre` followed by the entries of a list parse result.
pub open spec fn prepend_u32(pre: Seq<u32>, r: Result<(Seq<u32>, nat), Error>) -> Result<(Seq<u32>, nat), Error> {
    match r {
        Ok((rest, q)) => Ok((pre + rest, q)),
        Err(e) => Err(e),
    }
}

/// Read `n` values `ue(v)`.
fn parse_ue_list(reader: &mut BitstreamReader, n: u64) -> (r: Result<Vec<u32>, Error>)
    ensures
        final(reader).bytes() == old(reader).bytes(),
        match ue_list_spec(old(reader).bits(), old(reader).pos(), n as nat) {
            Ok((v, q)) => r matches Ok(x) && x@ == v && final(reader).pos() == q,
            Err(e) => r matches Err(x) && x == e,
        },
{
    let ghost s = old(reader).bits();
    let ghost p0 = old(reader).pos();
    let mut out: Vec<u32> = Vec::new();
    let mut i: u64 = 0;
    assert(out@ + Seq::<u32>::empty() =~= Seq::<u32>::empty());
    while i < n
        invariant
            i <= n,
            reader.bytes() == old(reader).bytes(),
            s == old(reader).bits(),
            p0 == old(reader).pos(),
            s == reader.bits(),
            ue_list_spec(s, p0, n as nat) == prepend_u32(out@, ue_list_spec(s, reader.pos(), (n - i) as nat)),
        decreases n - i,
    {
        let v = read_ue(reader)?;
        let ghost before = out@;
        out.push(v);
        proof {
            let r = ue_list_spec(s, reader.pos(), (n - i - 1) as nat);
            match r {
                Ok((rest, q)) => { assert(before + (seq![v] + rest) =~= before.push(v) + rest); },
                Err(_) => {},
            }
        }
        i = i + 1;
    }
    assert(out@ + Seq::<u32>::empty() =~= out@);
    Ok(out)
}

/// Read `n` values `u(bits)`.
fn parse_u_list(reader: &mut BitstreamReader, n: u64, bits: u8) -> (r: Result<Vec<u32>, Error>)
    requires
        bits <= 32,
    ensures
        final(reader).bytes() == old(reader).bytes(),
        match u_list_spec(old(reader).bits(), old(reader).pos(), n as nat, bits as nat) {
            Ok((v, q)) => r matches Ok(x) && x@ == v && final(reader).pos() == q,
            Err(e) => r matches Err(x) && x == e,
        },
{
    let ghost s = old(reader).bits();
    let ghost p0 = old(reader).pos();
    let mut out: Vec<u32> = Vec::new();
    let mut i: u64 = 0;
    assert(out@ + Seq::<u32>::empty() =~= Seq::<u32>::empty());
    while i < n
        invariant
            i <= n,
            bits <= 32,
            reader.bytes() == old(reader).bytes(),
            s == old(reader).bits(),
            p0 == old(reader).pos(),
            s == reader.bits(),
            u_list_spec(s, p0, n as nat, bits as nat) == prepend_u32(out@, u_list_spec(s, reader.pos(), (n - i) as nat, bits as nat)),
        decreases n - i,
    {
        let v = read_u(reader, bits)?;
        let ghost before = out@;
        out.push(v);
        proof {
            let r = u_list_spec(s, reader.pos(), (n - i - 1) as nat, bits as nat);
            match r {
                Ok((rest, q)) => { assert(before + (seq![v] + rest) =~= before.push(v) + rest); },
                Err(_) => {},
            }
        }
        i = i + 1;
    }
    assert(out@ + Seq::<u32>::empty() =~= out@);
    Ok(out)
}

/// `pre` followed by the entries of a pair list parse result.
pub open spec fn prepend_pairs(pre: Seq<(u32, u32)>, r: Result<(Seq<(u32, u32)>, nat), Error>) -> Result<(Seq<(u32, u32)>, nat), Error> {
    match r {
        Ok((rest, q)) => Ok((pre + rest, q)),
        Err(e) => Err(e),
    }
}

/// Read `n` pairs of `ue(v)` values.
fn parse_ue_pairs(reader: &mut BitstreamReader, n: u32) -> (r: Result<(Vec<u32>, Vec<u32>), Error>)
    ensures
        final(reader).bytes() == old(reader).bytes(),
        match ue_pairs_spec(old(reader).bits(), old(reader).pos(), n as nat) {
            Ok((v, q)) => r matches Ok(x) && x.0@ == v.map_values(|e: (u32, u32)| e.0)
                && x.1@ == v.map_values(|e: (u32, u32)| e.1) && final(reader).pos() == q,
            Err(e) => r matches Err(x) && x == e,
        },
{
    let ghost s = old(reader).bits();
    let ghost p0 = old(reader).pos();
    let mut a: Vec<u32> = Vec::new();
    let mut b: Vec<u32> = Vec::new();
    let mut i: u32 = 0;
    let ghost mut done: Seq<(u32, u32)> = Seq::empty();
    assert(done + Seq::<(u32, u32)>::empty() =~= Seq::<(u32, u32)>::empty());
    while i < n
        invariant
            i <= n,
            reader.bytes() == old(reader).bytes(),
            s == old(reader).bits(),
            p0 == old(reader).pos(),
            s == reader.bits(),
            done.len() == i,
            a@.len() == i,
            b@.len() == i,
            forall|k: int| 0 <= k < i ==> #[trigger] a@[k] == done[k].0,
            forall|k: int| 0 <= k < i ==> #[trigger] b@[k] == done[k].1,
            ue_pairs_spec(s, p0, n as nat) == prepend_pairs(done, ue_pairs_spec(s, reader.pos(), (n - i) as nat)),
        decreases n - i,
    {
        let x = read_ue(reader)?;
        let y = read_ue(reader)?;
        proof {
            let r = ue_pairs_spec(s, reader.pos(), (n - i - 1) as nat);
            match r {
                Ok((rest, q)) => { assert(done + (seq![(x, y)] + rest) =~= done.push((x, y)) + rest); },
                Err(_) => {},
            }
            done = done.push((x, y));
        }
        a.push(x);
        b.push(y);
        i = i + 1;
    }
    assert(done + Seq::<(u32, u32)>::empty() =~= done);
    assert(a@ =~= done.map_values(|e: (u32, u32)| e.0));
    assert(b@ =~= done.map_values(|e: (u32, u32)| e.1));
    Ok((a, b))
}

/// Read the slice group map for `num + 1` slice groups.
fn parse_slice_group(reader: &mut BitstreamReader, num: u32) -> (r: Result<SliceGroup, Error>)
    requires
        num < u32::MAX,
    ensures
        final(reader).bytes() == old(reader).bytes(),
        match slice_group_spec(old(reader).bits(), old(reader).pos(), num) {
            Ok((v, q)) => r matches Ok(x) && x@ == v && final(reader).pos() == q,
            Err(e) => r matches Err(x) && x == e,
        },
{
    let slice_group_map_type = read_ue(reader)?;
    if slice_group_map_type == 0 {
        let run_length_minus1 = parse_ue_list(reader, num as u64 + 1)?;
        Ok(SliceGroup::Type0 { slice_group_map_type, run_length_minus1 })
    } else if slice_group_map_type == 1 {
        Ok(SliceGroup::Type1 { slice_group_map_type })
    } else if slice_group_map_type == 2 {
        let (top_left, bottom_right) = parse_ue_pairs(reader, num)?;
        Ok(SliceGroup::Type2 { slice_group_map_type, top_left, bottom_right })
    } else if 3 <= slice_group_map_type && slice_group_map_type <= 5 {
        let slice_group_change_direction_flag = read_flag(reader)?;
        let slice_group_change_rate_minus1 = read_ue(reader)?;
        Ok(SliceGroup::Type3_5 { slice_group_map_type, slice_group_change_direction_flag, slice_group_change_rate_minus1 })
    } else if slice_group_map_type == 6 {
        let pic_size_in_map_units_minus1 = read_ue(reader)?;
        let bits = ceil_log2_exec(num as u64 + 1);
        let slice_group_id = parse_u_list(reader, pic_size_in_map_units_minus1 as u64 + 1, bits)?;
        Ok(SliceGroup::Type6 { slice_group_map_type, pic_size_in_map_units_minus1, slice_group_id })
    } else {
        Err(Error::InvalidSliceGroupMapType(slice_group_map_type))
    }
}

/// The PPS matrix models, read so far, match the arrays and flags.
pub open spec fn pps_matrix_state(flags: Vec<bool>, l4: [[u8; 16]; 6], l8: [[u8; 64]; 6], m: (Seq<bool>, Seq<Seq<u8>>, Seq<Seq<u8>>)) -> bool {
    flags@ == m.0 && lists16_view(l4) == m.1 && lists64_view(l8) == m.2
}

/// Read `num` lists of the PPS scaling matrix, each after its flag.
fn parse_pps_matrix(reader: &mut BitstreamReader, num: usize) -> (r: Result<(Vec<bool>, [[u8; 16]; 6], [[u8; 64]; 6]), Error>)
    requires
        num <= 12,
    ensures
        final(reader).bytes() == old(reader).bytes(),
        match pps_matrix_from(old(reader).bits(), old(reader).pos(), 0, num as nat, Seq::empty(),
            Seq::new(6, |i: int| default_list(16)), Seq::new(6, |i: int| default_list(64))) {
            Ok((flags, l4, l8, q)) => r matches Ok(m) && pps_matrix_state(m.0, m.1, m.2, (flags, l4, l8))
                && final(reader).pos() == q,
            Err(e) => r matches Err(x) && x == e,
        },
{
    let ghost s = old(reader).bits();
    let ghost p0 = old(reader).pos();
    let mut flags: Vec<bool> = Vec::new();
    let mut l4: [[u8; 16]; 6] = [[16u8; 16]; 6];
    let mut l8: [[u8; 64]; 6] = [[16u8; 64]; 6];
    proof {
        assert forall|k: int| 0 <= k < 6 implies #[trigger] lists16_view(l4)[k] == default_list(16) by {
            assert(lists16_view(l4)[k] =~= default_list(16));
        }
        assert forall|k: int| 0 <= k < 6 implies #[trigger] lists64_view(l8)[k] == default_list(64) by {
            assert(lists64_view(l8)[k] =~= default_list(64));
        }
        assert(lists16_view(l4) =~= Seq::new(6, |i: int| default_list(16)));
        assert(lists64_view(l8) =~= Seq::new(6, |i: int| default_list(64)));
        assert(flags@ =~= Seq::<bool>::empty());
    }
    let mut i: usize = 0;
    while i < num
        invariant
            i <= num <= 12,
            reader.bytes() == old(reader).bytes(),
            s == old(reader).bits(),
            p0 == old(reader).pos(),
            s == reader.bits(),
            pps_matrix_from(s, p0, 0, num as nat, Seq::empty(), Seq::new(6, |i: int| default_list(16)),
                Seq::new(6, |i: int| default_list(64)))
                == pps_matrix_from(s, reader.pos(), i as nat, num as nat, flags@, lists16_view(l4), lists64_view(l8)),
        decreases num - i,
    {
        let present = read_flag(reader)?;
        flags.push(present);
        if present {
            if i < 6 {
                let l = Sps::parse_scaling_list::<16>(reader)?;
                let ghost old4 = lists16_view(l4);
                l4[i] = l;
                assert(lists16_view(l4) =~= old4.update(i as int, l@));
            } else {
                let l = Sps::parse_scaling_list::<64>(reader)?;
                let ghost old8 = lists64_view(l8);
                l8[i - 6] = l;
                assert(lists64_view(l8) =~= old8.update(i - 6, l@));
            }
        }
        i = i + 1;
    }
    Ok((flags, l4, l8))
}

/// Read the trailing fields.
fn parse_more(reader: &mut BitstreamReader, chroma: Option<u8>) -> (r: Result<MoreRbspData, Error>)
    ensures
        final(reader).bytes() == old(reader).bytes(),
        match more_rbsp_spec(old(reader).bits(), old(reader).pos(), chroma) {
            Ok((v, q)) => r matches Ok(x) && x@ == v && final(reader).pos() == q,
            Err(e) => r matches Err(x) && x == e,
        },
{
    let transform_8x8_mode_flag = read_flag(reader)?;
    let pic_scaling_matrix_present_flag = read_flag(reader)?;
    if pic_scaling_matrix_present_flag {
        let chroma_format_idc = match chroma {
            Some(c) => c,
            None => return Err(Error::MissingHighProfileData),
        };
        let num_lists: usize = 6 + if transform_8x8_mode_flag { if chroma_format_idc != 3 { 2 } else { 6 } } else { 0 };
        let (flags, l4, l8) = parse_pps_matrix(reader, num_lists)?;
        let second_chroma_qp_index_offset = read_se(reader)?;
        Ok(MoreRbspData {
            transform_8x8_mode_flag,
            pic_scaling_matrix_present_flag,
            pic_scaling_list_present_flag: Some(flags),
            scaling_list_4x4: Some(l4),
            scaling_list_8x8: if transform_8x8_mode_flag { Some(l8) } else { None },
            second_chroma_qp_index_offset,
        })
    } else {
        let second_chroma_qp_index_offset = read_se(reader)?;
        Ok(MoreRbspData {
            transform_8x8_mode_flag,
            pic_scaling_matrix_present_flag,
            pic_scaling_list_present_flag: None,
            scaling_list_4x4: None,
            scaling_list_8x8: None,
            second_chroma_qp_index_offset,
        })
    }
}

/// Read the fields from the reference index counts to the redundant
/// picture count flag.
fn parse_mid(reader: &mut BitstreamReader) -> (r: Result<(u32, u32, bool, u8, i32, i32, i32, bool, bool, bool), Error>)
    ensures
        final(reader).bytes() == old(reader).bytes(),
        match pps_mid_spec(old(reader).bits(), old(reader).pos()) {
            Ok(m) => r == Ok::<(u32, u32, bool, u8, i32, i32, i32, bool, bool, bool), Error>(
                (m.0, m.1, m.2, m.3, m.4, m.5, m.6, m.7, m.8, m.9)) && final(reader).pos() == m.10,
            Err(e) => r == Err::<(u32, u32, bool, u8, i32, i32, i32, bool, bool, bool), Error>(e),
        },
{
    let l0 = read_ue(reader)?;
    let l1 = read_ue(reader)?;
    let wp = read_flag(reader)?;
    let wb = read_u(reader, 2)?;
    let qp = read_se(reader)?;
    let qs = read_se(reader)?;
    let cq = read_se(reader)?;
    let dfc = read_flag(reader)?;
    let cip = read_flag(reader)?;
    let rpc = read_flag(reader)?;
    Ok((l0, l1, wp, wb as u8, qp, qs, cq, dfc, cip, rpc))
}

impl Pps {
    /// Parse a PPS RBSP; a scaling matrix needs the chroma format of the
    /// high-profile fields of `sps`.
    pub fn parse(data: &[u8], sps: &Sps) -> (r: Result<Self, Error>)
        requires
            data@.len() * 8 <= usize::MAX,
        ensures
            match pps_parse_spec(data@, sps_chroma(*sps)) {
                Ok(v) => r matches Ok(x) && x@ == v,
                Err(e) => r matches Err(x) && x == e,
            },
    {
        let mut reader = BitstreamReader::new(data);
        let pic_parameter_set_id = read_ue(&mut reader)?;
        let seq_parameter_set_id = read_ue(&mut reader)?;
        let entropy_coding_mode_flag = read_flag(&mut reader)?;
        let bottom_field_pic_order_in_frame_present_flag = read_flag(&mut reader)?;
        let num_slice_groups_minus1 = read_ue(&mut reader)?;
        let slice_group = if num_slice_groups_minus1 > 0 {
            Some(parse_slice_group(&mut reader, num_slice_groups_minus1)?)
        } else {
            None
        };
        let (num_ref_idx_l0_default_active_minus1, num_ref_idx_l1_default_active_minus1, weighted_pred_flag,
            weighted_bipred_idc, pic_init_qp_minus26, pic_init_qs_minus26, chroma_qp_index_offset,
            deblocking_filter_control_present_flag, constrained_intra_pred_flag, redundant_pic_cnt_present_flag) =
            parse_mid(&mut reader)?;
        let chroma: Option<u8> = match &sps.high_profile {
            Some(h) => Some(h.chroma_format_idc),
            None => None,
        };
        let more_rbsp_data = if reader.has_more_rbsp_data() { Some(parse_more(&mut reader, chroma)?) } else { None };
        Ok(Pps {
            pic_parameter_set_id,
            seq_parameter_set_id,
            entropy_coding_mode_flag,
            bottom_field_pic_order_in_frame_present_flag,
            num_slice_groups_minus1,
            slice_group,
            num_ref_idx_l0_default_active_minus1,
            num_ref_idx_l1_default_active_minus1,
            weighted_pred_flag,
            weighted_bipred_idc,
            pic_init_qp_minus26,
            pic_init_qs_minus26,
            chroma_qp_index_offset,
            deblocking_filter_control_present_flag,
            constrained_intra_pred_flag,
            redundant_pic_cnt_present_flag,
            more_rbsp_data,
        })
    }
}


// ---------------------------------------------------------------------
// Serializing.
// ---------------------------------------------------------------------

/// The bits of `ue(v)` values.
pub open spec fn ue_list_bits(l: Seq<u32>) -> Seq<bool>
    decreases l.len(),
{
    if l.len() == 0 {
        Seq::empty()
    } else {
        ue_list_bits(l.drop_last()) + ue_bits(l.last())
    }
}

/// The bits of the first `n` pairs `ue(a[i])`, `ue(b[i])`.
pub open spec fn pairs_bits(a: Seq<u32>, b: Seq<u32>, n: nat) -> Seq<bool>
    decreases n,
{
    if n == 0 {
        Seq::empty()
    } else {
        pairs_bits(a, b, (n - 1) as nat) + ue_bits(a[n - 1]) + ue_bits(b[n - 1])
    }
}

/// The bits of `u(bits)` values.
pub open spec fn u_list_bits(l: Seq<u32>, bits: nat) -> Seq<bool>
    decreases l.len(),
{
    if l.len() == 0 {
        Seq::empty()
    } else {
        u_list_bits(l.drop_last(), bits) + u32_bits(l.last(), bits)
    }
}

/// The bits of the slice group map (pairs up to the shorter list).
pub open spec fn slice_group_bits(g: SliceGroupView, num: u32) -> Seq<bool> {
    match g {
        SliceGroupView::Type0 { slice_group_map_type, run_length_minus1 } =>
            ue_bits(slice_group_map_type) + ue_list_bits(run_length_minus1),
        SliceGroupView::Type1 { slice_group_map_type } => ue_bits(slice_group_map_type),
        SliceGroupView::Type2 { slice_group_map_type, top_left, bottom_right } =>
            ue_bits(slice_group_map_type) + pairs_bits(top_left, bottom_right,
                if top_left.len() <= bottom_right.len() { top_left.len() } else { bottom_right.len() }),
        SliceGroupView::Type3_5 { slice_group_map_type, slice_group_change_direction_flag, slice_group_change_rate_minus1 } =>
            ue_bits(slice_group_map_type) + flag_bits(slice_group_change_direction_flag) + ue_bits(slice_group_change_rate_minus1),
        SliceGroupView::Type6 { slice_group_map_type, pic_size_in_map_units_minus1, slice_group_id } =>
            ue_bits(slice_group_map_type) + ue_bits(pic_size_in_map_units_minus1)
                + u_list_bits(slice_group_id, ceil_log2(num as nat + 1)),
    }
}

/// The bits of PPS scaling matrix lists `0..n`: each flag, then the list
/// when the flag is set and the lists are there.
pub open spec fn pps_matrix_bits(flags: Seq<bool>, l4: Option<Seq<Seq<u8>>>, l8: Option<Seq<Seq<u8>>>, n: nat) -> Seq<bool>
    decreases n,
{
    if n == 0 {
        Seq::empty()
    } else {
        let i = (n - 1) as nat;
        pps_matrix_bits(flags, l4, l8, i) + seq![flags[i as int]] + if flags[i as int] {
            if i < 6 {
                match l4 {
                    Some(ls) => scaling_list_bits(ls[i as int], 8),
                    None => Seq::empty(),
                }
            } else {
                match l8 {
                    Some(ls) => scaling_list_bits(ls[i - 6], 8),
                    None => Seq::empty(),
                }
            }
        } else {
            Seq::empty()
        }
    }
}

/// The bits of the trailing fields.
pub open spec fn more_bits(m: MoreRbspView) -> Seq<bool> {
    flag_bits(m.transform_8x8_mode_flag) + flag_bits(m.pic_scaling_matrix_present_flag)
        + match m.pic_scaling_list_present_flag {
            Some(flags) => pps_matrix_bits(flags, m.scaling_list_4x4, m.scaling_list_8x8, flags.len()),
            None => Seq::empty(),
        }
        + se_bits(m.second_chroma_qp_index_offset)
}

/// The bits of the fields up to the slice group map.
pub open spec fn pps_head_bits(v: PpsView) -> Seq<bool> {
    ue_bits(v.pic_parameter_set_id) + ue_bits(v.seq_parameter_set_id) + flag_bits(v.entropy_coding_mode_flag)
        + flag_bits(v.bottom_field_pic_order_in_frame_present_flag) + ue_bits(v.num_slice_groups_minus1)
        + match v.slice_group {
            Some(g) => slice_group_bits(g, v.num_slice_groups_minus1),
            None => Seq::empty(),
        }
}

/// The bits of the fields from the reference index counts to the
/// redundant picture count flag.
pub open spec fn pps_mid_bits(v: PpsView) -> Seq<bool> {
    ue_bits(v.num_ref_idx_l0_default_active_minus1) + ue_bits(v.num_ref_idx_l1_default_active_minus1)
        + flag_bits(v.weighted_pred_flag) + u32_bits(v.weighted_bipred_idc as u32, 2)
        + se_bits(v.pic_init_qp_minus26) + se_bits(v.pic_init_qs_minus26) + se_bits(v.chroma_qp_index_offset)
        + flag_bits(v.deblocking_filter_control_present_flag) + flag_bits(v.constrained_intra_pred_flag)
        + flag_bits(v.redundant_pic_cnt_present_flag)
}

/// The syntax bits of a PPS (without the trailing bits).
pub open spec fn pps_bits(v: PpsView) -> Seq<bool> {
    pps_head_bits(v) + pps_mid_bits(v) + match v.more_rbsp_data {
        Some(m) => more_bits(m),
        None => Seq::empty(),
    }
}

/// What serializing a slice group map needs.
pub open spec fn slice_group_writable(g: SliceGroupView, num: u32) -> bool {
    match g {
        SliceGroupView::Type0 { slice_group_map_type, run_length_minus1 } => slice_group_map_type < u32::MAX
            && forall|i: int| 0 <= i < run_length_minus1.len() ==> #[trigger] run_length_minus1[i] < u32::MAX,
        SliceGroupView::Type1 { slice_group_map_type } => slice_group_map_type < u32::MAX,
        SliceGroupView::Type2 { slice_group_map_type, top_left, bottom_right } => slice_group_map_type < u32::MAX
            && (forall|i: int| 0 <= i < top_left.len() ==> #[trigger] top_left[i] < u32::MAX)
            && (forall|i: int| 0 <= i < bottom_right.len() ==> #[trigger] bottom_right[i] < u32::MAX),
        SliceGroupView::Type3_5 { slice_group_map_type, slice_group_change_rate_minus1, .. } =>
            slice_group_map_type < u32::MAX && slice_group_change_rate_minus1 < u32::MAX,
        SliceGroupView::Type6 { slice_group_map_type, pic_size_in_map_units_minus1, .. } =>
            slice_group_map_type < u32::MAX && pic_size_in_map_units_minus1 < u32::MAX && num < u32::MAX,
    }
}

/// What serializing a PPS needs: every `ue(v)` value below `u32::MAX`,
/// every `se(v)` value above `i32::MIN`, and no present 8x8 list past the
/// sixth.
pub open spec fn pps_writable(v: PpsView) -> bool {
    &&& v.pic_parameter_set_id < u32::MAX
    &&& v.seq_parameter_set_id < u32::MAX
    &&& v.num_slice_groups_minus1 < u32::MAX
    &&& (v.slice_group matches Some(g) ==> slice_group_writable(g, v.num_slice_groups_minus1))
    &&& v.num_ref_idx_l0_default_active_minus1 < u32::MAX
    &&& v.num_ref_idx_l1_default_active_minus1 < u32::MAX
    &&& v.pic_init_qp_minus26 > i32::MIN
    &&& v.pic_init_qs_minus26 > i32::MIN
    &&& v.chroma_qp_index_offset > i32::MIN
    &&& (v.more_rbsp_data matches Some(m) ==> m.second_chroma_qp_index_offset > i32::MIN
        && (m.pic_scaling_list_present_flag matches Some(flags) ==> forall|i: int|
            0 <= i < flags.len() && #[trigger] flags[i] && i >= 12 ==> m.scaling_list_8x8 is None))
}

/// Write `ue(v)` values.
fn write_ue_list(writer: &mut BitstreamWriter, l: &Vec<u32>)
    requires
        forall|i: int| 0 <= i < l@.len() ==> #[trigger] l@[i] < u32::MAX,
    ensures
        final(writer).bits() == old(writer).bits() + ue_list_bits(l@),
{
    let mut i: usize = 0;
    while i < l.len()
        invariant
            i <= l@.len(),
            forall|j: int| 0 <= j < l@.len() ==> #[trigger] l@[j] < u32::MAX,
            writer.bits() == old(writer).bits() + ue_list_bits(l@.subrange(0, i as int)),
        decreases l@.len() - i,
    {
        writer.write_ue(l[i]);
        proof {
            let t = l@.subrange(0, i + 1);
            assert(t.drop_last() =~= l@.subrange(0, i as int));
            assert(writer.bits() =~= old(writer).bits() + ue_list_bits(t));
        }
        i = i + 1;
    }
    assert(l@.subrange(0, l@.len() as int) =~= l@);
}

/// Write `u(bits)` values.
fn write_u_list(writer: &mut BitstreamWriter, l: &Vec<u32>, bits: u8)
    requires
        bits <= 32,
    ensures
        final(writer).bits() == old(writer).bits() + u_list_bits(l@, bits as nat),
{
    let mut i: usize = 0;
    while i < l.len()
        invariant
            i <= l@.len(),
            bits <= 32,
            writer.bits() == old(writer).bits() + u_list_bits(l@.subrange(0, i as int), bits as nat),
        decreases l@.len() - i,
    {
        writer.write_bits(l[i], bits);
        proof {
            let t = l@.subrange(0, i + 1);
            assert(t.drop_last() =~= l@.subrange(0, i as int));
            assert(writer.bits() =~= old(writer).bits() + u_list_bits(t, bits as nat));
        }
        i = i + 1;
    }
    assert(l@.subrange(0, l@.len() as int) =~= l@);
}

/// Write pairs up to the shorter list.
fn write_pairs(writer: &mut BitstreamWriter, a: &Vec<u32>, b: &Vec<u32>)
    requires
        forall|i: int| 0 <= i < a@.len() ==> #[trigger] a@[i] < u32::MAX,
        forall|i: int| 0 <= i < b@.len() ==> #[trigger] b@[i] < u32::MAX,
    ensures
        final(writer).bits() == old(writer).bits() + pairs_bits(a@, b@,
            if a@.len() <= b@.len() { a@.len() } else { b@.len() }),
{
    let n = if a.len() <= b.len() { a.len() } else { b.len() };
    let mut i: usize = 0;
    while i < n
        invariant
            i <= n,
            n == if a@.len() <= b@.len() { a@.len() } else { b@.len() },
            forall|j: int| 0 <= j < a@.len() ==> #[trigger] a@[j] < u32::MAX,
            forall|j: int| 0 <= j < b@.len() ==> #[trigger] b@[j] < u32::MAX,
            writer.bits() == old(writer).bits() + pairs_bits(a@, b@, i as nat),
        decreases n - i,
    {
        writer.write_ue(a[i]);
        writer.write_ue(b[i]);
        assert(writer.bits() =~= old(writer).bits() + pairs_bits(a@, b@, (i + 1) as nat));
        i = i + 1;
    }
}

/// Write the slice group map.
fn write_slice_group(writer: &mut BitstreamWriter, g: &SliceGroup, num: u32)
    requires
        slice_group_writable(g@, num),
    ensures
        final(writer).bits() == old(writer).bits() + slice_group_bits(g@, num),
{
    match g {
        SliceGroup::Type0 { slice_group_map_type, run_length_minus1 } => {
            proof {
                let v = g@;
                assert forall|i: int| 0 <= i < run_length_minus1@.len() implies #[trigger] run_length_minus1@[i] < u32::MAX by {
                    if let SliceGroupView::Type0 { run_length_minus1: r, .. } = v {
                        assert(r[i] < u32::MAX);
                    }
                }
            }
            writer.write_ue(*slice_group_map_type);
            write_ue_list(writer, run_length_minus1);
        },
        SliceGroup::Type1 { slice_group_map_type } => {
            writer.write_ue(*slice_group_map_type);
        },
        SliceGroup::Type2 { slice_group_map_type, top_left, bottom_right } => {
            writer.write_ue(*slice_group_map_type);
            proof {
                let v = g@;
                assert forall|i: int| 0 <= i < top_left@.len() implies #[trigger] top_left@[i] < u32::MAX by {
                    if let SliceGroupView::Type2 { top_left: r, .. } = v {
                        assert(r[i] < u32::MAX);
                    }
                }
                assert forall|i: int| 0 <= i < bottom_right@.len() implies #[trigger] bottom_right@[i] < u32::MAX by {
                    if let SliceGroupView::Type2 { bottom_right: r, .. } = v {
                        assert(r[i] < u32::MAX);
                    }
                }
            }
            write_pairs(writer, top_left, bottom_right);
        },
        SliceGroup::Type3_5 { slice_group_map_type, slice_group_change_direction_flag, slice_group_change_rate_minus1 } => {
            writer.write_ue(*slice_group_map_type);
            writer.write_bool(*slice_group_change_direction_flag);
            writer.write_ue(*slice_group_change_rate_minus1);
        },
        SliceGroup::Type6 { slice_group_map_type, pic_size_in_map_units_minus1, slice_group_id } => {
            writer.write_ue(*slice_group_map_type);
            writer.write_ue(*pic_size_in_map_units_minus1);
            let bits = ceil_log2_exec(num as u64 + 1);
            write_u_list(writer, slice_group_id, bits);
        },
    }
    assert(writer.bits() =~= old(writer).bits() + slice_group_bits(g@, num));
}

/// Write the PPS scaling matrix: each flag, then the list when set.
fn write_pps_matrix(writer: &mut BitstreamWriter, flags: &Vec<bool>, l4: &Option<[[u8; 16]; 6]>, l8: &Option<[[u8; 64]; 6]>)
    requires
        forall|i: int| 0 <= i < flags@.len() && #[trigger] flags@[i] && i >= 12 ==> l8 is None,
    ensures
        final(writer).bits() == old(writer).bits() + pps_matrix_bits(flags@, opt_lists16(*l4), opt_lists64(*l8), flags@.len()),
{
    let mut i: usize = 0;
    while i < flags.len()
        invariant
            i <= flags@.len(),
            forall|j: int| 0 <= j < flags@.len() && #[trigger] flags@[j] && j >= 12 ==> l8 is None,
            writer.bits() == old(writer).bits() + pps_matrix_bits(flags@, opt_lists16(*l4), opt_lists64(*l8), i as nat),
        decreases flags@.len() - i,
    {
        let present = flags[i];
        let ghost before = writer.bits();
        writer.write_bool(present);
        let ghost b1 = writer.bits();
        if present {
            if i < 6 {
                match l4 {
                    Some(lists) => {
                        Sps::write_scaling_list(writer, lists[i].as_slice());
                        assert(lists16_view(*lists)[i as int] == lists[i as int]@);
                    },
                    None => {},
                }
            } else {
                match l8 {
                    Some(lists) => {
                        Sps::write_scaling_list(writer, lists[i - 6].as_slice());
                        assert(lists64_view(*lists)[i - 6] == lists[i - 6]@);
                    },
                    None => {},
                }
            }
        }
        proof {
            let e = if present {
                if i < 6 {
                    match opt_lists16(*l4) { Some(ls) => scaling_list_bits(ls[i as int], 8), None => Seq::<bool>::empty() }
                } else {
                    match opt_lists64(*l8) { Some(ls) => scaling_list_bits(ls[i - 6], 8), None => Seq::<bool>::empty() }
                }
            } else {
                Seq::<bool>::empty()
            };
            assert(writer.bits() =~= b1 + e);
            assert(writer.bits() =~= old(writer).bits() + pps_matrix_bits(flags@, opt_lists16(*l4), opt_lists64(*l8), (i + 1) as nat));
        }
        i = i + 1;
    }
}

/// Write the trailing fields.
fn write_more(writer: &mut BitstreamWriter, m: &MoreRbspData)
    requires
        m@.second_chroma_qp_index_offset > i32::MIN,
        m@.pic_scaling_list_present_flag matches Some(flags) ==> forall|i: int|
            0 <= i < flags.len() && #[trigger] flags[i] && i >= 12 ==> m@.scaling_list_8x8 is None,
    ensures
        final(writer).bits() == old(writer).bits() + more_bits(m@),
{
    writer.write_bool(m.transform_8x8_mode_flag);
    writer.write_bool(m.pic_scaling_matrix_present_flag);
    let ghost b1 = writer.bits();
    match &m.pic_scaling_list_present_flag {
        Some(flags) => {
            write_pps_matrix(writer, flags, &m.scaling_list_4x4, &m.scaling_list_8x8);
        },
        None => {
            assert(writer.bits() =~= b1 + Seq::<bool>::empty());
        },
    }
    writer.write_se(m.second_chroma_qp_index_offset);
    assert(writer.bits() =~= old(writer).bits() + more_bits(m@));
}

/// Write the fields up to the slice group map.
fn write_pps_head(writer: &mut BitstreamWriter, pps: &Pps)
    requires
        pps_writable(pps@),
    ensures
        final(writer).bits() == old(writer).bits() + pps_head_bits(pps@),
{
    writer.write_ue(pps.pic_parameter_set_id);
    writer.write_ue(pps.seq_parameter_set_id);
    writer.write_bool(pps.entropy_coding_mode_flag);
    writer.write_bool(pps.bottom_field_pic_order_in_frame_present_flag);
    writer.write_ue(pps.num_slice_groups_minus1);
    let ghost b1 = writer.bits();
    match &pps.slice_group {
        Some(g) => { write_slice_group(writer, g, pps.num_slice_groups_minus1); },
        None => { assert(writer.bits() =~= b1 + Seq::<bool>::empty()); },
    }
    assert(writer.bits() =~= old(writer).bits() + pps_head_bits(pps@));
}

/// Write the fields from the reference index counts to the redundant
/// picture count flag.
fn write_pps_mid(writer: &mut BitstreamWriter, pps: &Pps)
    requires
        pps.num_ref_idx_l0_default_active_minus1 < u32::MAX,
        pps.num_ref_idx_l1_default_active_minus1 < u32::MAX,
        pps.pic_init_qp_minus26 > i32::MIN,
        pps.pic_init_qs_minus26 > i32::MIN,
        pps.chroma_qp_index_offset > i32::MIN,
    ensures
        final(writer).bits() == old(writer).bits() + pps_mid_bits(pps@),
{
    let ghost b0 = old(writer).bits();
    let ghost v = pps@;
    writer.write_ue(pps.num_ref_idx_l0_default_active_minus1);
    let ghost a1 = ue_bits(v.num_ref_idx_l0_default_active_minus1);
    writer.write_ue(pps.num_ref_idx_l1_default_active_minus1);
    proof { lemma_add_assoc(b0, a1, ue_bits(v.num_ref_idx_l1_default_active_minus1)); }
    let ghost a2 = a1 + ue_bits(v.num_ref_idx_l1_default_active_minus1);
    writer.write_bool(pps.weighted_pred_flag);
    proof {
        assert((b0 + a2).push(v.weighted_pred_flag) =~= (b0 + a2) + flag_bits(v.weighted_pred_flag));
        lemma_add_assoc(b0, a2, flag_bits(v.weighted_pred_flag));
    }
    let ghost a3 = a2 + flag_bits(v.weighted_pred_flag);
    writer.write_bits(pps.weighted_bipred_idc as u32, 2);
    proof { lemma_add_assoc(b0, a3, u32_bits(v.weighted_bipred_idc as u32, 2)); }
    let ghost a4 = a3 + u32_bits(v.weighted_bipred_idc as u32, 2);
    writer.write_se(pps.pic_init_qp_minus26);
    proof { lemma_add_assoc(b0, a4, se_bits(v.pic_init_qp_minus26)); }
    let ghost a5 = a4 + se_bits(v.pic_init_qp_minus26);
    writer.write_se(pps.pic_init_qs_minus26);
    proof { lemma_add_assoc(b0, a5, se_bits(v.pic_init_qs_minus26)); }
    let ghost a6 = a5 + se_bits(v.pic_init_qs_minus26);
    writer.write_se(pps.chroma_qp_index_offset);
    proof { lemma_add_assoc(b0, a6, se_bits(v.chroma_qp_index_offset)); }
    let ghost a7 = a6 + se_bits(v.chroma_qp_index_offset);
    writer.write_bool(pps.deblocking_filter_control_present_flag);
    proof {
        assert((b0 + a7).push(v.deblocking_filter_control_present_flag) =~= (b0 + a7) + flag_bits(v.deblocking_filter_control_present_flag));
        lemma_add_assoc(b0, a7, flag_bits(v.deblocking_filter_control_present_flag));
    }
    let ghost a8 = a7 + flag_bits(v.deblocking_filter_control_present_flag);
    writer.write_bool(pps.constrained_intra_pred_flag);
    proof {
        assert((b0 + a8).push(v.constrained_intra_pred_flag) =~= (b0 + a8) + flag_bits(v.constrained_intra_pred_flag));
        lemma_add_assoc(b0, a8, flag_bits(v.constrained_intra_pred_flag));
    }
    let ghost a9 = a8 + flag_bits(v.constrained_intra_pred_flag);
    writer.write_bool(pps.redundant_pic_cnt_present_flag);
    proof {
        assert((b0 + a9).push(v.redundant_pic_cnt_present_flag) =~= (b0 + a9) + flag_bits(v.redundant_pic_cnt_present_flag));
        lemma_add_assoc(b0, a9, flag_bits(v.redundant_pic_cnt_present_flag));
    }
}

impl Pps {
    /// Serialize the PPS: the syntax fields, the stop bit, and the
    /// alignment bits.
    pub fn to_bytes(&self) -> (r: Vec<u8>)
        requires
            pps_writable(self@),
        ensures
            bytes_bits(r@) == rbsp_bits(pps_bits(self@)),
    {
        let mut writer = BitstreamWriter::new();
        write_pps_head(&mut writer, self);
        assert(writer.bits() =~= pps_head_bits(self@));
        write_pps_mid(&mut writer, self);
        let ghost b2 = writer.bits();
        match &self.more_rbsp_data {
            Some(m) => { write_more(&mut writer, m); },
            None => { assert(writer.bits() =~= b2 + Seq::<bool>::empty()); },
        }
        assert(writer.bits() =~= pps_bits(self@));
        writer.write_bits(1, 1);
        proof {
            crate::bitstream::lemma_u32_bits_one();
        }
        writer.finish()
    }
}

} // verus!
