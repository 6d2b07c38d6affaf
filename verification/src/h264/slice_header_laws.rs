//! Laws of the slice header syntax: what is written reads back as itself.

use vstd::prelude::*;
use vstd::arithmetic::power2::pow2;
use crate::bitstream::{u32_bits, ue_bits, se_bits};
use crate::h264::sps::{SpsView, PicOrderCntView};
use crate::h264::pps::{PpsView, lemma_ceil_log2_bound};
use crate::h264::error::Error;
use crate::h264::nal::NalUnitType;
use crate::h264::syntax::{sp_ue, sp_se, sp_u, holds_at, lemma_holds_cat, lemma_flag_at, lemma_u_at, lemma_ue_at,
    lemma_se_at};
use crate::h264::slice_header::{SliceType, ModificationCommand, MvcModificationCommand, ModListView, ModView, RefPicListModView,
    mod_cmd_of, mvc_cmd_of, mod_cmds_spec, mvc_cmds_spec, mod_list_spec, mvc_list_spec, has_l0, ref_mod_spec, mvc_mod_spec,
    mod_cmd_bits, mvc_cmd_bits, mod_cmd_arg, mvc_cmd_arg, mod_cmds_bits, mvc_cmds_bits, mod_list_bits, mvc_list_bits,
    mod_cmds_writable, mvc_cmds_writable, mod_list_writable, mvc_list_writable, ref_mod_bits, mvc_mod_bits, is_mvc_nal,
    rplm_spec, rplm_bits, rplm_writable, WeightEntryView, PredWeightTableView, se_pair_spec,
    weight_entry_spec, weights_spec, pwt_spec, luma_bits, chroma_bits, entry_bits, entries_bits, opt_entries_bits, pwt_bits,
    entry_writable, pwt_writable, MemoryManagementControlOp, DecRefPicMarkingView, mmco_args_spec, mmcos_spec, drpm_spec,
    mmco_bits, mmco_writable, mmcos_bits, mmcos_writable, drpm_bits, drpm_writable, SliceHeaderView, FieldFlags, PicOrderCnt,
    NumRefIdx, DeblockingFilter, slice_type_of, separate_colour_plane, chroma_array_type, sgcc_len, change_rate_minus1,
    map_change_rate_minus1, opt_ue_spec, opt_flag_spec, frame_spec, poc_spec, is_inter, num_ref_idx_spec,
    active_l0, active_l1, has_pwt, sp_qs_spec, deblock_spec, sgcc_spec, field_pic, sh_a_spec,
    sh_b_spec, sh_c1_spec, sh_c2_spec, slice_header_spec, frame_bits, sh_a_bits, poc_bits, nri_bits, sh_b_bits, deblock_bits,
    sgcc_bits, slice_header_bits, header_writable, opt_ue_bits, opt_se_bits, opt_flag_bits, opt_ue_ok, opt_se_ok,
    se_list_ok, sgcc_computable, pic_size_in_map_units, se_list_bits};

verus! {

/// Modification commands and their terminator read back as written.
proof fn lemma_mod_cmds_read(s: Seq<bool>, p: nat, cs: Seq<ModificationCommand>)
    requires
        holds_at(s, p, mod_cmds_bits(cs) + ue_bits(3)),
        mod_cmds_writable(cs),
    ensures
        mod_cmds_spec(s, p) == Ok::<(Seq<ModificationCommand>, nat), Error>((cs, p + (mod_cmds_bits(cs) + ue_bits(3)).len())),
    decreases cs.len(),
{
    if cs.len() == 0 {
        assert(mod_cmds_bits(cs) + ue_bits(3) =~= ue_bits(3));
        lemma_ue_at(s, p, 3);
        assert(cs =~= Seq::<ModificationCommand>::empty());
    } else {
        let c = cs[0];
        let rest = cs.drop_first();
        let idc: u32 = match c {
            ModificationCommand::Idc0 { .. } => 0,
            ModificationCommand::Idc1 { .. } => 1,
            ModificationCommand::Idc2 { .. } => 2,
        };
        let a = mod_cmd_arg(c);
        assert(mod_cmd_bits(c) == ue_bits(idc) + ue_bits(a));
        assert(mod_cmd_of(idc, a) == c);
        let b0 = ue_bits(idc);
        let b1 = ue_bits(a);
        let b2 = mod_cmds_bits(rest) + ue_bits(3);
        assert(mod_cmds_bits(cs) + ue_bits(3) =~= b0 + b1 + b2);
        lemma_holds_cat(s, p, b0 + b1, b2);
        lemma_holds_cat(s, p, b0, b1);
        assert(mod_cmd_arg(cs[0]) < u32::MAX);
        lemma_ue_at(s, p, idc);
        lemma_ue_at(s, p + b0.len(), a);
        assert forall|i: int| 0 <= i < rest.len() implies mod_cmd_arg(#[trigger] rest[i]) < u32::MAX by {
            assert(rest[i] == cs[i + 1]);
        }
        lemma_mod_cmds_read(s, p + b0.len() + b1.len(), rest);
        assert(seq![c] + rest =~= cs);
    }
}

/// MVC modification commands and their terminator read back as written.
proof fn lemma_mvc_cmds_read(s: Seq<bool>, p: nat, cs: Seq<MvcModificationCommand>)
    requires
        holds_at(s, p, mvc_cmds_bits(cs) + ue_bits(3)),
        mvc_cmds_writable(cs),
    ensures
        mvc_cmds_spec(s, p) == Ok::<(Seq<MvcModificationCommand>, nat), Error>((cs, p + (mvc_cmds_bits(cs) + ue_bits(3)).len())),
    decreases cs.len(),
{
    if cs.len() == 0 {
        assert(mvc_cmds_bits(cs) + ue_bits(3) =~= ue_bits(3));
        lemma_ue_at(s, p, 3);
        assert(cs =~= Seq::<MvcModificationCommand>::empty());
    } else {
        let c = cs[0];
        let rest = cs.drop_first();
        let idc: u32 = match c {
            MvcModificationCommand::Idc0 { .. } => 0,
            MvcModificationCommand::Idc1 { .. } => 1,
            MvcModificationCommand::Idc2 { .. } => 2,
            MvcModificationCommand::Idc4 { .. } => 4,
            MvcModificationCommand::Idc5 { .. } => 5,
        };
        let a = mvc_cmd_arg(c);
        assert(mvc_cmd_bits(c) == ue_bits(idc) + ue_bits(a));
        assert(mvc_cmd_of(idc, a) == c);
        let b0 = ue_bits(idc);
        let b1 = ue_bits(a);
        let b2 = mvc_cmds_bits(rest) + ue_bits(3);
        assert(mvc_cmds_bits(cs) + ue_bits(3) =~= b0 + b1 + b2);
        lemma_holds_cat(s, p, b0 + b1, b2);
        lemma_holds_cat(s, p, b0, b1);
        assert(mvc_cmd_arg(cs[0]) < u32::MAX);
        lemma_ue_at(s, p, idc);
        lemma_ue_at(s, p + b0.len(), a);
        assert forall|i: int| 0 <= i < rest.len() implies mvc_cmd_arg(#[trigger] rest[i]) < u32::MAX by {
            assert(rest[i] == cs[i + 1]);
        }
        lemma_mvc_cmds_read(s, p + b0.len() + b1.len(), rest);
        assert(seq![c] + rest =~= cs);
    }
}

/// An optional modification list that reads back: present exactly when
/// the slice has the list, and without commands when its flag is clear.
pub open spec fn mod_list_readable<C>(l: Option<ModListView<C>>, present: bool) -> bool {
    &&& (l is Some <==> present)
    &&& (l matches Some(x) ==> (!x.flag ==> x.commands.len() == 0))
}

/// The modification lists that read back for a slice of type `st`.
pub open spec fn mod_view_readable<C>(m: ModView<C>, st: SliceType) -> bool {
    mod_list_readable(m.l0, has_l0(st)) && mod_list_readable(m.l1, st == SliceType::B)
}

/// What reading a list modification back needs in a NAL unit of type `t`:
/// the MVC form exactly in MVC units, and lists that read back.
pub open spec fn rplm_readable(v: RefPicListModView, st: SliceType, t: NalUnitType) -> bool {
    &&& rplm_writable(v)
    &&& match v {
        RefPicListModView::MvcModification(m) => is_mvc_nal(t) && mod_view_readable(m, st),
        RefPicListModView::Modification(m) => !is_mvc_nal(t) && mod_view_readable(m, st),
    }
}

/// One modification list reads back as written.
proof fn lemma_mod_list_read(s: Seq<bool>, p: nat, l: ModListView<ModificationCommand>)
    requires
        holds_at(s, p, mod_list_bits(Some(l))),
        mod_cmds_writable(l.commands),
        !l.flag ==> l.commands.len() == 0,
    ensures
        mod_list_spec(s, p) == Ok::<(ModListView<ModificationCommand>, nat), Error>((l, p + mod_list_bits(Some(l)).len())),
{
    if l.flag {
        let b = mod_cmds_bits(l.commands) + ue_bits(3);
        assert(mod_list_bits(Some(l)) =~= seq![true] + b);
        lemma_holds_cat(s, p, seq![true], b);
        lemma_flag_at(s, p, true);
        lemma_mod_cmds_read(s, p + 1, l.commands);
    } else {
        lemma_flag_at(s, p, false);
        assert(l.commands =~= Seq::<ModificationCommand>::empty());
    }
}

/// One MVC modification list reads back as written.
proof fn lemma_mvc_list_read(s: Seq<bool>, p: nat, l: ModListView<MvcModificationCommand>)
    requires
        holds_at(s, p, mvc_list_bits(Some(l))),
        mvc_cmds_writable(l.commands),
        !l.flag ==> l.commands.len() == 0,
    ensures
        mvc_list_spec(s, p) == Ok::<(ModListView<MvcModificationCommand>, nat), Error>((l, p + mvc_list_bits(Some(l)).len())),
{
    if l.flag {
        let b = mvc_cmds_bits(l.commands) + ue_bits(3);
        assert(mvc_list_bits(Some(l)) =~= seq![true] + b);
        lemma_holds_cat(s, p, seq![true], b);
        lemma_flag_at(s, p, true);
        lemma_mvc_cmds_read(s, p + 1, l.commands);
    } else {
        lemma_flag_at(s, p, false);
        assert(l.commands =~= Seq::<MvcModificationCommand>::empty());
    }
}

/// The modification lists of a slice read back as written.
proof fn lemma_ref_mod_read(s: Seq<bool>, p: nat, m: ModView<ModificationCommand>, st: SliceType)
    requires
        holds_at(s, p, ref_mod_bits(m)),
        mod_view_readable(m, st),
        mod_list_writable(m.l0) && mod_list_writable(m.l1),
    ensures
        ref_mod_spec(s, p, st) == Ok::<(ModView<ModificationCommand>, nat), Error>((m, p + ref_mod_bits(m).len())),
{
    let b0 = mod_list_bits(m.l0);
    let b1 = mod_list_bits(m.l1);
    lemma_holds_cat(s, p, b0, b1);
    if let Some(l) = m.l0 {
        lemma_mod_list_read(s, p, l);
    }
    if let Some(l) = m.l1 {
        lemma_mod_list_read(s, p + b0.len(), l);
    }
}

/// The MVC modification lists of a slice read back as written.
proof fn lemma_mvc_mod_read(s: Seq<bool>, p: nat, m: ModView<MvcModificationCommand>, st: SliceType)
    requires
        holds_at(s, p, mvc_mod_bits(m)),
        mod_view_readable(m, st),
        mvc_list_writable(m.l0) && mvc_list_writable(m.l1),
    ensures
        mvc_mod_spec(s, p, st) == Ok::<(ModView<MvcModificationCommand>, nat), Error>((m, p + mvc_mod_bits(m).len())),
{
    let b0 = mvc_list_bits(m.l0);
    let b1 = mvc_list_bits(m.l1);
    lemma_holds_cat(s, p, b0, b1);
    if let Some(l) = m.l0 {
        lemma_mvc_list_read(s, p, l);
    }
    if let Some(l) = m.l1 {
        lemma_mvc_list_read(s, p + b0.len(), l);
    }
}

/// The list modification reads back as written.
pub proof fn lemma_rplm_read(s: Seq<bool>, p: nat, v: RefPicListModView, st: SliceType, t: NalUnitType)
    requires
        holds_at(s, p, rplm_bits(v)),
        rplm_readable(v, st, t),
    ensures
        rplm_spec(s, p, st, t) == Ok::<(RefPicListModView, nat), Error>((v, p + rplm_bits(v).len())),
{
    match v {
        RefPicListModView::MvcModification(m) => lemma_mvc_mod_read(s, p, m, st),
        RefPicListModView::Modification(m) => lemma_ref_mod_read(s, p, m, st),
    }
}

/// What reading a weight entry back needs: writable values, the luma
/// weight and offset exactly with the luma flag, and the chroma flag
/// exactly with chroma, the chroma weights exactly when it is set.
pub open spec fn entry_readable(e: WeightEntryView, chroma: bool) -> bool {
    &&& entry_writable(e)
    &&& (e.luma_weight is Some <==> e.luma_weight_flag)
    &&& (e.luma_offset is Some <==> e.luma_weight_flag)
    &&& (e.chroma_weight_flag is Some <==> chroma)
    &&& (e.chroma_weight is Some <==> e.chroma_weight_flag == Some(true))
}

/// A weight and an offset read back as written.
proof fn lemma_se_pair_read(s: Seq<bool>, p: nat, w: i32, o: i32)
    requires
        holds_at(s, p, se_bits(w) + se_bits(o)),
        w > i32::MIN && o > i32::MIN,
    ensures
        se_pair_spec(s, p) == Ok::<((i32, i32), nat), Error>(((w, o), p + (se_bits(w) + se_bits(o)).len())),
{
    lemma_holds_cat(s, p, se_bits(w), se_bits(o));
    lemma_se_at(s, p, w);
    lemma_se_at(s, p + se_bits(w).len(), o);
}

/// A weight entry reads back as written.
#[verifier::spinoff_prover]
#[verifier::rlimit(40)]
proof fn lemma_entry_read(s: Seq<bool>, p: nat, e: WeightEntryView, chroma: bool)
    requires
        holds_at(s, p, entry_bits(e)),
        entry_readable(e, chroma),
    ensures
        weight_entry_spec(s, p, chroma) == Ok::<(WeightEntryView, nat), Error>((e, p + entry_bits(e).len())),
{
    let b0 = seq![e.luma_weight_flag];
    let b1 = luma_bits(e);
    let b2 = chroma_bits(e);
    lemma_holds_cat(s, p, b0 + b1, b2);
    lemma_holds_cat(s, p, b0, b1);
    lemma_flag_at(s, p, e.luma_weight_flag);
    if e.luma_weight_flag {
        lemma_se_pair_read(s, p + 1, e.luma_weight->Some_0, e.luma_offset->Some_0);
    }
    let q = p + 1 + b1.len();
    if chroma {
        let f = e.chroma_weight_flag->Some_0;
        let cr = match e.chroma_weight {
            Some(c) => se_bits(c[0].0) + se_bits(c[0].1) + se_bits(c[1].0) + se_bits(c[1].1),
            None => Seq::<bool>::empty(),
        };
        assert(b2 =~= seq![f] + cr);
        lemma_holds_cat(s, q, seq![f], cr);
        lemma_flag_at(s, q, f);
        if f {
            let c = e.chroma_weight->Some_0;
            let c0 = se_bits(c[0].0) + se_bits(c[0].1);
            let c1 = se_bits(c[1].0) + se_bits(c[1].1);
            assert(b2 =~= seq![f] + c0 + c1);
            lemma_holds_cat(s, q, seq![f] + c0, c1);
            lemma_holds_cat(s, q, seq![f], c0);
            lemma_se_pair_read(s, q + 1, c[0].0, c[0].1);
            lemma_se_pair_read(s, q + 1 + c0.len(), c[1].0, c[1].1);
            assert(seq![(c[0].0, c[0].1), (c[1].0, c[1].1)] =~= c);
        }
    }
}

/// Weight entries read back as written.
#[verifier::spinoff_prover]
#[verifier::rlimit(60)]
proof fn lemma_entries_read(s: Seq<bool>, p: nat, es: Seq<WeightEntryView>, chroma: bool)
    requires
        holds_at(s, p, entries_bits(es)),
        forall|i: int| 0 <= i < es.len() ==> entry_readable(#[trigger] es[i], chroma),
    ensures
        weights_spec(s, p, es.len(), chroma) == Ok::<(Seq<WeightEntryView>, nat), Error>((es, p + entries_bits(es).len())),
    decreases es.len(),
{
    if es.len() == 0 {
        assert(es =~= Seq::<WeightEntryView>::empty());
    } else {
        let rest = es.drop_first();
        lemma_holds_cat(s, p, entry_bits(es[0]), entries_bits(rest));
        lemma_entry_read(s, p, es[0], chroma);
        assert forall|i: int| 0 <= i < rest.len() implies entry_readable(#[trigger] rest[i], chroma) by {
            assert(rest[i] == es[i + 1]);
        }
        lemma_entries_read(s, p + entry_bits(es[0]).len(), rest, chroma);
        assert(seq![es[0]] + rest =~= es);
        assert((es.len() - 1) as nat == rest.len());
    }
}

/// What reading a prediction weight table back needs: writable values,
/// the chroma denominator exactly with chroma, `num_l0 + 1` entries for
/// list 0 and, exactly in a B slice, `num_l1 + 1` for list 1, each
/// readable.
pub open spec fn pwt_readable(v: PredWeightTableView, chroma_array_type: u8, num_l0: u32, num_l1: u32, is_b: bool) -> bool {
    &&& pwt_writable(v)
    &&& (v.chroma_log2_weight_denom is Some <==> chroma_array_type != 0)
    &&& v.l0 is Some && v.l0->Some_0.len() == num_l0 + 1
    &&& forall|i: int| 0 <= i < v.l0->Some_0.len() ==> entry_readable(#[trigger] v.l0->Some_0[i], chroma_array_type != 0)
    &&& (v.l1 is Some <==> is_b)
    &&& (v.l1 matches Some(l1) ==> l1.len() == num_l1 + 1
        && forall|i: int| 0 <= i < l1.len() ==> entry_readable(#[trigger] l1[i], chroma_array_type != 0))
}

/// A prediction weight table reads back as written.
#[verifier::spinoff_prover]
#[verifier::rlimit(40)]
pub proof fn lemma_pwt_read(s: Seq<bool>, p: nat, v: PredWeightTableView, chroma_array_type: u8, num_l0: u32, num_l1: u32,
    is_b: bool)
    requires
        holds_at(s, p, pwt_bits(v)),
        pwt_readable(v, chroma_array_type, num_l0, num_l1, is_b),
    ensures
        pwt_spec(s, p, chroma_array_type, num_l0, num_l1, is_b) == Ok::<(PredWeightTableView, nat), Error>((v,
            p + pwt_bits(v).len())),
{
    let b0 = ue_bits(v.luma_log2_weight_denom);
    let b1 = match v.chroma_log2_weight_denom {
        Some(d) => ue_bits(d),
        None => Seq::<bool>::empty(),
    };
    let b2 = opt_entries_bits(v.l0);
    let b3 = opt_entries_bits(v.l1);
    lemma_holds_cat(s, p, b0 + b1 + b2, b3);
    lemma_holds_cat(s, p, b0 + b1, b2);
    lemma_holds_cat(s, p, b0, b1);
    lemma_ue_at(s, p, v.luma_log2_weight_denom);
    if let Some(d) = v.chroma_log2_weight_denom {
        lemma_ue_at(s, p + b0.len(), d);
    }
    lemma_entries_read(s, p + b0.len() + b1.len(), v.l0->Some_0, chroma_array_type != 0);
    if let Some(l1) = v.l1 {
        lemma_entries_read(s, p + b0.len() + b1.len() + b2.len(), l1, chroma_array_type != 0);
    }
}

/// The number of a memory management operation.
pub open spec fn mmco_op(c: MemoryManagementControlOp) -> u32 {
    match c {
        MemoryManagementControlOp::Mmco1 { .. } => 1,
        MemoryManagementControlOp::Mmco2 { .. } => 2,
        MemoryManagementControlOp::Mmco3 { .. } => 3,
        MemoryManagementControlOp::Mmco4 { .. } => 4,
        MemoryManagementControlOp::Mmco5 => 5,
        MemoryManagementControlOp::Mmco6 { .. } => 6,
    }
}

/// One operation reads back as written: its number, then its arguments.
proof fn lemma_mmco_read(s: Seq<bool>, p: nat, c: MemoryManagementControlOp)
    requires
        holds_at(s, p, mmco_bits(c)),
        mmco_writable(c),
    ensures
        sp_ue(s, p) == Ok::<(u32, nat), Error>((mmco_op(c), p + ue_bits(mmco_op(c)).len())),
        mmco_args_spec(s, p + ue_bits(mmco_op(c)).len(), mmco_op(c)) == Ok::<(MemoryManagementControlOp, nat), Error>((c,
            p + mmco_bits(c).len())),
{
    let b0 = ue_bits(mmco_op(c));
    let q = p + b0.len();
    match c {
        MemoryManagementControlOp::Mmco3 { difference_of_pic_nums_minus1: a, long_term_frame_idx: b } => {
            lemma_holds_cat(s, p, b0 + ue_bits(a), ue_bits(b));
            lemma_holds_cat(s, p, b0, ue_bits(a));
            lemma_ue_at(s, p, 3);
            lemma_ue_at(s, q, a);
            lemma_ue_at(s, q + ue_bits(a).len(), b);
        },
        MemoryManagementControlOp::Mmco5 => {
            lemma_ue_at(s, p, 5);
        },
        MemoryManagementControlOp::Mmco1 { difference_of_pic_nums_minus1: a } => {
            lemma_holds_cat(s, p, b0, ue_bits(a));
            lemma_ue_at(s, p, 1);
            lemma_ue_at(s, q, a);
        },
        MemoryManagementControlOp::Mmco2 { long_term_pic_num: a } => {
            lemma_holds_cat(s, p, b0, ue_bits(a));
            lemma_ue_at(s, p, 2);
            lemma_ue_at(s, q, a);
        },
        MemoryManagementControlOp::Mmco4 { max_long_term_frame_idx_plus1: a } => {
            lemma_holds_cat(s, p, b0, ue_bits(a));
            lemma_ue_at(s, p, 4);
            lemma_ue_at(s, q, a);
        },
        MemoryManagementControlOp::Mmco6 { long_term_frame_idx: a } => {
            lemma_holds_cat(s, p, b0, ue_bits(a));
            lemma_ue_at(s, p, 6);
            lemma_ue_at(s, q, a);
        },
    }
}

/// Operations and their terminator read back as written.
proof fn lemma_mmcos_read(s: Seq<bool>, p: nat, cs: Seq<MemoryManagementControlOp>)
    requires
        holds_at(s, p, mmcos_bits(cs) + ue_bits(0)),
        mmcos_writable(cs),
    ensures
        mmcos_spec(s, p) == Ok::<(Seq<MemoryManagementControlOp>, nat), Error>((cs, p + (mmcos_bits(cs) + ue_bits(0)).len())),
    decreases cs.len(),
{
    if cs.len() == 0 {
        assert(mmcos_bits(cs) + ue_bits(0) =~= ue_bits(0));
        lemma_ue_at(s, p, 0);
        assert(cs =~= Seq::<MemoryManagementControlOp>::empty());
    } else {
        let c = cs[0];
        let rest = cs.drop_first();
        let b2 = mmcos_bits(rest) + ue_bits(0);
        assert(mmcos_bits(cs) + ue_bits(0) =~= mmco_bits(c) + b2);
        lemma_holds_cat(s, p, mmco_bits(c), b2);
        assert(mmco_writable(cs[0]));
        lemma_mmco_read(s, p, c);
        assert forall|i: int| 0 <= i < rest.len() implies mmco_writable(#[trigger] rest[i]) by {
            assert(rest[i] == cs[i + 1]);
        }
        lemma_mmcos_read(s, p + mmco_bits(c).len(), rest);
        assert(seq![c] + rest =~= cs);
    }
}

/// What reading the reference picture marking back needs: the IDR form
/// exactly for IDR pictures, and operations exactly with the adaptive flag.
pub open spec fn drpm_readable(v: DecRefPicMarkingView, is_idr: bool) -> bool {
    &&& drpm_writable(v)
    &&& match v {
        DecRefPicMarkingView::Idr { .. } => is_idr,
        DecRefPicMarkingView::NonIdr { adaptive_ref_pic_marking_mode_flag: f, commands: c } => !is_idr && (c is Some <==> f),
    }
}

/// The reference picture marking reads back as written.
pub proof fn lemma_drpm_read(s: Seq<bool>, p: nat, v: DecRefPicMarkingView, is_idr: bool)
    requires
        holds_at(s, p, drpm_bits(v)),
        drpm_readable(v, is_idr),
    ensures
        drpm_spec(s, p, is_idr) == Ok::<(DecRefPicMarkingView, nat), Error>((v, p + drpm_bits(v).len())),
{
    match v {
        DecRefPicMarkingView::Idr { no_output_of_prior_pics_flag: a, long_term_reference_flag: b } => {
            assert(drpm_bits(v) =~= seq![a] + seq![b]);
            lemma_holds_cat(s, p, seq![a], seq![b]);
            lemma_flag_at(s, p, a);
            lemma_flag_at(s, p + 1, b);
        },
        DecRefPicMarkingView::NonIdr { adaptive_ref_pic_marking_mode_flag: f, commands: c } => {
            if f {
                let cs = c->Some_0;
                let b = mmcos_bits(cs) + ue_bits(0);
                assert(drpm_bits(v) =~= seq![true] + b);
                lemma_holds_cat(s, p, seq![true], b);
                lemma_flag_at(s, p, true);
                lemma_mmcos_read(s, p + 1, cs);
            } else {
                lemma_flag_at(s, p, false);
            }
        },
    }
}

/// What reading the colour plane, frame number and field flags back needs:
/// the plane exactly with separate colour planes, below 4; a frame number
/// within its bits; the field flags exactly without `frame_mbs_only_flag`,
/// the bottom field flag exactly for a field picture.
pub open spec fn frame_readable(v: SliceHeaderView, sps: SpsView) -> bool {
    &&& (v.colour_plane_id is Some <==> separate_colour_plane(sps))
    &&& (v.colour_plane_id matches Some(c) ==> c < 4)
    &&& sps.log2_max_frame_num_minus4 + 4 <= 32
    &&& (v.frame_num as nat) < pow2((sps.log2_max_frame_num_minus4 + 4) as nat)
    &&& (v.field_flags is Some <==> !sps.frame_mbs_only_flag)
    &&& (v.field_flags matches Some(f) ==> (f.bottom_field_flag is Some <==> f.field_pic_flag))
}

/// The colour plane, frame number and field flags read back as written.
#[verifier::spinoff_prover]
#[verifier::rlimit(40)]
proof fn lemma_frame_read(s: Seq<bool>, p: nat, v: SliceHeaderView, sps: SpsView)
    requires
        holds_at(s, p, frame_bits(v, sps)),
        frame_readable(v, sps),
    ensures
        frame_spec(s, p, sps) == Ok::<((Option<u8>, u16, Option<FieldFlags>), nat), Error>(((v.colour_plane_id, v.frame_num,
            v.field_flags), p + frame_bits(v, sps).len())),
{
    vstd::arithmetic::power2::lemma2_to64();
    let n = (sps.log2_max_frame_num_minus4 + 4) as nat;
    let b0 = match v.colour_plane_id {
        Some(c) => u32_bits(c as u32, 2),
        None => Seq::<bool>::empty(),
    };
    let b1 = u32_bits(v.frame_num as u32, n);
    let b2 = match v.field_flags {
        Some(f) => seq![f.field_pic_flag] + opt_flag_bits(f.bottom_field_flag),
        None => Seq::<bool>::empty(),
    };
    assert(frame_bits(v, sps) == b0 + b1 + b2);
    lemma_holds_cat(s, p, b0 + b1, b2);
    lemma_holds_cat(s, p, b0, b1);
    if let Some(c) = v.colour_plane_id {
        lemma_u_at(s, p, c as u32, 2);
    }
    lemma_u_at(s, p + b0.len(), v.frame_num as u32, n);
    if let Some(f) = v.field_flags {
        let q = p + b0.len() + n;
        lemma_holds_cat(s, q, seq![f.field_pic_flag], opt_flag_bits(f.bottom_field_flag));
        lemma_flag_at(s, q, f.field_pic_flag);
        if let Some(b) = f.bottom_field_flag {
            lemma_flag_at(s, q + 1, b);
        }
    }
}

/// What reading the first part back needs, in a NAL unit of type `t`.
pub open spec fn sh_a_readable(v: SliceHeaderView, sps: SpsView, t: NalUnitType) -> bool {
    &&& v.first_mb_in_slice < u32::MAX && v.slice_type < u32::MAX && v.pic_parameter_set_id < u32::MAX
    &&& frame_readable(v, sps)
    &&& (v.idr_pic_id is Some <==> t == NalUnitType::IDR)
    &&& opt_ue_ok(v.idr_pic_id)
}

/// The first part of a slice header reads back as written.
#[verifier::spinoff_prover]
#[verifier::rlimit(60)]
proof fn lemma_sh_a_read(s: Seq<bool>, p: nat, v: SliceHeaderView, sps: SpsView, t: NalUnitType)
    requires
        holds_at(s, p, sh_a_bits(v, sps)),
        sh_a_readable(v, sps, t),
    ensures
        sh_a_spec(s, p, sps, t == NalUnitType::IDR) == Ok::<((u32, u32, u32, (Option<u8>, u16, Option<FieldFlags>), Option<u32>), nat), Error>((
            (v.first_mb_in_slice, v.slice_type, v.pic_parameter_set_id, (v.colour_plane_id, v.frame_num, v.field_flags),
            v.idr_pic_id), p + sh_a_bits(v, sps).len())),
{
    let b0 = ue_bits(v.first_mb_in_slice);
    let b1 = ue_bits(v.slice_type);
    let b2 = ue_bits(v.pic_parameter_set_id);
    let b3 = frame_bits(v, sps);
    let b4 = opt_ue_bits(v.idr_pic_id);
    lemma_holds_cat(s, p, b0 + b1 + b2 + b3, b4);
    lemma_holds_cat(s, p, b0 + b1 + b2, b3);
    lemma_holds_cat(s, p, b0 + b1, b2);
    lemma_holds_cat(s, p, b0, b1);
    lemma_ue_at(s, p, v.first_mb_in_slice);
    lemma_ue_at(s, p + b0.len(), v.slice_type);
    lemma_ue_at(s, p + b0.len() + b1.len(), v.pic_parameter_set_id);
    lemma_frame_read(s, p + b0.len() + b1.len() + b2.len(), v, sps);
    if let Some(x) = v.idr_pic_id {
        lemma_ue_at(s, p + b0.len() + b1.len() + b2.len() + b3.len(), x);
    }
}

/// What reading the picture order count fields back needs: for type 0 the
/// LSB within its bits and the bottom delta exactly when the PPS asks for
/// it outside field pictures; for type 1 without the always-zero flag one
/// delta, two under that condition; nothing else.
pub open spec fn poc_readable(v: SliceHeaderView, sps: SpsView, pps: PpsView) -> bool {
    let second = pps.bottom_field_pic_order_in_frame_present_flag && !field_pic(v.field_flags);
    &&& (v.delta_pic_order_cnt matches Some(d) ==> se_list_ok(d))
    &&& match sps.pic_order_cnt {
        PicOrderCntView::Type0 { log2_max_pic_order_cnt_lsb_minus4: l } => {
            &&& v.pic_order_cnt is Some
            &&& l + 4 <= 32
            &&& (v.pic_order_cnt->Some_0.pic_order_cnt_lsb as nat) < pow2((l + 4) as nat)
            &&& (v.pic_order_cnt->Some_0.delta_pic_order_cnt_bottom is Some <==> second)
            &&& opt_se_ok(v.pic_order_cnt->Some_0.delta_pic_order_cnt_bottom)
            &&& v.delta_pic_order_cnt is None
        },
        PicOrderCntView::Type1 { delta_pic_order_always_zero_flag: z, .. } => {
            &&& v.pic_order_cnt is None
            &&& (v.delta_pic_order_cnt is Some <==> !z)
            &&& (v.delta_pic_order_cnt matches Some(d) ==> d.len() == if second { 2nat } else { 1nat })
        },
        PicOrderCntView::Type2 => v.pic_order_cnt is None && v.delta_pic_order_cnt is None,
    }
}

/// The picture order count fields read back as written.
#[verifier::spinoff_prover]
#[verifier::rlimit(40)]
proof fn lemma_poc_read(s: Seq<bool>, p: nat, v: SliceHeaderView, sps: SpsView, pps: PpsView)
    requires
        holds_at(s, p, poc_bits(v, sps)),
        poc_readable(v, sps, pps),
    ensures
        poc_spec(s, p, sps, pps, field_pic(v.field_flags)) == Ok::<((Option<PicOrderCnt>, Option<Seq<i32>>), nat), Error>((
            (v.pic_order_cnt, v.delta_pic_order_cnt), p + poc_bits(v, sps).len())),
{
    match sps.pic_order_cnt {
        PicOrderCntView::Type0 { log2_max_pic_order_cnt_lsb_minus4: l } => {
            let poc = v.pic_order_cnt->Some_0;
            let b0 = u32_bits(poc.pic_order_cnt_lsb, (l + 4) as nat);
            let b1 = opt_se_bits(poc.delta_pic_order_cnt_bottom);
            assert(poc_bits(v, sps) =~= b0 + b1);
            lemma_holds_cat(s, p, b0, b1);
            lemma_u_at(s, p, poc.pic_order_cnt_lsb, (l + 4) as nat);
            if let Some(d) = poc.delta_pic_order_cnt_bottom {
                lemma_se_at(s, p + b0.len(), d);
            }
        },
        PicOrderCntView::Type1 { delta_pic_order_always_zero_flag: z, .. } => {
            assert(v.pic_order_cnt is None);
            if let Some(d) = v.delta_pic_order_cnt {
                let a = match (v.pic_order_cnt, sps.pic_order_cnt) {
                    (Some(poc), PicOrderCntView::Type0 { log2_max_pic_order_cnt_lsb_minus4: l }) =>
                        u32_bits(poc.pic_order_cnt_lsb, (l + 4) as nat) + opt_se_bits(poc.delta_pic_order_cnt_bottom),
                    _ => Seq::<bool>::empty(),
                };
                assert(a == Seq::<bool>::empty());
                assert(poc_bits(v, sps) =~= se_list_bits(d));
                assert(d[0] > i32::MIN);
                let e = d.drop_first();
                if d.len() == 1 {
                    assert(se_list_bits(e) == Seq::<bool>::empty());
                    assert(poc_bits(v, sps) =~= se_bits(d[0]));
                    lemma_se_at(s, p, d[0]);
                    assert(seq![d[0]] =~= d);
                } else {
                    assert(d[1] > i32::MIN);
                    assert(se_list_bits(e.drop_first()) == Seq::<bool>::empty());
                    assert(e[0] == d[1]);
                    assert(se_list_bits(e) =~= se_bits(d[1]));
                    assert(poc_bits(v, sps) =~= se_bits(d[0]) + se_bits(d[1]));
                    lemma_holds_cat(s, p, se_bits(d[0]), se_bits(d[1]));
                    lemma_se_at(s, p, d[0]);
                    lemma_se_at(s, p + se_bits(d[0]).len(), d[1]);
                    assert(seq![d[0], d[1]] =~= d);
                }
            } else {
                assert(poc_bits(v, sps) =~= Seq::<bool>::empty());
            }
        },
        PicOrderCntView::Type2 => {
            assert(poc_bits(v, sps) =~= Seq::<bool>::empty());
        },
    }
}

/// What reading the reference index override back needs: present exactly
/// for P, SP and B slices, the list 0 count exactly with the override flag,
/// the list 1 count exactly with it in a B slice.
pub open spec fn nri_readable(v: SliceHeaderView, st: SliceType) -> bool {
    &&& (v.num_ref_idx is Some <==> is_inter(st))
    &&& (v.num_ref_idx matches Some(n) ==> {
        &&& (n.num_ref_idx_l0_active_minus1 is Some <==> n.num_ref_idx_active_override_flag)
        &&& (n.num_ref_idx_l1_active_minus1 is Some <==> (n.num_ref_idx_active_override_flag && st == SliceType::B))
        &&& opt_ue_ok(n.num_ref_idx_l0_active_minus1) && opt_ue_ok(n.num_ref_idx_l1_active_minus1)
    })
}

/// The reference index override reads back as written.
proof fn lemma_nri_read(s: Seq<bool>, p: nat, v: SliceHeaderView)
    requires
        holds_at(s, p, nri_bits(v)),
        nri_readable(v, slice_type_of(v.slice_type)),
    ensures
        num_ref_idx_spec(s, p, slice_type_of(v.slice_type)) == Ok::<(Option<NumRefIdx>, nat), Error>((v.num_ref_idx,
            p + nri_bits(v).len())),
{
    if let Some(n) = v.num_ref_idx {
        let b0 = seq![n.num_ref_idx_active_override_flag];
        let b1 = opt_ue_bits(n.num_ref_idx_l0_active_minus1);
        let b2 = opt_ue_bits(n.num_ref_idx_l1_active_minus1);
        assert(nri_bits(v) == b0 + b1 + b2);
        lemma_holds_cat(s, p, b0 + b1, b2);
        lemma_holds_cat(s, p, b0, b1);
        lemma_flag_at(s, p, n.num_ref_idx_active_override_flag);
        if let Some(x) = n.num_ref_idx_l0_active_minus1 {
            lemma_ue_at(s, p + 1, x);
        }
        if let Some(x) = n.num_ref_idx_l1_active_minus1 {
            lemma_ue_at(s, p + 1 + b1.len(), x);
        }
    }
}

/// What reading the second part back needs, in a NAL unit of type `t`.
pub open spec fn sh_b_readable(v: SliceHeaderView, sps: SpsView, pps: PpsView, t: NalUnitType) -> bool {
    let st = slice_type_of(v.slice_type);
    &&& poc_readable(v, sps, pps)
    &&& (v.redundant_pic_cnt is Some <==> pps.redundant_pic_cnt_present_flag)
    &&& opt_ue_ok(v.redundant_pic_cnt)
    &&& (v.direct_spatial_mv_pred_flag is Some <==> st == SliceType::B)
    &&& nri_readable(v, st)
    &&& rplm_readable(v.ref_pic_list_mod, st, t)
}

/// The second part of a slice header read from the outcome of its fields.
#[verifier::spinoff_prover]
proof fn lemma_sh_b_compose(s: Seq<bool>, p: nat, sps: SpsView, pps: PpsView, ff: Option<FieldFlags>, st: SliceType,
    t: NalUnitType, poc: (Option<PicOrderCnt>, Option<Seq<i32>>), red: Option<u32>, direct: Option<bool>,
    nri: Option<NumRefIdx>, rplm: RefPicListModView, p1: nat, p2: nat, p3: nat, p4: nat, q: nat)
    requires
        poc_spec(s, p, sps, pps, field_pic(ff)) == Ok::<((Option<PicOrderCnt>, Option<Seq<i32>>), nat), Error>((poc, p1)),
        opt_ue_spec(s, p1, pps.redundant_pic_cnt_present_flag) == Ok::<(Option<u32>, nat), Error>((red, p2)),
        opt_flag_spec(s, p2, st == SliceType::B) == Ok::<(Option<bool>, nat), Error>((direct, p3)),
        num_ref_idx_spec(s, p3, st) == Ok::<(Option<NumRefIdx>, nat), Error>((nri, p4)),
        rplm_spec(s, p4, st, t) == Ok::<(RefPicListModView, nat), Error>((rplm, q)),
    ensures
        sh_b_spec(s, p, sps, pps, ff, st, t) == Ok::<(((Option<PicOrderCnt>, Option<Seq<i32>>), Option<u32>, Option<bool>,
            Option<NumRefIdx>, RefPicListModView), nat), Error>(((poc, red, direct, nri, rplm), q)),
{
}

/// The second part of a slice header reads back as written.
#[verifier::spinoff_prover]
#[verifier::rlimit(60)]
proof fn lemma_sh_b_read(s: Seq<bool>, p: nat, v: SliceHeaderView, sps: SpsView, pps: PpsView, t: NalUnitType)
    requires
        holds_at(s, p, sh_b_bits(v, sps)),
        sh_b_readable(v, sps, pps, t),
    ensures
        sh_b_spec(s, p, sps, pps, v.field_flags, slice_type_of(v.slice_type), t) == Ok::<(((Option<PicOrderCnt>, Option<Seq<i32>>),
            Option<u32>, Option<bool>, Option<NumRefIdx>, RefPicListModView), nat), Error>((((v.pic_order_cnt,
            v.delta_pic_order_cnt), v.redundant_pic_cnt, v.direct_spatial_mv_pred_flag, v.num_ref_idx, v.ref_pic_list_mod),
            p + sh_b_bits(v, sps).len())),
{
    let st = slice_type_of(v.slice_type);
    let b0 = poc_bits(v, sps);
    let b1 = opt_ue_bits(v.redundant_pic_cnt);
    let b2 = if st == SliceType::B { opt_flag_bits(v.direct_spatial_mv_pred_flag) } else { Seq::<bool>::empty() };
    let b3 = nri_bits(v);
    let b4 = rplm_bits(v.ref_pic_list_mod);
    let p1 = p + b0.len();
    let p2 = p1 + b1.len();
    let p3 = p2 + b2.len();
    let p4 = p3 + b3.len();
    assert(holds_at(s, p, b0) && holds_at(s, p1, b1) && holds_at(s, p2, b2) && holds_at(s, p3, b3) && holds_at(s, p4, b4)
        && sh_b_bits(v, sps).len() == b0.len() + b1.len() + b2.len() + b3.len() + b4.len()) by {
        assert(sh_b_bits(v, sps) == b0 + b1 + b2 + b3 + b4);
        lemma_holds_cat(s, p, b0 + b1 + b2 + b3, b4);
        lemma_holds_cat(s, p, b0 + b1 + b2, b3);
        lemma_holds_cat(s, p, b0 + b1, b2);
        lemma_holds_cat(s, p, b0, b1);
    }
    lemma_poc_read(s, p, v, sps, pps);
    assert(opt_ue_spec(s, p1, pps.redundant_pic_cnt_present_flag) == Ok::<(Option<u32>, nat), Error>((v.redundant_pic_cnt, p2))) by {
        if let Some(x) = v.redundant_pic_cnt {
            lemma_ue_at(s, p1, x);
        }
    }
    assert(opt_flag_spec(s, p2, st == SliceType::B) == Ok::<(Option<bool>, nat), Error>((v.direct_spatial_mv_pred_flag, p3))) by {
        if let Some(x) = v.direct_spatial_mv_pred_flag {
            lemma_flag_at(s, p2, x);
        }
    }
    lemma_nri_read(s, p3, v);
    lemma_rplm_read(s, p4, v.ref_pic_list_mod, st, t);
    lemma_sh_b_compose(s, p, sps, pps, v.field_flags, st, t, (v.pic_order_cnt, v.delta_pic_order_cnt), v.redundant_pic_cnt,
        v.direct_spatial_mv_pred_flag, v.num_ref_idx, v.ref_pic_list_mod, p1, p2, p3, p4, p4 + b4.len());
}

/// The bits of the prediction weight table, when present.
pub open spec fn opt_pwt_bits(v: SliceHeaderView) -> Seq<bool> {
    match v.pred_weight_table {
        Some(w) => pwt_bits(w),
        None => Seq::empty(),
    }
}

/// The bits of the reference picture marking, when present.
pub open spec fn opt_drpm_bits(v: SliceHeaderView) -> Seq<bool> {
    match v.dec_ref_pic_marking {
        Some(m) => drpm_bits(m),
        None => Seq::empty(),
    }
}

/// The bits of the last part of a slice header after the weight table and
/// the marking.
pub open spec fn sh_c2_bits(v: SliceHeaderView, sps: SpsView, pps: PpsView) -> Seq<bool> {
    opt_ue_bits(v.cabac_init_idc) + se_bits(v.slice_qp_delta) + opt_flag_bits(v.sp_for_switch_flag)
        + opt_se_bits(v.slice_qs_delta) + deblock_bits(v.deblocking_filter) + sgcc_bits(v, sps, pps)
}

/// What reading the weight table and the marking back needs, in a NAL
/// unit of type `t` with `nal_ref_idc`.
pub open spec fn sh_c1_readable(v: SliceHeaderView, sps: SpsView, pps: PpsView, t: NalUnitType, nal_ref_idc: u8) -> bool {
    let st = slice_type_of(v.slice_type);
    &&& (v.pred_weight_table is Some <==> has_pwt(pps, st))
    &&& (v.pred_weight_table matches Some(w) ==> pwt_readable(w, chroma_array_type(sps), active_l0(v.num_ref_idx, pps),
        active_l1(v.num_ref_idx, pps), st == SliceType::B))
    &&& (v.dec_ref_pic_marking is Some <==> nal_ref_idc != 0)
    &&& (v.dec_ref_pic_marking matches Some(m) ==> drpm_readable(m, t == NalUnitType::IDR))
}

/// The weight table and the marking read back as written.
proof fn lemma_sh_c1_read(s: Seq<bool>, p: nat, v: SliceHeaderView, sps: SpsView, pps: PpsView, t: NalUnitType, nal_ref_idc: u8)
    requires
        holds_at(s, p, opt_pwt_bits(v) + opt_drpm_bits(v)),
        sh_c1_readable(v, sps, pps, t, nal_ref_idc),
    ensures
        sh_c1_spec(s, p, sps, pps, slice_type_of(v.slice_type), v.num_ref_idx, nal_ref_idc, t == NalUnitType::IDR)
            == Ok::<((Option<PredWeightTableView>, Option<DecRefPicMarkingView>), nat), Error>(((v.pred_weight_table,
            v.dec_ref_pic_marking), p + (opt_pwt_bits(v) + opt_drpm_bits(v)).len())),
{
    let st = slice_type_of(v.slice_type);
    lemma_holds_cat(s, p, opt_pwt_bits(v), opt_drpm_bits(v));
    if let Some(w) = v.pred_weight_table {
        lemma_pwt_read(s, p, w, chroma_array_type(sps), active_l0(v.num_ref_idx, pps), active_l1(v.num_ref_idx, pps),
            st == SliceType::B);
    }
    if let Some(m) = v.dec_ref_pic_marking {
        lemma_drpm_read(s, p + opt_pwt_bits(v).len(), m, t == NalUnitType::IDR);
    }
}

/// What reading the deblocking filter control back needs: present
/// exactly when the PPS says so, the offsets exactly unless the idc is 1.
pub open spec fn deblock_readable(d: Option<DeblockingFilter>, pps: PpsView) -> bool {
    &&& (d is Some <==> pps.deblocking_filter_control_present_flag)
    &&& (d matches Some(x) ==> {
        &&& x.disable_deblocking_filter_idc < u32::MAX
        &&& (x.slice_alpha_c0_offset_div2 is Some <==> x.disable_deblocking_filter_idc != 1)
        &&& (x.slice_beta_offset_div2 is Some <==> x.disable_deblocking_filter_idc != 1)
        &&& opt_se_ok(x.slice_alpha_c0_offset_div2) && opt_se_ok(x.slice_beta_offset_div2)
    })
}

/// The deblocking filter control reads back as written.
proof fn lemma_deblock_read(s: Seq<bool>, p: nat, d: Option<DeblockingFilter>, pps: PpsView)
    requires
        holds_at(s, p, deblock_bits(d)),
        deblock_readable(d, pps),
    ensures
        deblock_spec(s, p, pps) == Ok::<(Option<DeblockingFilter>, nat), Error>((d, p + deblock_bits(d).len())),
{
    if let Some(x) = d {
        let b0 = ue_bits(x.disable_deblocking_filter_idc);
        if x.disable_deblocking_filter_idc != 1 {
            let a = x.slice_alpha_c0_offset_div2->Some_0;
            let b = x.slice_beta_offset_div2->Some_0;
            assert(deblock_bits(d) == b0 + se_bits(a) + se_bits(b));
            lemma_holds_cat(s, p, b0 + se_bits(a), se_bits(b));
            lemma_holds_cat(s, p, b0, se_bits(a));
            lemma_ue_at(s, p, x.disable_deblocking_filter_idc);
            lemma_se_at(s, p + b0.len(), a);
            lemma_se_at(s, p + b0.len() + se_bits(a).len(), b);
        } else {
            assert(deblock_bits(d) =~= b0);
            lemma_ue_at(s, p, x.disable_deblocking_filter_idc);
        }
    }
}

/// The length of `slice_group_change_cycle` is at most 32 bits when it can
/// be computed.
proof fn lemma_sgcc_len_bound(sps: SpsView, r: u32)
    requires
        sgcc_computable(sps, r),
    ensures
        sgcc_len(sps, r) <= 32,
{
    let size = pic_size_in_map_units(sps);
    let rate: int = r + 1;
    assert(size >= 0) by (nonlinear_arith)
        requires size == (sps.pic_width_in_mbs_minus1 + 1) * (sps.pic_height_in_map_units_minus1 + 1);
    assert((size + rate - 1) / rate <= size) by (nonlinear_arith)
        requires rate >= 1, size >= 0;
    assert((size + rate - 1) / rate >= 0) by (nonlinear_arith)
        requires rate >= 1, size >= 0;
    vstd::arithmetic::power2::lemma2_to64();
    lemma_ceil_log2_bound(((size + rate - 1) / rate + 1) as nat, 32);
}

/// What reading the fields after the marking back needs.
pub open spec fn sh_c2_readable(v: SliceHeaderView, sps: SpsView, pps: PpsView) -> bool {
    let st = slice_type_of(v.slice_type);
    &&& (v.cabac_init_idc is Some <==> pps.entropy_coding_mode_flag && has_l0(st))
    &&& opt_ue_ok(v.cabac_init_idc)
    &&& v.slice_qp_delta > i32::MIN
    &&& (v.sp_for_switch_flag is Some <==> st == SliceType::SP)
    &&& (v.slice_qs_delta is Some <==> (st == SliceType::SP || st == SliceType::SI))
    &&& opt_se_ok(v.slice_qs_delta)
    &&& deblock_readable(v.deblocking_filter, pps)
    &&& (v.slice_group_change_cycle is Some <==> change_rate_minus1(pps) is Some)
    &&& (v.slice_group_change_cycle matches Some(c) ==> sgcc_computable(sps, change_rate_minus1(pps)->Some_0)
        && (c as nat) < pow2(sgcc_len(sps, change_rate_minus1(pps)->Some_0)))
}

/// The fields after the marking read from the outcome of each.
#[verifier::spinoff_prover]
proof fn lemma_sh_c2_compose(s: Seq<bool>, p: nat, sps: SpsView, pps: PpsView, st: SliceType, cabac: Option<u32>, qp: i32,
    spqs: (Option<bool>, Option<i32>), db: Option<DeblockingFilter>, sgcc: Option<u32>, p1: nat, p2: nat, p3: nat, p4: nat, q: nat)
    requires
        opt_ue_spec(s, p, pps.entropy_coding_mode_flag && has_l0(st)) == Ok::<(Option<u32>, nat), Error>((cabac, p1)),
        sp_se(s, p1) == Ok::<(i32, nat), Error>((qp, p2)),
        sp_qs_spec(s, p2, st) == Ok::<((Option<bool>, Option<i32>), nat), Error>((spqs, p3)),
        deblock_spec(s, p3, pps) == Ok::<(Option<DeblockingFilter>, nat), Error>((db, p4)),
        sgcc_spec(s, p4, sps, pps) == Ok::<(Option<u32>, nat), Error>((sgcc, q)),
    ensures
        sh_c2_spec(s, p, sps, pps, st) == Ok::<((Option<u32>, i32, (Option<bool>, Option<i32>), Option<DeblockingFilter>,
            Option<u32>), nat), Error>(((cabac, qp, spqs, db, sgcc), q)),
{
}

/// The fields after the marking read back as written.
#[verifier::spinoff_prover]
#[verifier::rlimit(60)]
proof fn lemma_sh_c2_read(s: Seq<bool>, p: nat, v: SliceHeaderView, sps: SpsView, pps: PpsView)
    requires
        holds_at(s, p, sh_c2_bits(v, sps, pps)),
        sh_c2_readable(v, sps, pps),
    ensures
        sh_c2_spec(s, p, sps, pps, slice_type_of(v.slice_type)) == Ok::<((Option<u32>, i32, (Option<bool>, Option<i32>),
            Option<DeblockingFilter>, Option<u32>), nat), Error>(((v.cabac_init_idc, v.slice_qp_delta, (v.sp_for_switch_flag,
            v.slice_qs_delta), v.deblocking_filter, v.slice_group_change_cycle), p + sh_c2_bits(v, sps, pps).len())),
{
    let st = slice_type_of(v.slice_type);
    let b0 = opt_ue_bits(v.cabac_init_idc);
    let b1 = se_bits(v.slice_qp_delta);
    let b2 = opt_flag_bits(v.sp_for_switch_flag);
    let b3 = opt_se_bits(v.slice_qs_delta);
    let b4 = deblock_bits(v.deblocking_filter);
    let b5 = sgcc_bits(v, sps, pps);
    let p1 = p + b0.len();
    let p2 = p1 + b1.len();
    let p4 = p2 + b2.len() + b3.len();
    let p5 = p4 + b4.len();
    assert(holds_at(s, p, b0) && holds_at(s, p1, b1) && holds_at(s, p2, b2) && holds_at(s, p2 + b2.len(), b3)
        && holds_at(s, p4, b4) && holds_at(s, p5, b5)
        && sh_c2_bits(v, sps, pps).len() == p5 + b5.len() - p) by {
        lemma_holds_cat(s, p, b0 + b1 + b2 + b3 + b4, b5);
        lemma_holds_cat(s, p, b0 + b1 + b2 + b3, b4);
        lemma_holds_cat(s, p, b0 + b1 + b2, b3);
        lemma_holds_cat(s, p, b0 + b1, b2);
        lemma_holds_cat(s, p, b0, b1);
    }
    assert(opt_ue_spec(s, p, pps.entropy_coding_mode_flag && has_l0(st)) == Ok::<(Option<u32>, nat), Error>((v.cabac_init_idc, p1))) by {
        if let Some(x) = v.cabac_init_idc {
            lemma_ue_at(s, p, x);
        }
    }
    lemma_se_at(s, p1, v.slice_qp_delta);
    assert(sp_qs_spec(s, p2, st) == Ok::<((Option<bool>, Option<i32>), nat), Error>(((v.sp_for_switch_flag, v.slice_qs_delta), p4))) by {
        if let Some(f) = v.sp_for_switch_flag {
            lemma_flag_at(s, p2, f);
        }
        if let Some(d) = v.slice_qs_delta {
            lemma_se_at(s, p2 + b2.len(), d);
        }
    }
    lemma_deblock_read(s, p4, v.deblocking_filter, pps);
    assert(sgcc_spec(s, p5, sps, pps) == Ok::<(Option<u32>, nat), Error>((v.slice_group_change_cycle, p5 + b5.len()))) by {
        if let Some(c) = v.slice_group_change_cycle {
            let r = change_rate_minus1(pps)->Some_0;
            assert(map_change_rate_minus1(pps) == Some(r));
            lemma_sgcc_len_bound(sps, r);
            lemma_u_at(s, p5, c, sgcc_len(sps, r));
        } else {
            assert(b5 =~= Seq::<bool>::empty());
        }
    }
    lemma_sh_c2_compose(s, p, sps, pps, st, v.cabac_init_idc, v.slice_qp_delta, (v.sp_for_switch_flag, v.slice_qs_delta),
        v.deblocking_filter, v.slice_group_change_cycle, p1, p2, p4, p5, p5 + b5.len());
}

/// What reading a slice header back needs, with the SPS and PPS it was
/// written for, in a NAL unit of type `t` with `nal_ref_idc`: every field
/// writable, and each optional field present exactly where the syntax
/// reads it, with the sizes and values the syntax gives it.
pub open spec fn header_readable(v: SliceHeaderView, sps: SpsView, pps: PpsView, t: NalUnitType, nal_ref_idc: u8) -> bool {
    &&& header_writable(v, sps, pps)
    &&& sh_a_readable(v, sps, t)
    &&& sh_b_readable(v, sps, pps, t)
    &&& sh_c1_readable(v, sps, pps, t, nal_ref_idc)
    &&& sh_c2_readable(v, sps, pps)
}

/// A slice header read from the outcome of its parts.
#[verifier::spinoff_prover]
#[verifier::rlimit(60)]
proof fn lemma_header_compose(s: Seq<bool>, p: nat, v: SliceHeaderView, sps: SpsView, pps: PpsView, t: NalUnitType,
    nal_ref_idc: u8, p1: nat, p2: nat, p3: nat, q: nat)
    requires
        sh_a_spec(s, p, sps, t == NalUnitType::IDR) == Ok::<((u32, u32, u32, (Option<u8>, u16, Option<FieldFlags>), Option<u32>), nat), Error>((
            (v.first_mb_in_slice, v.slice_type, v.pic_parameter_set_id, (v.colour_plane_id, v.frame_num, v.field_flags),
            v.idr_pic_id), p1)),
        sh_b_spec(s, p1, sps, pps, v.field_flags, slice_type_of(v.slice_type), t) == Ok::<(((Option<PicOrderCnt>, Option<Seq<i32>>),
            Option<u32>, Option<bool>, Option<NumRefIdx>, RefPicListModView), nat), Error>((((v.pic_order_cnt,
            v.delta_pic_order_cnt), v.redundant_pic_cnt, v.direct_spatial_mv_pred_flag, v.num_ref_idx, v.ref_pic_list_mod), p2)),
        sh_c1_spec(s, p2, sps, pps, slice_type_of(v.slice_type), v.num_ref_idx, nal_ref_idc, t == NalUnitType::IDR)
            == Ok::<((Option<PredWeightTableView>, Option<DecRefPicMarkingView>), nat), Error>(((v.pred_weight_table,
            v.dec_ref_pic_marking), p3)),
        sh_c2_spec(s, p3, sps, pps, slice_type_of(v.slice_type)) == Ok::<((Option<u32>, i32, (Option<bool>, Option<i32>),
            Option<DeblockingFilter>, Option<u32>), nat), Error>(((v.cabac_init_idc, v.slice_qp_delta, (v.sp_for_switch_flag,
            v.slice_qs_delta), v.deblocking_filter, v.slice_group_change_cycle), q)),
    ensures
        slice_header_spec(s, p, sps, pps, t, nal_ref_idc) == Ok::<(SliceHeaderView, nat), Error>((v, q)),
{
}

/// A slice header, written at bit `p`, reads back as itself with the SPS,
/// PPS and NAL unit header it was written for, and the reading ends where
/// the writing did.
#[verifier::spinoff_prover]
#[verifier::rlimit(60)]
pub proof fn lemma_slice_header_roundtrip(s: Seq<bool>, p: nat, v: SliceHeaderView, sps: SpsView, pps: PpsView,
    t: NalUnitType, nal_ref_idc: u8)
    requires
        holds_at(s, p, slice_header_bits(v, sps, pps)),
        header_readable(v, sps, pps, t, nal_ref_idc),
    ensures
        slice_header_spec(s, p, sps, pps, t, nal_ref_idc) == Ok::<(SliceHeaderView, nat), Error>((v,
            p + slice_header_bits(v, sps, pps).len())),
{
    let a = sh_a_bits(v, sps);
    let b = sh_b_bits(v, sps);
    let c1 = opt_pwt_bits(v) + opt_drpm_bits(v);
    let c2 = sh_c2_bits(v, sps, pps);
    let p1 = p + a.len();
    let p2 = p1 + b.len();
    let p3 = p2 + c1.len();
    assert(holds_at(s, p, a) && holds_at(s, p1, b) && holds_at(s, p2, c1) && holds_at(s, p3, c2)
        && slice_header_bits(v, sps, pps).len() == a.len() + b.len() + c1.len() + c2.len()) by {
        assert(slice_header_bits(v, sps, pps) =~= a + b + c1 + c2);
        lemma_holds_cat(s, p, a + b + c1, c2);
        lemma_holds_cat(s, p, a + b, c1);
        lemma_holds_cat(s, p, a, b);
    }
    lemma_sh_a_read(s, p, v, sps, t);
    lemma_sh_b_read(s, p1, v, sps, pps, t);
    lemma_sh_c1_read(s, p2, v, sps, pps, t, nal_ref_idc);
    lemma_sh_c2_read(s, p3, v, sps, pps);
    lemma_header_compose(s, p, v, sps, pps, t, nal_ref_idc, p1, p2, p3, p3 + c2.len());
}

/// The first fields of a slice header from bit `p`: `first_mb_in_slice`,
/// `slice_type` and `pic_parameter_set_id` as `ue(v)`, then
/// `colour_plane_id` in two bits where the SPS has separate colour
/// planes, then `frame_num` in `log2_max_frame_num_minus4 + 4` bits,
/// back to back.
pub open spec fn slice_header_first_fields_at(s: Seq<bool>, p: nat, sps: SpsView, first_mb: u32, slice_type: u32, pps_id: u32,
    colour_plane: Option<u8>, frame_num: u16) -> bool {
    let p1 = sp_ue(s, p)->Ok_0.1;
    let p2 = sp_ue(s, p1)->Ok_0.1;
    let p3 = sp_ue(s, p2)->Ok_0.1;
    let p4 = if separate_colour_plane(sps) { p3 + 2 } else { p3 };
    &&& sp_ue(s, p) is Ok && sp_ue(s, p)->Ok_0.0 == first_mb
    &&& sp_ue(s, p1) is Ok && sp_ue(s, p1)->Ok_0.0 == slice_type
    &&& sp_ue(s, p2) is Ok && sp_ue(s, p2)->Ok_0.0 == pps_id
    &&& (separate_colour_plane(sps) ==> sp_u(s, p3, 2) is Ok && sp_u(s, p3, 2)->Ok_0.1 == p4
        && colour_plane == Some(sp_u(s, p3, 2)->Ok_0.0 as u8))
    &&& (!separate_colour_plane(sps) ==> colour_plane is None)
    &&& sp_u(s, p4, (sps.log2_max_frame_num_minus4 + 4) as nat) is Ok
        && sp_u(s, p4, (sps.log2_max_frame_num_minus4 + 4) as nat)->Ok_0.0 as u16 == frame_num
}

/// A slice header is read in the order of its syntax: its first fields
/// stand back to back from where it starts.
pub proof fn lemma_slice_header_field_order(s: Seq<bool>, p: nat, sps: SpsView, pps: PpsView, t: NalUnitType, nal_ref_idc: u8)
    requires
        slice_header_spec(s, p, sps, pps, t, nal_ref_idc) is Ok,
    ensures ({
        let v = slice_header_spec(s, p, sps, pps, t, nal_ref_idc)->Ok_0.0;
        slice_header_first_fields_at(s, p, sps, v.first_mb_in_slice, v.slice_type, v.pic_parameter_set_id, v.colour_plane_id,
            v.frame_num)
    }),
{
    let a = sh_a_spec(s, p, sps, t == NalUnitType::IDR);
    assert(a is Ok);
    let p3 = sp_ue(s, sp_ue(s, sp_ue(s, p)->Ok_0.1)->Ok_0.1)->Ok_0.1;
    assert(frame_spec(s, p3, sps) is Ok);
}

/// The slice types of H.264 Table 7-6, value by value: `slice_type` 0 and
/// 5 are P, 1 and 6 B, 2 and 7 I, 3 and 8 SP, 4 and 9 SI; larger values
/// repeat the cycle of five.
pub proof fn lemma_slice_type_table(value: u32)
    ensures
        (slice_type_of(value) == SliceType::P) <==> value % 5 == 0,
        (slice_type_of(value) == SliceType::B) <==> value % 5 == 1,
        (slice_type_of(value) == SliceType::I) <==> value % 5 == 2,
        (slice_type_of(value) == SliceType::SP) <==> value % 5 == 3,
        (slice_type_of(value) == SliceType::SI) <==> value % 5 == 4,
{
}

} // verus!
