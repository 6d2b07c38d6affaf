//! Laws of the PPS syntax: what is written reads back as itself.

use vstd::prelude::*;
use vstd::arithmetic::power2::pow2;
use crate::bitstream::{bytes_bits, byte_bit, pad_len, u32_bits, ue_bits, se_bits, has_more_rbsp_data_spec};
use crate::h264::error::Error;
use crate::h264::sps::{default_list, scaling_list_bits, lemma_scaling_list_roundtrip};
use crate::h264::sps_laws::list_readable;
use crate::h264::pps::{PpsView, pps_parse_spec, pps_mid_spec, pps_bits, pps_head_bits, pps_mid_bits, pps_writable,
    MoreRbspView, pps_matrix_from, pps_matrix_bits, more_rbsp_spec, more_bits, SliceGroupView, ue_list_spec, ue_pairs_spec,
    u_list_spec, slice_group_spec, ue_list_bits, pairs_bits, u_list_bits, slice_group_bits, slice_group_writable, ceil_log2, lemma_ceil_log2_bound};
use crate::h264::syntax::{rbsp_bits, sp_flag, sp_ue, sp_u, sp_se, holds_at, lemma_holds_cat, lemma_flag_at, lemma_u_at,
    lemma_ue_at, lemma_se_at};

verus! {

/// In the bytes of an RBSP, data remains at bit `p` of the syntax bits
/// `b` exactly when `p` lies before their end: the stop bit follows them.
pub proof fn lemma_rbsp_more_data(d: Seq<u8>, b: Seq<bool>, p: nat)
    requires
        bytes_bits(d) == rbsp_bits(b),
        p <= b.len(),
    ensures
        has_more_rbsp_data_spec(d, p) <==> p < b.len(),
{
    let n = b.len();
    let pad = pad_len(n + 1);
    let s = rbsp_bits(b);
    assert(s.len() == n + 1 + pad);
    assert(d.len() * 8 == s.len());
    assert(pad < 8);
    assert((n + 1 + pad) % 8 == 0);
    let q: int = (d.len() - 1) * 8;
    let k0: int = n - q;
    assert(0 <= k0 < 8);
    let x = d.last();
    assert(s[n as int]);
    assert(bytes_bits(d)[n as int] == byte_bit(d[(n as int) / 8], (n as int) % 8));
    assert((n as int) / 8 == d.len() - 1);
    assert((n as int) % 8 == k0);
    assert(byte_bit(x, k0));
    let m: u8 = (7 - k0) as u8;
    assert((x >> m) & 1u8 == 1u8);
    assert forall|j: u8| j < m implies #[trigger] ((x >> j) & 1u8) != 1u8 by {
        let k: int = 7 - j;
        assert(k0 < k < 8);
        assert(!s[q + k]);
        assert(bytes_bits(d)[q + k] == byte_bit(d[(q + k) / 8], (q + k) % 8));
        assert((q + k) / 8 == d.len() - 1);
        assert((q + k) % 8 == k);
        assert(!byte_bit(x, k));
        assert(((7 - k) as u8) == j);
    }
    vstd::std_specs::bits::axiom_u8_trailing_zeros(x);
    let t = vstd::std_specs::bits::u8_trailing_zeros(x);
    assert(t < 8) by {
        if t == 8 {
            assert(((x >> m) & 1u8) == 0u8);
        }
    }
    assert(x != 0);
    if t < m {
        assert(((x >> (t as u8)) & 1u8) == 1u8);
        assert(((x >> (t as u8)) & 1u8) != 1u8);
    }
    if t > m {
        assert(((x >> m) & 1u8) == 0u8);
    }
    assert(t == m);
}

/// The codes of `ue(v)` values, first value first.
proof fn lemma_ue_list_first(l: Seq<u32>)
    requires
        l.len() > 0,
    ensures
        ue_list_bits(l) == ue_bits(l[0]) + ue_list_bits(l.drop_first()),
    decreases l.len(),
{
    if l.len() == 1 {
        assert(l.drop_last() =~= Seq::<u32>::empty());
        assert(l.drop_first() =~= Seq::<u32>::empty());
        assert(ue_list_bits(Seq::<u32>::empty()) =~= Seq::<bool>::empty());
        assert(ue_list_bits(l) =~= ue_bits(l[0]) + Seq::<bool>::empty());
    } else {
        lemma_ue_list_first(l.drop_last());
        assert(l.drop_first().drop_last() =~= l.drop_last().drop_first());
        assert(l.drop_first().last() == l.last());
        assert(l.drop_last()[0] == l[0]);
        assert(ue_list_bits(l) =~= ue_bits(l[0]) + ue_list_bits(l.drop_first()));
    }
}

/// `ue(v)` values read back as written.
proof fn lemma_ue_list_read(s: Seq<bool>, p: nat, l: Seq<u32>)
    requires
        holds_at(s, p, ue_list_bits(l)),
        forall|i: int| 0 <= i < l.len() ==> #[trigger] l[i] < u32::MAX,
    ensures
        ue_list_spec(s, p, l.len()) == Ok::<(Seq<u32>, nat), Error>((l, p + ue_list_bits(l).len())),
    decreases l.len(),
{
    if l.len() == 0 {
        assert(l =~= Seq::<u32>::empty());
    } else {
        lemma_ue_list_first(l);
        let b0 = ue_bits(l[0]);
        let b1 = ue_list_bits(l.drop_first());
        lemma_holds_cat(s, p, b0, b1);
        lemma_ue_at(s, p, l[0]);
        assert forall|i: int| 0 <= i < l.drop_first().len() implies #[trigger] l.drop_first()[i] < u32::MAX by {
            assert(l.drop_first()[i] == l[i + 1]);
        }
        lemma_ue_list_read(s, p + b0.len(), l.drop_first());
        assert(seq![l[0]] + l.drop_first() =~= l);
        assert((l.len() - 1) as nat == l.drop_first().len());
    }
}

/// The codes of `u(bits)` values, first value first.
proof fn lemma_u_list_first(l: Seq<u32>, bits: nat)
    requires
        l.len() > 0,
    ensures
        u_list_bits(l, bits) == u32_bits(l[0], bits) + u_list_bits(l.drop_first(), bits),
    decreases l.len(),
{
    if l.len() == 1 {
        assert(l.drop_last() =~= Seq::<u32>::empty());
        assert(l.drop_first() =~= Seq::<u32>::empty());
        assert(u_list_bits(Seq::<u32>::empty(), bits) =~= Seq::<bool>::empty());
        assert(u_list_bits(l, bits) =~= u32_bits(l[0], bits) + Seq::<bool>::empty());
    } else {
        lemma_u_list_first(l.drop_last(), bits);
        assert(l.drop_first().drop_last() =~= l.drop_last().drop_first());
        assert(l.drop_first().last() == l.last());
        assert(l.drop_last()[0] == l[0]);
        assert(u_list_bits(l, bits) =~= u32_bits(l[0], bits) + u_list_bits(l.drop_first(), bits));
    }
}

/// `u(bits)` values below `2^bits` read back as written.
proof fn lemma_u_list_read(s: Seq<bool>, p: nat, l: Seq<u32>, bits: nat)
    requires
        bits <= 32,
        holds_at(s, p, u_list_bits(l, bits)),
        forall|i: int| 0 <= i < l.len() ==> (#[trigger] l[i] as nat) < pow2(bits),
    ensures
        u_list_spec(s, p, l.len(), bits) == Ok::<(Seq<u32>, nat), Error>((l, p + u_list_bits(l, bits).len())),
    decreases l.len(),
{
    if l.len() == 0 {
        assert(l =~= Seq::<u32>::empty());
    } else {
        lemma_u_list_first(l, bits);
        let b0 = u32_bits(l[0], bits);
        let b1 = u_list_bits(l.drop_first(), bits);
        lemma_holds_cat(s, p, b0, b1);
        lemma_u_at(s, p, l[0], bits);
        assert forall|i: int| 0 <= i < l.drop_first().len() implies (#[trigger] l.drop_first()[i] as nat) < pow2(bits) by {
            assert(l.drop_first()[i] == l[i + 1]);
        }
        lemma_u_list_read(s, p + bits, l.drop_first(), bits);
        assert(seq![l[0]] + l.drop_first() =~= l);
        assert((l.len() - 1) as nat == l.drop_first().len());
    }
}

/// The codes of the first `j` pairs begin those of the first `n`.
proof fn lemma_pairs_prefix(s: Seq<bool>, p: nat, a: Seq<u32>, b: Seq<u32>, j: nat, n: nat)
    requires
        j <= n,
        holds_at(s, p, pairs_bits(a, b, n)),
    ensures
        holds_at(s, p, pairs_bits(a, b, j)),
    decreases n,
{
    if j < n {
        let m = (n - 1) as nat;
        assert(pairs_bits(a, b, n) =~= pairs_bits(a, b, m) + (ue_bits(a[m as int]) + ue_bits(b[m as int])));
        lemma_holds_cat(s, p, pairs_bits(a, b, m), ue_bits(a[m as int]) + ue_bits(b[m as int]));
        lemma_pairs_prefix(s, p, a, b, j, m);
    }
}

/// Pairs `i..n` of `ue(v)` values read back as written.
proof fn lemma_pairs_read(s: Seq<bool>, p0: nat, a: Seq<u32>, b: Seq<u32>, i: nat, n: nat)
    requires
        i <= n,
        n <= a.len(),
        n <= b.len(),
        holds_at(s, p0, pairs_bits(a, b, n)),
        forall|k: int| 0 <= k < a.len() ==> #[trigger] a[k] < u32::MAX,
        forall|k: int| 0 <= k < b.len() ==> #[trigger] b[k] < u32::MAX,
    ensures
        ue_pairs_spec(s, p0 + pairs_bits(a, b, i).len(), (n - i) as nat) == Ok::<(Seq<(u32, u32)>, nat), Error>((
            Seq::new((n - i) as nat, |k: int| (a[i + k], b[i + k])), p0 + pairs_bits(a, b, n).len())),
    decreases n - i,
{
    if i == n {
        assert(Seq::new(0nat, |k: int| (a[i + k], b[i + k])) =~= Seq::<(u32, u32)>::empty());
    } else {
        lemma_pairs_prefix(s, p0, a, b, i + 1, n);
        let c0 = pairs_bits(a, b, i);
        let c1 = ue_bits(a[i as int]);
        let c2 = ue_bits(b[i as int]);
        assert(pairs_bits(a, b, i + 1) == c0 + c1 + c2);
        lemma_holds_cat(s, p0, c0 + c1, c2);
        lemma_holds_cat(s, p0, c0, c1);
        lemma_ue_at(s, p0 + c0.len(), a[i as int]);
        lemma_ue_at(s, p0 + c0.len() + c1.len(), b[i as int]);
        lemma_pairs_read(s, p0, a, b, i + 1, n);
        assert(seq![(a[i as int], b[i as int])] + Seq::new((n - (i + 1)) as nat, |k: int| (a[i + 1 + k], b[i + 1 + k]))
            =~= Seq::new((n - i) as nat, |k: int| (a[i + k], b[i + k])));
    }
}

/// What reading a slice group map back needs, for `num + 1` groups: the
/// map type that names its variant, one run length per group, one pair of
/// corners per group but the last, and each group id within the bits that
/// hold `0..num + 1`.
pub open spec fn slice_group_readable(g: SliceGroupView, num: u32) -> bool {
    &&& slice_group_writable(g, num)
    &&& match g {
        SliceGroupView::Type0 { slice_group_map_type, run_length_minus1 } =>
            slice_group_map_type == 0 && run_length_minus1.len() == num + 1,
        SliceGroupView::Type1 { slice_group_map_type } => slice_group_map_type == 1,
        SliceGroupView::Type2 { slice_group_map_type, top_left, bottom_right } =>
            slice_group_map_type == 2 && top_left.len() == num && bottom_right.len() == num,
        SliceGroupView::Type3_5 { slice_group_map_type, .. } => 3 <= slice_group_map_type <= 5,
        SliceGroupView::Type6 { slice_group_map_type, pic_size_in_map_units_minus1, slice_group_id } =>
            slice_group_map_type == 6 && slice_group_id.len() == pic_size_in_map_units_minus1 + 1
                && forall|i: int| 0 <= i < slice_group_id.len()
                    ==> (#[trigger] slice_group_id[i] as nat) < pow2(ceil_log2(num as nat + 1)),
    }
}

/// A slice group map reads back as written.
#[verifier::spinoff_prover]
#[verifier::rlimit(60)]
pub proof fn lemma_slice_group_read(s: Seq<bool>, p: nat, g: SliceGroupView, num: u32)
    requires
        holds_at(s, p, slice_group_bits(g, num)),
        slice_group_readable(g, num),
    ensures
        slice_group_spec(s, p, num) == Ok::<(SliceGroupView, nat), Error>((g, p + slice_group_bits(g, num).len())),
{
    match g {
        SliceGroupView::Type0 { slice_group_map_type, run_length_minus1 } => {
            let b0 = ue_bits(slice_group_map_type);
            lemma_holds_cat(s, p, b0, ue_list_bits(run_length_minus1));
            lemma_ue_at(s, p, slice_group_map_type);
            lemma_ue_list_read(s, p + b0.len(), run_length_minus1);
        },
        SliceGroupView::Type1 { slice_group_map_type } => {
            lemma_ue_at(s, p, slice_group_map_type);
        },
        SliceGroupView::Type2 { slice_group_map_type, top_left, bottom_right } => {
            let b0 = ue_bits(slice_group_map_type);
            let n = num as nat;
            lemma_holds_cat(s, p, b0, pairs_bits(top_left, bottom_right, n));
            lemma_ue_at(s, p, slice_group_map_type);
            assert(pairs_bits(top_left, bottom_right, 0).len() == 0);
            lemma_pairs_read(s, p + b0.len(), top_left, bottom_right, 0, n);
            let l = Seq::new(n, |k: int| (top_left[0 + k], bottom_right[0 + k]));
            assert(l.map_values(|x: (u32, u32)| x.0) =~= top_left);
            assert(l.map_values(|x: (u32, u32)| x.1) =~= bottom_right);
        },
        SliceGroupView::Type3_5 { slice_group_map_type, slice_group_change_direction_flag, slice_group_change_rate_minus1 } => {
            let b0 = ue_bits(slice_group_map_type);
            let b1 = seq![slice_group_change_direction_flag];
            let b2 = ue_bits(slice_group_change_rate_minus1);
            assert(slice_group_bits(g, num) == b0 + b1 + b2);
            lemma_holds_cat(s, p, b0 + b1, b2);
            lemma_holds_cat(s, p, b0, b1);
            lemma_ue_at(s, p, slice_group_map_type);
            lemma_flag_at(s, p + b0.len(), slice_group_change_direction_flag);
            lemma_ue_at(s, p + b0.len() + 1, slice_group_change_rate_minus1);
        },
        SliceGroupView::Type6 { slice_group_map_type, pic_size_in_map_units_minus1, slice_group_id } => {
            let bits = ceil_log2(num as nat + 1);
            vstd::arithmetic::power2::lemma2_to64();
            lemma_ceil_log2_bound(num as nat + 1, 32);
            let b0 = ue_bits(slice_group_map_type);
            let b1 = ue_bits(pic_size_in_map_units_minus1);
            let b2 = u_list_bits(slice_group_id, bits);
            assert(slice_group_bits(g, num) == b0 + b1 + b2);
            lemma_holds_cat(s, p, b0 + b1, b2);
            lemma_holds_cat(s, p, b0, b1);
            lemma_ue_at(s, p, slice_group_map_type);
            lemma_ue_at(s, p + b0.len(), pic_size_in_map_units_minus1);
            lemma_u_list_read(s, p + b0.len() + b1.len(), slice_group_id, bits);
        },
    }
}

/// The 8x8 lists, or the defaults where there are none.
pub open spec fn l8_or_default(l8: Option<Seq<Seq<u8>>>) -> Seq<Seq<u8>> {
    match l8 {
        Some(x) => x,
        None => Seq::new(6, |k: int| default_list(64)),
    }
}

/// The codes of the first `j` lists of a matrix begin those of the first `n`.
proof fn lemma_matrix_prefix(s: Seq<bool>, p: nat, flags: Seq<bool>, l4: Option<Seq<Seq<u8>>>,
    l8: Option<Seq<Seq<u8>>>, j: nat, n: nat)
    requires
        j <= n,
        holds_at(s, p, pps_matrix_bits(flags, l4, l8, n)),
    ensures
        holds_at(s, p, pps_matrix_bits(flags, l4, l8, j)),
    decreases n,
{
    if j < n {
        let m = (n - 1) as nat;
        let e = pps_matrix_bits(flags, l4, l8, n).subrange(pps_matrix_bits(flags, l4, l8, m).len() as int,
            pps_matrix_bits(flags, l4, l8, n).len() as int);
        assert(pps_matrix_bits(flags, l4, l8, n) =~= pps_matrix_bits(flags, l4, l8, m) + e);
        lemma_holds_cat(s, p, pps_matrix_bits(flags, l4, l8, m), e);
        lemma_matrix_prefix(s, p, flags, l4, l8, j, m);
    }
}

/// Lists `i..num` of a PPS scaling matrix read back as written, after
/// lists `0..i` read into `a4` and `a8`; a list is present where its flag
/// is set, and absent lists are the defaults.
#[verifier::spinoff_prover]
#[verifier::rlimit(80)]
proof fn lemma_pps_matrix_read(s: Seq<bool>, p0: nat, flags: Seq<bool>, l4: Seq<Seq<u8>>, l8: Option<Seq<Seq<u8>>>,
    i: nat, num: nat, a4: Seq<Seq<u8>>, a8: Seq<Seq<u8>>)
    requires
        i <= num <= 12,
        6 <= num,
        flags.len() == num,
        num > 6 ==> l8 is Some,
        holds_at(s, p0, pps_matrix_bits(flags, Some(l4), l8, num)),
        l4.len() == 6,
        l8_or_default(l8).len() == 6,
        forall|k: int| 0 <= k < 6 ==> (if flags[k] { list_readable(#[trigger] l4[k], 16) } else { l4[k] == default_list(16) }),
        forall|k: int| 0 <= k < 6 ==> (if k + 6 < num && flags[k + 6] { list_readable(#[trigger] l8_or_default(l8)[k], 64) }
            else { l8_or_default(l8)[k] == default_list(64) }),
        a4.len() == 6 && a8.len() == 6,
        forall|k: int| 0 <= k < 6 ==> #[trigger] a4[k] == (if k < i { l4[k] } else { default_list(16) }),
        forall|k: int| 0 <= k < 6 ==> #[trigger] a8[k] == (if k + 6 < i { l8_or_default(l8)[k] } else { default_list(64) }),
    ensures
        pps_matrix_from(s, p0 + pps_matrix_bits(flags, Some(l4), l8, i).len(), i, num, flags.subrange(0, i as int), a4, a8)
            == Ok::<(Seq<bool>, Seq<Seq<u8>>, Seq<Seq<u8>>, nat), Error>((flags, l4, l8_or_default(l8),
                p0 + pps_matrix_bits(flags, Some(l4), l8, num).len())),
    decreases num - i,
{
    let L8 = l8_or_default(l8);
    if i >= num {
        assert(flags.subrange(0, i as int) =~= flags);
        assert(a4 =~= l4);
        assert(a8 =~= L8);
    } else {
        lemma_matrix_prefix(s, p0, flags, Some(l4), l8, i + 1, num);
        let c0 = pps_matrix_bits(flags, Some(l4), l8, i);
        let e = if flags[i as int] {
            if i < 6 { scaling_list_bits(l4[i as int], 8) } else { scaling_list_bits(L8[i - 6], 8) }
        } else {
            Seq::<bool>::empty()
        };
        assert(pps_matrix_bits(flags, Some(l4), l8, i + 1) =~= c0 + seq![flags[i as int]] + e);
        lemma_holds_cat(s, p0, c0 + seq![flags[i as int]], e);
        lemma_holds_cat(s, p0, c0, seq![flags[i as int]]);
        let p = p0 + c0.len();
        lemma_flag_at(s, p, flags[i as int]);
        assert(flags.subrange(0, i as int).push(flags[i as int]) =~= flags.subrange(0, i + 1 as int));
        if !flags[i as int] {
            assert forall|k: int| 0 <= k < 6 implies #[trigger] a4[k] == (if k < i + 1 { l4[k] } else { default_list(16) }) by {
                if k == i { assert(l4[k] == default_list(16)); }
            }
            assert forall|k: int| 0 <= k < 6 implies #[trigger] a8[k] == (if k + 6 < i + 1 { L8[k] } else { default_list(64) }) by {
                if k + 6 == i { assert(L8[k] == default_list(64)); }
            }
            assert(e =~= Seq::<bool>::empty());
            lemma_pps_matrix_read(s, p0, flags, l4, l8, i + 1, num, a4, a8);
        } else if i < 6 {
            let l = l4[i as int];
            assert(list_readable(l, 16));
            lemma_scaling_list_roundtrip(s, p + 1, l);
            let a4n = a4.update(i as int, l);
            assert forall|k: int| 0 <= k < 6 implies #[trigger] a4n[k] == (if k < i + 1 { l4[k] } else { default_list(16) }) by {}
            assert forall|k: int| 0 <= k < 6 implies #[trigger] a8[k] == (if k + 6 < i + 1 { L8[k] } else { default_list(64) }) by {}
            lemma_pps_matrix_read(s, p0, flags, l4, l8, i + 1, num, a4n, a8);
        } else {
            let l = L8[i - 6];
            assert(list_readable(l, 64));
            lemma_scaling_list_roundtrip(s, p + 1, l);
            let a8n = a8.update(i - 6, l);
            assert forall|k: int| 0 <= k < 6 implies #[trigger] a4[k] == (if k < i + 1 { l4[k] } else { default_list(16) }) by {}
            assert forall|k: int| 0 <= k < 6 implies #[trigger] a8n[k] == (if k + 6 < i + 1 { L8[k] } else { default_list(64) }) by {}
            lemma_pps_matrix_read(s, p0, flags, l4, l8, i + 1, num, a4, a8n);
        }
    }
}

/// The number of scaling lists a PPS carries: six 4x4 lists, and with the
/// 8x8 transform two 8x8 lists, six for 4:4:4 chroma.
pub open spec fn pps_list_count(t8: bool, chroma: u8) -> nat {
    6 + if t8 { if chroma != 3 { 2nat } else { 6nat } } else { 0nat }
}

/// What reading the trailing PPS fields back needs: with a scaling matrix,
/// the chroma format of the SPS, one flag per list, the 4x4 lists and
/// exactly with the 8x8 transform the 8x8 lists, six of each, present lists
/// with no entry 0 and absent ones at their default; without, no lists.
pub open spec fn more_readable(m: MoreRbspView, chroma: Option<u8>) -> bool {
    let l8 = l8_or_default(m.scaling_list_8x8);
    &&& m.second_chroma_qp_index_offset > i32::MIN
    &&& if !m.pic_scaling_matrix_present_flag {
        m.pic_scaling_list_present_flag is None && m.scaling_list_4x4 is None && m.scaling_list_8x8 is None
    } else {
        let num = pps_list_count(m.transform_8x8_mode_flag, chroma->Some_0);
        let flags = m.pic_scaling_list_present_flag->Some_0;
        let l4 = m.scaling_list_4x4->Some_0;
        &&& chroma is Some
        &&& m.pic_scaling_list_present_flag is Some && flags.len() == num
        &&& m.scaling_list_4x4 is Some && l4.len() == 6
        &&& forall|k: int| 0 <= k < 6 ==> (if flags[k] { list_readable(#[trigger] l4[k], 16) } else { l4[k] == default_list(16) })
        &&& (m.scaling_list_8x8 is Some <==> m.transform_8x8_mode_flag)
        &&& l8.len() == 6
        &&& forall|k: int| 0 <= k < 6 ==> (if k + 6 < num && flags[k + 6] { list_readable(#[trigger] l8[k], 64) }
            else { l8[k] == default_list(64) })
    }
}

/// The trailing PPS fields read back as written.
#[verifier::spinoff_prover]
#[verifier::rlimit(60)]
pub proof fn lemma_more_read(s: Seq<bool>, p: nat, m: MoreRbspView, chroma: Option<u8>)
    requires
        holds_at(s, p, more_bits(m)),
        more_readable(m, chroma),
    ensures
        more_rbsp_spec(s, p, chroma) == Ok::<(MoreRbspView, nat), Error>((m, p + more_bits(m).len())),
{
    let b0 = seq![m.transform_8x8_mode_flag];
    let b1 = seq![m.pic_scaling_matrix_present_flag];
    let b2 = match m.pic_scaling_list_present_flag {
        Some(f) => pps_matrix_bits(f, m.scaling_list_4x4, m.scaling_list_8x8, f.len()),
        None => Seq::<bool>::empty(),
    };
    let b3 = se_bits(m.second_chroma_qp_index_offset);
    assert(more_bits(m) == b0 + b1 + b2 + b3);
    lemma_holds_cat(s, p, b0 + b1 + b2, b3);
    lemma_holds_cat(s, p, b0 + b1, b2);
    lemma_holds_cat(s, p, b0, b1);
    lemma_flag_at(s, p, m.transform_8x8_mode_flag);
    lemma_flag_at(s, p + 1, m.pic_scaling_matrix_present_flag);
    lemma_se_at(s, p + 2 + b2.len(), m.second_chroma_qp_index_offset);
    if m.pic_scaling_matrix_present_flag {
        let num = pps_list_count(m.transform_8x8_mode_flag, chroma->Some_0);
        let flags = m.pic_scaling_list_present_flag->Some_0;
        let l4 = m.scaling_list_4x4->Some_0;
        let d4 = Seq::new(6, |k: int| default_list(16));
        let d8 = Seq::new(6, |k: int| default_list(64));
        assert(pps_matrix_bits(flags, Some(l4), m.scaling_list_8x8, 0).len() == 0);
        assert(flags.subrange(0, 0) =~= Seq::<bool>::empty());
        lemma_pps_matrix_read(s, p + 2, flags, l4, m.scaling_list_8x8, 0, num, d4, d8);
    } else {
        assert(b2.len() == 0);
    }
}

/// The fields from the reference index counts to the redundant picture
/// count flag read back as written.
#[verifier::spinoff_prover]
#[verifier::rlimit(60)]
proof fn lemma_mid_read(s: Seq<bool>, p: nat, v: PpsView)
    requires
        holds_at(s, p, pps_mid_bits(v)),
        pps_writable(v),
        v.weighted_bipred_idc < 4,
    ensures
        pps_mid_spec(s, p) == Ok::<(u32, u32, bool, u8, i32, i32, i32, bool, bool, bool, nat), Error>((
            v.num_ref_idx_l0_default_active_minus1, v.num_ref_idx_l1_default_active_minus1, v.weighted_pred_flag,
            v.weighted_bipred_idc, v.pic_init_qp_minus26, v.pic_init_qs_minus26, v.chroma_qp_index_offset,
            v.deblocking_filter_control_present_flag, v.constrained_intra_pred_flag, v.redundant_pic_cnt_present_flag,
            p + pps_mid_bits(v).len())),
{
    vstd::arithmetic::power2::lemma2_to64();
    let b0 = ue_bits(v.num_ref_idx_l0_default_active_minus1);
    let b1 = ue_bits(v.num_ref_idx_l1_default_active_minus1);
    let b2 = seq![v.weighted_pred_flag];
    let b3 = u32_bits(v.weighted_bipred_idc as u32, 2);
    let b4 = se_bits(v.pic_init_qp_minus26);
    let b5 = se_bits(v.pic_init_qs_minus26);
    let b6 = se_bits(v.chroma_qp_index_offset);
    let b7 = seq![v.deblocking_filter_control_present_flag];
    let b8 = seq![v.constrained_intra_pred_flag];
    let b9 = seq![v.redundant_pic_cnt_present_flag];
    assert(pps_mid_bits(v) == b0 + b1 + b2 + b3 + b4 + b5 + b6 + b7 + b8 + b9);
    lemma_holds_cat(s, p, b0 + b1 + b2 + b3 + b4 + b5 + b6 + b7 + b8, b9);
    lemma_holds_cat(s, p, b0 + b1 + b2 + b3 + b4 + b5 + b6 + b7, b8);
    lemma_holds_cat(s, p, b0 + b1 + b2 + b3 + b4 + b5 + b6, b7);
    lemma_holds_cat(s, p, b0 + b1 + b2 + b3 + b4 + b5, b6);
    lemma_holds_cat(s, p, b0 + b1 + b2 + b3 + b4, b5);
    lemma_holds_cat(s, p, b0 + b1 + b2 + b3, b4);
    lemma_holds_cat(s, p, b0 + b1 + b2, b3);
    lemma_holds_cat(s, p, b0 + b1, b2);
    lemma_holds_cat(s, p, b0, b1);
    lemma_ue_at(s, p, v.num_ref_idx_l0_default_active_minus1);
    lemma_ue_at(s, p + b0.len(), v.num_ref_idx_l1_default_active_minus1);
    lemma_flag_at(s, p + (b0 + b1).len(), v.weighted_pred_flag);
    lemma_u_at(s, p + (b0 + b1 + b2).len(), v.weighted_bipred_idc as u32, 2);
    lemma_se_at(s, p + (b0 + b1 + b2 + b3).len(), v.pic_init_qp_minus26);
    lemma_se_at(s, p + (b0 + b1 + b2 + b3 + b4).len(), v.pic_init_qs_minus26);
    lemma_se_at(s, p + (b0 + b1 + b2 + b3 + b4 + b5).len(), v.chroma_qp_index_offset);
    lemma_flag_at(s, p + (b0 + b1 + b2 + b3 + b4 + b5 + b6).len(), v.deblocking_filter_control_present_flag);
    lemma_flag_at(s, p + (b0 + b1 + b2 + b3 + b4 + b5 + b6 + b7).len(), v.constrained_intra_pred_flag);
    lemma_flag_at(s, p + (b0 + b1 + b2 + b3 + b4 + b5 + b6 + b7 + b8).len(), v.redundant_pic_cnt_present_flag);
}

/// What reading a PPS back needs, with the chroma format of its SPS:
/// writable values, a slice group map exactly for more than one slice
/// group and readable, a two-bit weighted bi-prediction code, and readable
/// trailing fields.
pub open spec fn pps_readable(v: PpsView, chroma: Option<u8>) -> bool {
    &&& pps_writable(v)
    &&& (v.slice_group is Some <==> v.num_slice_groups_minus1 > 0)
    &&& (v.slice_group matches Some(g) ==> slice_group_readable(g, v.num_slice_groups_minus1))
    &&& v.weighted_bipred_idc < 4
    &&& (v.more_rbsp_data matches Some(m) ==> more_readable(m, chroma))
}

/// The syntax bits of an RBSP begin it.
proof fn lemma_rbsp_holds(b: Seq<bool>)
    ensures
        holds_at(rbsp_bits(b), 0, b),
{
    assert(rbsp_bits(b).subrange(0, b.len() as int) =~= b);
}

/// The fields up to the slice group map read back as written.
#[verifier::spinoff_prover]
#[verifier::rlimit(60)]
proof fn lemma_head_read(s: Seq<bool>, v: PpsView)
    requires
        holds_at(s, 0, pps_head_bits(v)),
        pps_writable(v),
    ensures ({
        let b0 = ue_bits(v.pic_parameter_set_id);
        let b1 = ue_bits(v.seq_parameter_set_id);
        let b4 = ue_bits(v.num_slice_groups_minus1);
        let p5 = b0.len() + b1.len() + 2 + b4.len();
        &&& sp_ue(s, 0) == Ok::<(u32, nat), Error>((v.pic_parameter_set_id, b0.len()))
        &&& sp_ue(s, b0.len()) == Ok::<(u32, nat), Error>((v.seq_parameter_set_id, b0.len() + b1.len()))
        &&& sp_flag(s, b0.len() + b1.len()) == Ok::<(bool, nat), Error>((v.entropy_coding_mode_flag, b0.len() + b1.len() + 1))
        &&& sp_flag(s, b0.len() + b1.len() + 1) == Ok::<(bool, nat), Error>((v.bottom_field_pic_order_in_frame_present_flag,
            b0.len() + b1.len() + 2))
        &&& sp_ue(s, b0.len() + b1.len() + 2) == Ok::<(u32, nat), Error>((v.num_slice_groups_minus1, p5))
        &&& holds_at(s, p5, match v.slice_group {
            Some(g) => slice_group_bits(g, v.num_slice_groups_minus1),
            None => Seq::<bool>::empty(),
        })
        &&& pps_head_bits(v).len() == p5 + match v.slice_group {
            Some(g) => slice_group_bits(g, v.num_slice_groups_minus1),
            None => Seq::<bool>::empty(),
        }.len()
    }),
{
    let b0 = ue_bits(v.pic_parameter_set_id);
    let b1 = ue_bits(v.seq_parameter_set_id);
    let b2 = seq![v.entropy_coding_mode_flag];
    let b3 = seq![v.bottom_field_pic_order_in_frame_present_flag];
    let b4 = ue_bits(v.num_slice_groups_minus1);
    let b5 = match v.slice_group {
        Some(g) => slice_group_bits(g, v.num_slice_groups_minus1),
        None => Seq::<bool>::empty(),
    };
    assert(pps_head_bits(v) == b0 + b1 + b2 + b3 + b4 + b5);
    lemma_holds_cat(s, 0, b0 + b1 + b2 + b3 + b4, b5);
    lemma_holds_cat(s, 0, b0 + b1 + b2 + b3, b4);
    lemma_holds_cat(s, 0, b0 + b1 + b2, b3);
    lemma_holds_cat(s, 0, b0 + b1, b2);
    lemma_holds_cat(s, 0, b0, b1);
    lemma_ue_at(s, 0, v.pic_parameter_set_id);
    lemma_ue_at(s, b0.len(), v.seq_parameter_set_id);
    lemma_flag_at(s, b0.len() + b1.len(), v.entropy_coding_mode_flag);
    lemma_flag_at(s, b0.len() + b1.len() + 1, v.bottom_field_pic_order_in_frame_present_flag);
    lemma_ue_at(s, b0.len() + b1.len() + 2, v.num_slice_groups_minus1);
}

/// The PPS parse from the outcome of each of its parts.
#[verifier::spinoff_prover]
#[verifier::rlimit(100)]
proof fn lemma_pps_compose(d: Seq<u8>, chroma: Option<u8>, v: PpsView, p1: nat, p2: nat, p5: nat, p6: nat, p7: nat, p8: nat)
    requires
        sp_ue(bytes_bits(d), 0) == Ok::<(u32, nat), Error>((v.pic_parameter_set_id, p1)),
        sp_ue(bytes_bits(d), p1) == Ok::<(u32, nat), Error>((v.seq_parameter_set_id, p2)),
        sp_flag(bytes_bits(d), p2) == Ok::<(bool, nat), Error>((v.entropy_coding_mode_flag, p2 + 1)),
        sp_flag(bytes_bits(d), p2 + 1) == Ok::<(bool, nat), Error>((v.bottom_field_pic_order_in_frame_present_flag, p2 + 2)),
        sp_ue(bytes_bits(d), p2 + 2) == Ok::<(u32, nat), Error>((v.num_slice_groups_minus1, p5)),
        v.slice_group is Some <==> v.num_slice_groups_minus1 > 0,
        v.slice_group is None ==> p6 == p5,
        v.slice_group matches Some(g) ==> slice_group_spec(bytes_bits(d), p5, v.num_slice_groups_minus1)
            == Ok::<(SliceGroupView, nat), Error>((g, p6)),
        pps_mid_spec(bytes_bits(d), p6) == Ok::<(u32, u32, bool, u8, i32, i32, i32, bool, bool, bool, nat), Error>((
            v.num_ref_idx_l0_default_active_minus1, v.num_ref_idx_l1_default_active_minus1, v.weighted_pred_flag,
            v.weighted_bipred_idc, v.pic_init_qp_minus26, v.pic_init_qs_minus26, v.chroma_qp_index_offset,
            v.deblocking_filter_control_present_flag, v.constrained_intra_pred_flag, v.redundant_pic_cnt_present_flag, p7)),
        has_more_rbsp_data_spec(d, p7) <==> v.more_rbsp_data is Some,
        v.more_rbsp_data matches Some(m) ==> more_rbsp_spec(bytes_bits(d), p7, chroma) == Ok::<(MoreRbspView, nat), Error>((m, p8)),
    ensures
        pps_parse_spec(d, chroma) == Ok::<PpsView, Error>(v),
{
}

/// A PPS, written as an RBSP, reads back as itself with the chroma format
/// it was written for.
#[verifier::spinoff_prover]
#[verifier::rlimit(100)]
pub proof fn lemma_pps_roundtrip(v: PpsView, chroma: Option<u8>, d: Seq<u8>)
    requires
        pps_readable(v, chroma),
        bytes_bits(d) == rbsp_bits(pps_bits(v)),
    ensures
        pps_parse_spec(d, chroma) == Ok::<PpsView, Error>(v),
{
    let s = bytes_bits(d);
    let b = pps_bits(v);
    let hb = pps_head_bits(v);
    let mb = pps_mid_bits(v);
    let tb = match v.more_rbsp_data {
        Some(m) => more_bits(m),
        None => Seq::<bool>::empty(),
    };
    let b0 = ue_bits(v.pic_parameter_set_id);
    let b1 = ue_bits(v.seq_parameter_set_id);
    let b4 = ue_bits(v.num_slice_groups_minus1);
    let p5 = b0.len() + b1.len() + 2 + b4.len();
    let p6 = hb.len();
    let p7 = hb.len() + mb.len();
    assert(holds_at(s, 0, hb) && holds_at(s, p6, mb) && holds_at(s, p7, tb) && b.len() == p7 + tb.len()) by {
        assert(b == hb + mb + tb);
        lemma_rbsp_holds(b);
        lemma_holds_cat(s, 0, hb + mb, tb);
        lemma_holds_cat(s, 0, hb, mb);
    }
    lemma_head_read(s, v);
    if let Some(g) = v.slice_group {
        lemma_slice_group_read(s, p5, g, v.num_slice_groups_minus1);
    }
    lemma_mid_read(s, p6, v);
    lemma_rbsp_more_data(d, b, p7);
    if let Some(m) = v.more_rbsp_data {
        assert(tb.len() >= 2);
        lemma_more_read(s, p7, m, chroma);
    }
    lemma_pps_compose(d, chroma, v, b0.len(), b0.len() + b1.len(), p5, p6, p7, p7 + tb.len());
}

/// From bit 0: `pic_parameter_set_id` and `seq_parameter_set_id` as
/// `ue(v)`, the entropy coding mode flag, the bottom field picture order
/// flag and `num_slice_groups_minus1` as a `ue(v)`, back to back.
pub open spec fn pps_head_fields_at(s: Seq<bool>, pid: u32, sid: u32, ecm: bool, bfp: bool, num: u32) -> bool {
    let p1 = sp_ue(s, 0)->Ok_0.1;
    let p2 = sp_ue(s, p1)->Ok_0.1;
    &&& sp_ue(s, 0) is Ok && sp_ue(s, 0)->Ok_0.0 == pid
    &&& sp_ue(s, p1) is Ok && sp_ue(s, p1)->Ok_0.0 == sid
    &&& sp_flag(s, p2) == Ok::<(bool, nat), Error>((ecm, p2 + 1))
    &&& sp_flag(s, p2 + 1) == Ok::<(bool, nat), Error>((bfp, p2 + 2))
    &&& sp_ue(s, p2 + 2) is Ok && sp_ue(s, p2 + 2)->Ok_0.0 == num
}

/// From bit `p`: `num_ref_idx_l0_default_active_minus1` then
/// `num_ref_idx_l1_default_active_minus1` as `ue(v)`, the weighted
/// prediction flag, the two-bit `weighted_bipred_idc`, then
/// `pic_init_qp_minus26`, `pic_init_qs_minus26` and
/// `chroma_qp_index_offset` as `se(v)`, then the deblocking filter
/// control, constrained intra prediction and redundant picture count
/// flags, back to back.
pub open spec fn pps_mid_fields_at(s: Seq<bool>, p: nat, l0: u32, l1: u32, wp: bool, wb: u8, qp: i32, qs: i32, cq: i32,
    dfc: bool, cip: bool, rpc: bool) -> bool {
    let p1 = sp_ue(s, p)->Ok_0.1;
    let p2 = sp_ue(s, p1)->Ok_0.1;
    let p4 = p2 + 3;
    let p5 = sp_se(s, p4)->Ok_0.1;
    let p6 = sp_se(s, p5)->Ok_0.1;
    &&& sp_ue(s, p) is Ok && sp_ue(s, p)->Ok_0.0 == l0
    &&& sp_ue(s, p1) is Ok && sp_ue(s, p1)->Ok_0.0 == l1
    &&& sp_flag(s, p2) == Ok::<(bool, nat), Error>((wp, p2 + 1))
    &&& sp_u(s, p2 + 1, 2) is Ok && sp_u(s, p2 + 1, 2)->Ok_0.1 == p4 && sp_u(s, p2 + 1, 2)->Ok_0.0 as u8 == wb
    &&& sp_se(s, p4) is Ok && sp_se(s, p4)->Ok_0.0 == qp
    &&& sp_se(s, p5) is Ok && sp_se(s, p5)->Ok_0.0 == qs
    &&& sp_se(s, p6) is Ok && sp_se(s, p6)->Ok_0.0 == cq
    &&& sp_flag(s, sp_se(s, p6)->Ok_0.1) == Ok::<(bool, nat), Error>((dfc, sp_se(s, p6)->Ok_0.1 + 1))
    &&& sp_flag(s, sp_se(s, p6)->Ok_0.1 + 1) == Ok::<(bool, nat), Error>((cip, sp_se(s, p6)->Ok_0.1 + 2))
    &&& sp_flag(s, sp_se(s, p6)->Ok_0.1 + 2) == Ok::<(bool, nat), Error>((rpc, sp_se(s, p6)->Ok_0.1 + 3))
}

/// The middle fields are read back to back from `p`.
proof fn lemma_pps_mid_reads(s: Seq<bool>, p: nat)
    requires
        pps_mid_spec(s, p) is Ok,
    ensures ({
        let m = pps_mid_spec(s, p)->Ok_0;
        pps_mid_fields_at(s, p, m.0, m.1, m.2, m.3, m.4, m.5, m.6, m.7, m.8, m.9)
    }),
{
}

/// The parts of a successful PPS parse.
#[verifier::spinoff_prover]
#[verifier::rlimit(100)]
proof fn lemma_pps_parse_parts(d: Seq<u8>, chroma: Option<u8>)
    requires
        pps_parse_spec(d, chroma) is Ok,
    ensures ({
        let s = bytes_bits(d);
        let v = pps_parse_spec(d, chroma)->Ok_0;
        &&& pps_head_fields_at(s, v.pic_parameter_set_id, v.seq_parameter_set_id, v.entropy_coding_mode_flag,
            v.bottom_field_pic_order_in_frame_present_flag, v.num_slice_groups_minus1)
        &&& exists|p: nat| #[trigger] pps_mid_spec(s, p) == Ok::<(u32, u32, bool, u8, i32, i32, i32, bool, bool, bool, nat), Error>((
            v.num_ref_idx_l0_default_active_minus1, v.num_ref_idx_l1_default_active_minus1, v.weighted_pred_flag,
            v.weighted_bipred_idc, v.pic_init_qp_minus26, v.pic_init_qs_minus26, v.chroma_qp_index_offset,
            v.deblocking_filter_control_present_flag, v.constrained_intra_pred_flag, v.redundant_pic_cnt_present_flag,
            pps_mid_spec(s, p)->Ok_0.10))
    }),
{
}

/// A PPS is read in the order of its syntax: its two ids, the two flags
/// and the slice group count from bit 0; and, after the slice group map,
/// the list 0 default reference count, then the list 1 default reference
/// count, the weighted prediction flag, the weighted bi-prediction code
/// the three quantizer offsets and the three flags that follow them, back
/// to back.
pub proof fn lemma_pps_field_order(d: Seq<u8>, chroma: Option<u8>)
    requires
        pps_parse_spec(d, chroma) is Ok,
    ensures
        pps_head_fields_at(bytes_bits(d), pps_parse_spec(d, chroma)->Ok_0.pic_parameter_set_id,
            pps_parse_spec(d, chroma)->Ok_0.seq_parameter_set_id, pps_parse_spec(d, chroma)->Ok_0.entropy_coding_mode_flag,
            pps_parse_spec(d, chroma)->Ok_0.bottom_field_pic_order_in_frame_present_flag,
            pps_parse_spec(d, chroma)->Ok_0.num_slice_groups_minus1),
        exists|p: nat| #[trigger] pps_mid_fields_at(bytes_bits(d), p, pps_parse_spec(d, chroma)->Ok_0.num_ref_idx_l0_default_active_minus1,
            pps_parse_spec(d, chroma)->Ok_0.num_ref_idx_l1_default_active_minus1, pps_parse_spec(d, chroma)->Ok_0.weighted_pred_flag,
            pps_parse_spec(d, chroma)->Ok_0.weighted_bipred_idc, pps_parse_spec(d, chroma)->Ok_0.pic_init_qp_minus26,
            pps_parse_spec(d, chroma)->Ok_0.pic_init_qs_minus26, pps_parse_spec(d, chroma)->Ok_0.chroma_qp_index_offset,
            pps_parse_spec(d, chroma)->Ok_0.deblocking_filter_control_present_flag,
            pps_parse_spec(d, chroma)->Ok_0.constrained_intra_pred_flag,
            pps_parse_spec(d, chroma)->Ok_0.redundant_pic_cnt_present_flag),
{
    lemma_pps_parse_parts(d, chroma);
    let s = bytes_bits(d);
    let p = choose|p: nat| #[trigger] pps_mid_spec(s, p) == Ok::<(u32, u32, bool, u8, i32, i32, i32, bool, bool, bool, nat), Error>((
        pps_parse_spec(d, chroma)->Ok_0.num_ref_idx_l0_default_active_minus1, pps_parse_spec(d, chroma)->Ok_0.num_ref_idx_l1_default_active_minus1,
        pps_parse_spec(d, chroma)->Ok_0.weighted_pred_flag, pps_parse_spec(d, chroma)->Ok_0.weighted_bipred_idc,
        pps_parse_spec(d, chroma)->Ok_0.pic_init_qp_minus26, pps_parse_spec(d, chroma)->Ok_0.pic_init_qs_minus26,
        pps_parse_spec(d, chroma)->Ok_0.chroma_qp_index_offset, pps_parse_spec(d, chroma)->Ok_0.deblocking_filter_control_present_flag,
        pps_parse_spec(d, chroma)->Ok_0.constrained_intra_pred_flag, pps_parse_spec(d, chroma)->Ok_0.redundant_pic_cnt_present_flag,
        pps_mid_spec(s, p)->Ok_0.10));
    lemma_pps_mid_reads(s, p);
}

} // verus!
