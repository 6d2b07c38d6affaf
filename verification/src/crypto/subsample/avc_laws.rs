//! Laws of AVC subsample plans: which bytes a plan leaves clear and which
//! it encrypts.

use vstd::prelude::*;
use crate::crypto::cenc::Subsample;
use crate::crypto::subsample::avc::{ParamModel, plan_from, be_value, clear_split, slice_header_len_spec, raw_len_from,
    ingest_sps_spec, ingest_pps_spec};

verus! {

/// The encrypted byte count of a plan.
pub open spec fn encrypted_total(subs: Seq<Subsample>) -> nat
    decreases subs.len(),
{
    if subs.len() == 0 {
        0
    } else {
        encrypted_total(subs.drop_last()) + subs.last().encrypted as nat
    }
}

/// The clear byte count of a plan.
pub open spec fn clear_total(subs: Seq<Subsample>) -> nat
    decreases subs.len(),
{
    if subs.len() == 0 {
        0
    } else {
        clear_total(subs.drop_last()) + subs.last().clear as nat
    }
}

/// The slice data of the sample from `offset` on, in bytes: for each NAL
/// unit of type 1 (non-IDR slice) or 5 (IDR slice) whose slice header
/// can be measured, the bytes after its header byte and slice header.
/// SPS (type 7) and PPS (type 8) units update the parameter sets slices
/// are read against.
pub open spec fn slice_data_total(sample: Seq<u8>, ls: nat, offset: nat, m: ParamModel) -> nat
    decreases sample.len() - offset,
{
    if offset >= sample.len() || offset + ls > sample.len() {
        0
    } else {
        let nal_len = be_value(sample.subrange(offset as int, (offset + ls) as int));
        let nal_end = offset + ls + nal_len;
        if nal_len == 0 || nal_end > sample.len() {
            0
        } else {
            let header = sample[(offset + ls) as int];
            let nal_type = (header % 32) as u8;
            let body = sample.subrange((offset + ls + 1) as int, nal_end as int);
            let m2 = if nal_type == 7 { ingest_sps_spec(m, body) } else if nal_type == 8 { ingest_pps_spec(m, body) } else { m };
            let rest = slice_data_total(sample, ls, nal_end, m2);
            if nal_type == 1 || nal_type == 5 {
                match slice_header_len_spec(body, nal_type, ((header / 32) % 4) as u8, m2) {
                    Some(sh) => (body.len() - sh) as nat + rest,
                    None => rest,
                }
            } else {
                rest
            }
        }
    }
}

/// The totals of two plans joined.
proof fn lemma_totals_cat(a: Seq<Subsample>, b: Seq<Subsample>)
    ensures
        encrypted_total(a + b) == encrypted_total(a) + encrypted_total(b),
        clear_total(a + b) == clear_total(a) + clear_total(b),
    decreases b.len(),
{
    if b.len() == 0 {
        assert(a + b =~= a);
    } else {
        lemma_totals_cat(a, b.drop_last());
        assert((a + b).drop_last() =~= a + b.drop_last());
    }
}

/// A clear run and an encrypted run split into subsamples keep their
/// byte counts.
proof fn lemma_clear_split_totals(c: nat, e: u64)
    requires
        e <= u32::MAX,
    ensures
        clear_total(clear_split(c, e)) == c,
        encrypted_total(clear_split(c, e)) == e,
    decreases c,
{
    let one = seq![Subsample { clear: 0xFFFF, encrypted: 0 }];
    let e0 = Seq::<Subsample>::empty();
    assert(clear_total(e0) == 0 && encrypted_total(e0) == 0);
    if c > 0xFFFF {
        lemma_clear_split_totals((c - 0xFFFF) as nat, e);
        lemma_totals_cat(one, clear_split((c - 0xFFFF) as nat, e));
        assert(one.drop_last() =~= e0);
        assert(one.last().clear == 0xFFFF);
        assert(clear_total(one) == 0xFFFF);
        assert(encrypted_total(one) == 0);
        assert(clear_split(c, e) == one + clear_split((c - 0xFFFF) as nat, e));
    } else {
        let last = seq![Subsample { clear: c as u32, encrypted: e as u32 }];
        assert(last.drop_last() =~= e0);
        assert(last.last().clear == c && last.last().encrypted == e);
        assert(clear_split(c, e) == last);
        assert(clear_total(last) == c);
        assert(encrypted_total(last) == e);
    }
}

/// A measured slice header lies within its NAL body.
proof fn lemma_raw_len_bound(raw: Seq<u8>, n: nat, i: nat, count: nat)
    requires
        i <= raw.len(),
    ensures
        raw_len_from(raw, n, i, count) <= raw.len(),
    decreases raw.len() - i,
{
    if !(i >= raw.len() || count >= n) {
        if i + 3 < raw.len() && raw[i as int] == 0 && raw[(i + 1) as int] == 0 && raw[(i + 2) as int] == 3 && raw[(i + 3) as int] <= 3 {
            lemma_raw_len_bound(raw, n, i + 3, count + 2);
        } else {
            lemma_raw_len_bound(raw, n, i + 1, count + 1);
        }
    }
}

/// Planning from `offset` adds the slice data of the units there to the
/// encrypted bytes, and every remaining byte, with the pending clear
/// ones, to the plan.
proof fn lemma_plan_totals(sample: Seq<u8>, ls: nat, offset: nat, pending: nat, m: ParamModel, out: Seq<Subsample>)
    requires
        sample.len() <= u32::MAX,
        offset <= sample.len(),
        plan_from(sample, ls, offset, pending, m, out) is Ok,
    ensures ({
        let subs = plan_from(sample, ls, offset, pending, m, out)->Ok_0.0;
        &&& encrypted_total(subs) == encrypted_total(out) + slice_data_total(sample, ls, offset, m)
        &&& clear_total(subs) + encrypted_total(subs) == clear_total(out) + encrypted_total(out) + pending + (sample.len() - offset)
    }),
    decreases sample.len() - offset,
{
    if offset >= sample.len() {
        if pending > 0 {
            lemma_clear_split_totals(pending, 0);
            lemma_totals_cat(out, clear_split(pending, 0));
        }
    } else {
        let nal_len = be_value(sample.subrange(offset as int, (offset + ls) as int));
        let prefix_end = offset + ls;
        let nal_end = prefix_end + nal_len;
        let header = sample[prefix_end as int];
        let nal_type = (header % 32) as u8;
        let nri = ((header / 32) % 4) as u8;
        let body = sample.subrange((prefix_end + 1) as int, nal_end as int);
        let m2 = if nal_type == 7 { ingest_sps_spec(m, body) } else if nal_type == 8 { ingest_pps_spec(m, body) } else { m };
        if nal_type == 1 || nal_type == 5 {
            let sh = slice_header_len_spec(body, nal_type, nri, m2)->Some_0;
            assert(sh <= body.len()) by {
                reveal(slice_header_len_spec);
                lemma_raw_len_bound_any(body);
            }
            let leader = 1 + sh;
            let clear = pending + ls + leader;
            let encrypted = (nal_len - leader) as u64;
            let split = clear_split(clear, encrypted);
            lemma_clear_split_totals(clear, encrypted);
            lemma_totals_cat(out, split);
            lemma_plan_totals(sample, ls, nal_end, 0, m2, out + split);
        } else {
            lemma_plan_totals(sample, ls, nal_end, pending + ls + nal_len, m2, out);
        }
    }
}

/// Every raw length measured on a body lies within it.
proof fn lemma_raw_len_bound_any(raw: Seq<u8>)
    ensures
        forall|n: nat| #[trigger] raw_len_from(raw, n, 0, 0) <= raw.len(),
{
    assert forall|n: nat| #[trigger] raw_len_from(raw, n, 0, 0) <= raw.len() by {
        lemma_raw_len_bound(raw, n, 0, 0);
    }
}

/// A plan encrypts exactly the slice data of the sample: the bytes of
/// every NAL unit of type 1 or 5 after its header byte and slice header,
/// and nothing else; with the clear bytes it covers the whole sample.
pub proof fn lemma_plan_encrypts_slice_data(sample: Seq<u8>, ls: nat, m: ParamModel)
    requires
        sample.len() <= u32::MAX,
        plan_from(sample, ls, 0, 0, m, Seq::empty()) is Ok,
    ensures
        encrypted_total(plan_from(sample, ls, 0, 0, m, Seq::empty())->Ok_0.0) == slice_data_total(sample, ls, 0, m),
        clear_total(plan_from(sample, ls, 0, 0, m, Seq::empty())->Ok_0.0)
            + encrypted_total(plan_from(sample, ls, 0, 0, m, Seq::empty())->Ok_0.0) == sample.len(),
{
    lemma_plan_totals(sample, ls, 0, 0, m, Seq::empty());
}

} // verus!
