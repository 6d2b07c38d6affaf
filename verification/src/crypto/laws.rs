//! Laws of sample encryption: which bytes each scheme changes, and how.

use vstd::prelude::*;
use crate::crypto::aes::{ctr_keystream, aes128_block};
use crate::crypto::cenc::{Subsample, subsamples_total, cenc_spans, cenc_spec};
use crate::crypto::cbc::{cbcs_pattern_spec, cbcs_blocks, block_of, xor16};

verus! {

/// Where byte `k` of a sample falls under subsamples `s`: `None` in a
/// clear range, `Some(j)` when it is encrypted byte number `j`, counting
/// the encrypted bytes of the sample only.
pub open spec fn encrypted_index(s: Seq<Subsample>, k: int) -> Option<nat>
    decreases s.len(),
{
    if s.len() == 0 {
        None
    } else {
        let c = s[0].clear as int;
        let e = s[0].encrypted as int;
        if k < c {
            None
        } else if k < c + e {
            Some((k - c) as nat)
        } else {
            match encrypted_index(s.drop_first(), k - c - e) {
                Some(j) => Some(j + e as nat),
                None => None,
            }
        }
    }
}

/// The spans from keystream position `p` keep the clear bytes and XOR
/// encrypted byte `j` with keystream byte `p + j`.
proof fn lemma_cenc_spans_bytes(key: Seq<u8>, iv: Seq<u8>, s: Seq<Subsample>, d: Seq<u8>, p: nat, k: int)
    requires
        subsamples_total(s) == d.len(),
        0 <= k < d.len(),
    ensures
        cenc_spans(key, iv, s, d, p).len() == d.len(),
        match encrypted_index(s, k) {
            None => cenc_spans(key, iv, s, d, p)[k] == d[k],
            Some(j) => cenc_spans(key, iv, s, d, p)[k] == d[k] ^ ctr_keystream(key, iv, p + j),
        },
    decreases s.len(),
{
    if s.len() > 0 {
        let c = s[0].clear as int;
        let e = s[0].encrypted as int;
        let rest = d.subrange(c + e, d.len() as int);
        let k2 = if k >= c + e { k - c - e } else { 0 };
        if rest.len() > 0 {
            lemma_cenc_spans_bytes(key, iv, s.drop_first(), rest, p + e as nat, k2);
        } else {
            lemma_cenc_spans_len(key, iv, s.drop_first(), rest, p + e as nat);
        }
        if k >= c + e {
            assert(rest[k - c - e] == d[k]);
            match encrypted_index(s.drop_first(), k - c - e) {
                Some(j) => {
                    assert(p + e as nat + j == p + (j + e as nat));
                },
                None => {},
            }
        }
    }
}

/// The spans are as long as the sample.
proof fn lemma_cenc_spans_len(key: Seq<u8>, iv: Seq<u8>, s: Seq<Subsample>, d: Seq<u8>, p: nat)
    requires
        subsamples_total(s) == d.len(),
    ensures
        cenc_spans(key, iv, s, d, p).len() == d.len(),
    decreases s.len(),
{
    if s.len() > 0 {
        let c = s[0].clear as int;
        let e = s[0].encrypted as int;
        lemma_cenc_spans_len(key, iv, s.drop_first(), d.subrange(c + e, d.len() as int), p + e as nat);
    }
}

/// `cenc` with subsamples leaves every byte of a clear range as it is and
/// XORs the encrypted bytes, in order, with the AES-CTR keystream from
/// its start: encrypted byte `j` of the sample with keystream byte `j`.
pub proof fn lemma_cenc_bytes(key: Seq<u8>, iv: Seq<u8>, s: Seq<Subsample>, d: Seq<u8>, k: int)
    requires
        s.len() > 0,
        subsamples_total(s) == d.len(),
        0 <= k < d.len(),
    ensures
        cenc_spec(key, iv, s, d) is Ok,
        cenc_spec(key, iv, s, d)->Ok_0.len() == d.len(),
        match encrypted_index(s, k) {
            None => cenc_spec(key, iv, s, d)->Ok_0[k] == d[k],
            Some(j) => cenc_spec(key, iv, s, d)->Ok_0[k] == d[k] ^ ctr_keystream(key, iv, j),
        },
{
    lemma_cenc_spans_bytes(key, iv, s, d, 0, k);
}

/// The pattern blocks `b0..nb`: sixteen bytes each, a block outside the
/// encrypted part of its cycle as it was.
proof fn lemma_cbcs_blocks(key: Seq<u8>, span: Seq<u8>, b0: nat, nb: nat, crypt: nat, cycle: nat, prev: Seq<u8>, b: nat)
    requires
        16 * nb <= span.len(),
        b0 <= nb,
        (forall|x: Seq<u8>, y: Seq<u8>| #[trigger] aes128_block(x, y).len() == 16),
    ensures
        cbcs_blocks(key, span, b0, nb, crypt, cycle, prev).len() == 16 * (nb - b0),
        b0 <= b < nb && b % cycle >= crypt ==> cbcs_blocks(key, span, b0, nb, crypt, cycle, prev).subrange(
            16 * (b - b0), 16 * (b - b0) + 16) == block_of(span, b),
    decreases nb - b0,
{
    if b0 < nb {
        let out = cbcs_blocks(key, span, b0, nb, crypt, cycle, prev);
        let first = if b0 % cycle < crypt { aes128_block(key, xor16(block_of(span, b0), prev)) } else { block_of(span, b0) };
        let next = if b0 % cycle < crypt { first } else { prev };
        let rest = cbcs_blocks(key, span, b0 + 1, nb, crypt, cycle, next);
        lemma_cbcs_blocks(key, span, b0 + 1, nb, crypt, cycle, next, b);
        assert(out == first + rest);
        assert(first.len() == 16);
        if b0 <= b < nb && b % cycle >= crypt {
            if b == b0 {
                assert(out.subrange(0, 16) =~= first);
            } else {
                assert(out.subrange(16 * (b - b0), 16 * (b - b0) + 16) =~= rest.subrange(16 * (b - b0 - 1), 16 * (b - b0 - 1) + 16));
            }
        }
    }
}

/// The `cbcs` pattern `crypt:skip` (with `crypt > 0`) on a protected range:
/// the output is as long as the range; the first block is the AES-128
/// encryption of the first input block XOR the constant IV; every block
/// `b` with `b % (crypt + skip) >= crypt` (the skipped blocks of each
/// cycle) and the bytes after the last whole block stay as they were.
pub proof fn lemma_cbcs_pattern_blocks(key: Seq<u8>, iv: Seq<u8>, crypt: u8, skip: u8, span: Seq<u8>, b: nat)
    requires
        crypt > 0,
        16 <= span.len(),
        (forall|x: Seq<u8>, y: Seq<u8>| #[trigger] aes128_block(x, y).len() == 16),
    ensures ({
        let out = cbcs_pattern_spec(key, iv, crypt, skip, span);
        let nb = span.len() / 16;
        &&& out.len() == span.len()
        &&& out.subrange(0, 16) == aes128_block(key, xor16(block_of(span, 0), iv))
        &&& (b < nb && b % (crypt + skip) as nat >= crypt ==> block_of(out, b) == block_of(span, b))
        &&& out.subrange(16 * nb as int, span.len() as int) == span.subrange(16 * nb as int, span.len() as int)
    }),
{
    let nb = span.len() / 16;
    let cycle = (crypt + skip) as nat;
    let blocks = cbcs_blocks(key, span, 0, nb, crypt as nat, cycle, iv);
    let tail = span.subrange(16 * nb as int, span.len() as int);
    lemma_cbcs_blocks(key, span, 0, nb, crypt as nat, cycle, iv, b);
    let out = cbcs_pattern_spec(key, iv, crypt, skip, span);
    assert(out == blocks + tail);
    assert(0nat % cycle == 0) by (nonlinear_arith) requires cycle > 0;
    let c0 = aes128_block(key, xor16(block_of(span, 0), iv));
    assert(blocks == c0 + cbcs_blocks(key, span, 1, nb, crypt as nat, cycle, c0));
    assert(out.subrange(0, 16) =~= c0);
    assert(out.subrange(16 * nb as int, span.len() as int) =~= tail);
    if b < nb && b % cycle >= crypt {
        assert(block_of(out, b) =~= blocks.subrange(16 * b as int, 16 * b as int + 16));
    }
}

} // verus!
