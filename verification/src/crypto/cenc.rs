//! `cenc` sample encryption: AES-128-CTR over the encrypted byte ranges of
//! a sample, one keystream running across them; per-sample IVs; and the
//! number of cipher blocks a sample uses.

use vstd::prelude::*;
use vstd::arithmetic::power2::pow2;
use crate::crypto::aes::{xor_keystream, be_value, be_bytes};
use crate::crypto::ctr::Aes128CtrCipher;
use crate::crypto::encrypter::Iv;
use crate::crypto::error::Error;

verus! {

/// A subsample: `clear` bytes left as they are, then `encrypted` bytes.
#[derive(Debug, Clone, Copy, PartialEq, Eq, Structural)]
pub struct Subsample {
    pub clear: u32,
    pub encrypted: u32,
}

/// Total bytes (clear and encrypted) of subsamples.
pub open spec fn subsamples_total(s: Seq<Subsample>) -> nat
    decreases s.len(),
{
    if s.len() == 0 {
        0
    } else {
        (s[0].clear + s[0].encrypted + subsamples_total(s.drop_first())) as nat
    }
}

/// Total encrypted bytes of subsamples.
pub open spec fn subsamples_encrypted(s: Seq<Subsample>) -> nat
    decreases s.len(),
{
    if s.len() == 0 {
        0
    } else {
        (s[0].encrypted + subsamples_encrypted(s.drop_first())) as nat
    }
}

/// `cenc` applied to `d` by subsamples `s`, the keystream being at position
/// `p`: clear ranges stay, encrypted ranges are XORed with the keystream,
/// which advances over encrypted bytes only.
pub open spec fn cenc_spans(key: Seq<u8>, iv: Seq<u8>, s: Seq<Subsample>, d: Seq<u8>, p: nat) -> Seq<u8>
    decreases s.len(),
{
    if s.len() == 0 {
        d
    } else {
        let c = s[0].clear as int;
        let e = s[0].encrypted as int;
        d.subrange(0, c) + xor_keystream(key, iv, p, d.subrange(c, c + e))
            + cenc_spans(key, iv, s.drop_first(), d.subrange(c + e, d.len() as int), p + e as nat)
    }
}

/// The outcome of `cenc` on a sample: without subsamples the whole sample is
/// encrypted; otherwise the subsample sizes must add up to its length.
pub open spec fn cenc_spec(key: Seq<u8>, iv: Seq<u8>, s: Seq<Subsample>, d: Seq<u8>) -> Result<Seq<u8>, Error> {
    if s.len() == 0 {
        Ok(xor_keystream(key, iv, 0, d))
    } else if subsamples_total(s) != d.len() {
        Err(Error::SubsampleByteMismatch { expected: d.len() as usize, actual: subsamples_total(s) as usize })
    } else {
        Ok(cenc_spans(key, iv, s, d, 0))
    }
}

/// A suffix of subsamples has at most the total and the encrypted bytes
/// of the whole.
proof fn lemma_suffix_totals(s: Seq<Subsample>, k: int)
    requires
        0 <= k <= s.len(),
    ensures
        subsamples_total(s.subrange(k, s.len() as int)) <= subsamples_total(s),
        subsamples_encrypted(s.subrange(k, s.len() as int)) <= subsamples_encrypted(s),
    decreases k,
{
    if k == 0 {
        assert(s.subrange(0, s.len() as int) =~= s);
    } else {
        lemma_suffix_totals(s, k - 1);
        assert(s.subrange(k - 1, s.len() as int).drop_first() =~= s.subrange(k, s.len() as int));
    }
}

/// Sum of `clear + encrypted` over the subsamples.
pub(crate) fn subsamples_total_exec(s: &[Subsample]) -> (t: u64)
    requires
        subsamples_total(s@) <= u64::MAX,
    ensures
        t == subsamples_total(s@),
{
    let n = s.len();
    let mut k: usize = n;
    let mut t: u64 = 0;
    while k > 0
        invariant
            k <= n == s@.len(),
            subsamples_total(s@) <= u64::MAX,
            t == subsamples_total(s@.subrange(k as int, n as int)),
        decreases k,
    {
        k = k - 1;
        proof {
            let r = s@.subrange(k as int, n as int);
            assert(r.drop_first() =~= s@.subrange(k + 1, n as int));
            lemma_suffix_totals(s@, k as int);
        }
        t = t + s[k].clear as u64 + s[k].encrypted as u64;
    }
    assert(s@.subrange(0, n as int) =~= s@);
    t
}

/// Sum of `encrypted` over `s`.
fn encrypted_total(s: &[Subsample]) -> (t: u64)
    requires
        subsamples_encrypted(s@) <= u64::MAX,
    ensures
        t == subsamples_encrypted(s@),
{
    let n = s.len();
    let mut k: usize = n;
    let mut t: u64 = 0;
    while k > 0
        invariant
            k <= n == s@.len(),
            subsamples_encrypted(s@) <= u64::MAX,
            t == subsamples_encrypted(s@.subrange(k as int, n as int)),
        decreases k,
    {
        k = k - 1;
        proof {
            let r = s@.subrange(k as int, n as int);
            assert(r.drop_first() =~= s@.subrange(k + 1, n as int));
            lemma_suffix_totals(s@, k as int);
        }
        t = t + s[k].encrypted as u64;
    }
    assert(s@.subrange(0, n as int) =~= s@);
    t
}

/// Apply `cenc` encryption to `buf` in place. Without subsamples the whole
/// buffer is encrypted; otherwise their sizes must add up to its length
/// (else nothing changes), and the keystream runs across the encrypted
/// ranges only.
pub fn apply_cenc_subsamples(key: &[u8; 16], iv: &[u8; 16], subsamples: &[Subsample], buf: &mut [u8]) -> (r: Result<(), Error>)
    requires
        subsamples_total(subsamples@) <= u64::MAX,
        old(buf)@.len() <= u64::MAX,
    ensures
        match cenc_spec(key@, iv@, subsamples@, old(buf)@) {
            Ok(out) => r is Ok && final(buf)@ == out,
            Err(e) => r == Err::<(), Error>(e) && final(buf)@ == old(buf)@,
        },
{
    if subsamples.len() == 0 {
        let mut cipher = Aes128CtrCipher::new(key, iv);
        cipher.apply_keystream(buf);
        return Ok(());
    }
    let total = subsamples_total_exec(subsamples);
    if total != buf.len() as u64 {
        return Err(Error::SubsampleByteMismatch { expected: buf.len(), actual: total as usize });
    }
    let ghost d = old(buf)@;
    let ghost s = subsamples@;
    let n = subsamples.len();
    let mut cipher = Aes128CtrCipher::new(key, iv);
    let blen = buf.len();
    let mut offset: usize = 0;
    let mut k: usize = 0;
    let ghost mut done: Seq<u8> = Seq::empty();
    assert(s.subrange(0, n as int) =~= s);
    assert(d.subrange(0, d.len() as int) =~= d);
    while k < n
        invariant
            n == s.len() == subsamples@.len(),
            s == subsamples@,
            k <= n,
            d.len() == buf@.len(),
            d.len() == blen,
            offset <= d.len(),
            cipher.key() == key@,
            cipher.iv() == iv@,
            cipher.pos() <= offset,
            subsamples_total(s.subrange(k as int, n as int)) == d.len() - offset,
            done.len() == offset,
            buf@ == done + d.subrange(offset as int, d.len() as int),
            cenc_spans(key@, iv@, s, d, 0) == done + cenc_spans(key@, iv@, s.subrange(k as int, n as int),
                d.subrange(offset as int, d.len() as int), cipher.pos()),
        decreases n - k,
    {
        let ghost rest = d.subrange(offset as int, d.len() as int);
        let ghost r = s.subrange(k as int, n as int);
        let sub = subsamples[k];
        proof {
            assert(r[0] == sub);
            assert(r.drop_first() =~= s.subrange(k + 1, n as int));
            assert(subsamples_total(r) == sub.clear + sub.encrypted + subsamples_total(r.drop_first()));
        }
        let clear = sub.clear as usize;
        let enc = sub.encrypted as usize;
        let ghost p = cipher.pos();
        let ghost before = buf@;
        offset = offset + clear;
        if enc > 0 {
            cipher.apply_keystream_range(buf, offset, enc);
        }
        proof {
            let c = clear as int;
            let e = enc as int;
            let x = xor_keystream(key@, iv@, p, rest.subrange(c, c + e));
            assert(rest.subrange(c, c + e) =~= d.subrange(offset as int, offset + e));
            if enc == 0 {
                assert(x =~= Seq::<u8>::empty());
            }
            assert(buf@ =~= (done + rest.subrange(0, c) + x) + d.subrange(offset + e, d.len() as int));
            assert(rest.subrange(c + e, rest.len() as int) =~= d.subrange(offset + e, d.len() as int));
            assert(done + (rest.subrange(0, c) + x + cenc_spans(key@, iv@, r.drop_first(),
                rest.subrange(c + e, rest.len() as int), p + e as nat))
                =~= (done + rest.subrange(0, c) + x) + cenc_spans(key@, iv@, r.drop_first(),
                rest.subrange(c + e, rest.len() as int), p + e as nat));
            done = done + rest.subrange(0, c) + x;
        }
        offset = offset + enc;
        k = k + 1;
    }
    proof {
        assert(cenc_spans(key@, iv@, s.subrange(n as int, n as int), d.subrange(offset as int, d.len() as int), cipher.pos())
            == d.subrange(offset as int, d.len() as int));
        assert(buf@ =~= done + d.subrange(offset as int, d.len() as int));
    }
    Ok(())
}

/// The per-sample initial counter block. With an 8-byte IV: the high 8
/// bytes are the IV's number plus `sample_index` (mod `2^64`), the low 8
/// bytes are zero. With a 16-byte IV: the IV's 128-bit number plus
/// `block_offset` (mod `2^128`).
pub open spec fn per_sample_iv_spec(base_iv: Iv, sample_index: u64, block_offset: u128) -> Seq<u8> {
    match base_iv {
        Iv::Bytes8(b) => be_bytes(((be_value(b@) + sample_index) as nat) % pow2(64), 8) + Seq::new(8, |i: int| 0u8),
        Iv::Bytes16(b) => be_bytes(((be_value(b@) + block_offset) as nat) % pow2(128), 16),
    }
}

/// The number of bytes `b`, read big-endian.
fn be_u128(b: &[u8]) -> (v: u128)
    requires
        b@.len() <= 16,
    ensures
        v as nat == be_value(b@),
{
    let mut v: u128 = 0;
    let mut i: usize = 0;
    proof {
        vstd::arithmetic::power2::lemma2_to64();
        assert(b@.subrange(0, 0) =~= Seq::<u8>::empty());
    }
    while i < b.len()
        invariant
            i <= b@.len() <= 16,
            v as nat == be_value(b@.subrange(0, i as int)),
            (v as nat) < pow2(8 * i as nat),
        decreases b@.len() - i,
    {
        proof {
            let t = b@.subrange(0, i + 1);
            assert(t.drop_last() =~= b@.subrange(0, i as int));
            vstd::arithmetic::power2::lemma_pow2_adds(8 * i as nat, 8);
            vstd::arithmetic::power2::lemma2_to64();
            assert(pow2(8 * (i + 1) as nat) == pow2(8 * i as nat) * 256);
            assert(v * 256 + b@[i as int] < pow2(8 * (i + 1) as nat)) by (nonlinear_arith)
                requires v < pow2(8 * i as nat), b@[i as int] < 256, pow2(8 * (i + 1) as nat) == pow2(8 * i as nat) * 256;
            vstd::arithmetic::power2::lemma_pow2_strictly_increases(8 * (i + 1) as nat, 129);
            if i + 1 < 16 {
                vstd::arithmetic::power2::lemma_pow2_strictly_increases(8 * (i + 1) as nat, 128);
            }
            lemma_pow2_128();
        }
        v = v * 256 + b[i] as u128;
        i = i + 1;
    }
    assert(b@.subrange(0, b@.len() as int) =~= b@);
    v
}

/// The `n` big-endian bytes of `v mod 256^n`.
fn u128_be_bytes(v: u128, n: usize) -> (r: Vec<u8>)
    requires
        n <= 16,
    ensures
        r@ == be_bytes(v as nat, n as nat),
{
    let mut out: Vec<u8> = Vec::new();
    let mut i: usize = 0;
    // digits from the least significant; reversed at the end
    let mut x: u128 = v;
    let mut rev: Vec<u8> = Vec::new();
    proof {
        vstd::arithmetic::power2::lemma2_to64();
    }
    while i < n
        invariant
            i <= n <= 16,
            x as nat == v as nat / pow2(8 * i as nat),
            rev@.len() == i,
            forall|j: int| 0 <= j < i ==> #[trigger] rev@[j] == ((v as nat / pow2(8 * j as nat)) % 256) as u8,
        decreases n - i,
    {
        proof {
            vstd::arithmetic::power2::lemma_pow2_adds(8 * i as nat, 8);
            vstd::arithmetic::power2::lemma2_to64();
            vstd::arithmetic::power2::lemma_pow2_pos(8 * i as nat);
            vstd::arithmetic::div_mod::lemma_div_denominator(v as int, pow2(8 * i as nat) as int, 256);
        }
        rev.push((x % 256) as u8);
        x = x / 256;
        i = i + 1;
    }
    let mut k: usize = n;
    while k > 0
        invariant
            k <= n <= 16,
            rev@.len() == n,
            forall|j: int| 0 <= j < n ==> #[trigger] rev@[j] == ((v as nat / pow2(8 * j as nat)) % 256) as u8,
            out@ == be_bytes(v as nat / pow2(8 * k as nat), (n - k) as nat),
        decreases k,
    {
        k = k - 1;
        proof {
            vstd::arithmetic::power2::lemma_pow2_adds(8 * k as nat, 8);
            vstd::arithmetic::power2::lemma2_to64();
            vstd::arithmetic::power2::lemma_pow2_pos(8 * k as nat);
            vstd::arithmetic::div_mod::lemma_div_denominator(v as int, pow2(8 * k as nat) as int, 256);
            let w = v as nat / pow2(8 * k as nat);
            assert(be_bytes(w, (n - k) as nat) == be_bytes(w / 256, (n - k - 1) as nat).push((w % 256) as u8));
        }
        out.push(rev[k]);
    }
    assert(pow2(0) == 1) by {
        vstd::arithmetic::power2::lemma2_to64();
    }
    assert(v as nat / pow2(0) == v as nat);
    out
}

/// Derive the initial counter block of a sample (see `per_sample_iv_spec`).
pub fn derive_per_sample_iv(base_iv: &Iv, sample_index: u64, block_offset: u128) -> (r: [u8; 16])
    ensures
        r@ == per_sample_iv_spec(*base_iv, sample_index, block_offset),
{
    match base_iv {
        Iv::Bytes8(b) => {
            let base_hi = be_u128(b.as_slice()) as u64;
            proof {
                lemma_be_value_bound(b@);
                vstd::arithmetic::power2::lemma2_to64();
            }
            let per_sample = base_hi.wrapping_add(sample_index);
            let hi = u128_be_bytes(per_sample as u128, 8);
            proof {
                crate::crypto::aes::lemma_be_bytes_len(per_sample as nat, 8);
            }
            let mut iv: [u8; 16] = [0u8, 0u8, 0u8, 0u8, 0u8, 0u8, 0u8, 0u8, 0u8, 0u8, 0u8, 0u8, 0u8, 0u8, 0u8, 0u8];
            let mut i: usize = 0;
            while i < 8
                invariant
                    i <= 8,
                    hi@.len() == 8,
                    iv@.len() == 16,
                    forall|j: int| 0 <= j < i ==> iv@[j] == hi@[j],
                    forall|j: int| 8 <= j < 16 ==> iv@[j] == 0u8,
                decreases 8 - i,
            {
                iv[i] = hi[i];
                i = i + 1;
            }
            proof {
                assert((base_hi as nat + sample_index as nat) % 0x1_0000_0000_0000_0000 == per_sample as nat);
                assert(iv@ =~= hi@ + Seq::new(8, |i: int| 0u8));
            }
            iv
        },
        Iv::Bytes16(b) => {
            let base = be_u128(b.as_slice());
            let sum = base.wrapping_add(block_offset);
            proof {
                lemma_pow2_128();
            }
            let v = u128_be_bytes(sum, 16);
            proof {
                crate::crypto::aes::lemma_be_bytes_len(sum as nat, 16);
            }
            let mut iv: [u8; 16] = [0u8, 0u8, 0u8, 0u8, 0u8, 0u8, 0u8, 0u8, 0u8, 0u8, 0u8, 0u8, 0u8, 0u8, 0u8, 0u8];
            let mut i: usize = 0;
            while i < 16
                invariant
                    i <= 16,
                    v@.len() == 16,
                    iv@.len() == 16,
                    forall|j: int| 0 <= j < i ==> iv@[j] == v@[j],
                decreases 16 - i,
            {
                iv[i] = v[i];
                i = i + 1;
            }
            assert(iv@ =~= v@);
            iv
        },
    }
}

/// `2^128` is one more than the largest `u128`.
proof fn lemma_pow2_128()
    ensures
        pow2(128) == u128::MAX as nat + 1,
        pow2(64) == u64::MAX as nat + 1,
{
    vstd::arithmetic::power2::lemma2_to64();
    vstd::arithmetic::power2::lemma_pow2_adds(64, 64);
}

/// A big-endian number of `n` bytes is below `2^(8n)`.
proof fn lemma_be_value_bound(s: Seq<u8>)
    ensures
        be_value(s) < pow2(8 * s.len()),
    decreases s.len(),
{
    vstd::arithmetic::power2::lemma2_to64();
    if s.len() > 0 {
        lemma_be_value_bound(s.drop_last());
        vstd::arithmetic::power2::lemma_pow2_adds(8 * (s.len() - 1) as nat, 8);
        assert(be_value(s.drop_last()) * 256 + s.last() < pow2(8 * s.len())) by (nonlinear_arith)
            requires be_value(s.drop_last()) < pow2(8 * (s.len() - 1) as nat), s.last() < 256,
                pow2(8 * s.len()) == pow2(8 * (s.len() - 1) as nat) * 256;
    }
}

/// Number of 16-byte cipher blocks the encrypted bytes of a sample use:
/// the whole sample without subsamples, else the encrypted ranges.
pub open spec fn encrypted_block_count_spec(s: Seq<Subsample>, sample_len: nat) -> nat {
    let e = if s.len() == 0 { sample_len } else { subsamples_encrypted(s) };
    (e + 15) / 16
}

/// Number of 16-byte cipher blocks a sample's encrypted data consumes.
pub fn encrypted_block_count(subsamples: &[Subsample], sample_len: usize) -> (r: u128)
    requires
        subsamples@.len() > 0 ==> subsamples_encrypted(subsamples@) <= u64::MAX,
    ensures
        r == encrypted_block_count_spec(subsamples@, sample_len as nat),
{
    let encrypted: u64 = if subsamples.len() == 0 { sample_len as u64 } else { encrypted_total(subsamples) };
    let blocks: u64 = encrypted / 16 + if encrypted % 16 != 0 { 1 } else { 0 };
    assert(blocks == (encrypted + 15) / 16);
    blocks as u128
}

} // verus!
