//! `cbcs` sample encryption: AES-128-CBC over whole 16-byte blocks with a
//! crypt/skip pattern; every protected range restarts from the constant IV.

use vstd::prelude::*;
use crate::crypto::aes::{aes128_block, aes128_encrypt_block};
use crate::crypto::cenc::{Subsample, subsamples_total};
use crate::crypto::error::Error;

verus! {

/// AES-128 block cipher for the `cbcs` pattern, described by its key.
pub struct Aes128CbcPatternCipher {
    key: [u8; 16],
}

/// The bytewise XOR of two 16-byte blocks.
pub open spec fn xor16(a: Seq<u8>, b: Seq<u8>) -> Seq<u8> {
    Seq::new(16, |i: int| a[i] ^ b[i])
}

/// The 16-byte block `b` of `span`.
pub open spec fn block_of(span: Seq<u8>, b: nat) -> Seq<u8> {
    span.subrange(16 * b as int, (16 * b + 16) as int)
}

/// The output blocks `b..nb` of the pattern: a block with `b % cycle < crypt`
/// is CBC-encrypted, chained to the previous encrypted block (`prev`);
/// other blocks stay clear and leave the chain as it is.
pub open spec fn cbcs_blocks(key: Seq<u8>, span: Seq<u8>, b: nat, nb: nat, crypt: nat, cycle: nat, prev: Seq<u8>) -> Seq<u8>
    decreases nb - b,
{
    if b >= nb {
        Seq::empty()
    } else if b % cycle < crypt {
        let c = aes128_block(key, xor16(block_of(span, b), prev));
        c + cbcs_blocks(key, span, b + 1, nb, crypt, cycle, c)
    } else {
        block_of(span, b) + cbcs_blocks(key, span, b + 1, nb, crypt, cycle, prev)
    }
}

/// One protected range encrypted with the pattern `crypt:skip` from the
/// constant IV `iv`; a pattern `0:x` encrypts every whole block, and the
/// bytes after the last whole block stay clear.
pub open spec fn cbcs_pattern_spec(key: Seq<u8>, iv: Seq<u8>, crypt: u8, skip: u8, span: Seq<u8>) -> Seq<u8> {
    let nb = span.len() / 16;
    if nb == 0 {
        span
    } else {
        let c: nat = if crypt == 0 { nb } else { crypt as nat };
        let cycle: nat = if crypt == 0 { nb } else { (crypt + skip) as nat };
        cbcs_blocks(key, span, 0, nb, c, cycle, iv) + span.subrange(16 * nb as int, span.len() as int)
    }
}

/// `cbcs` applied to `d` by subsamples `s`: clear ranges stay; each
/// encrypted range is encrypted on its own from the constant IV.
pub open spec fn cbcs_spans(key: Seq<u8>, iv: Seq<u8>, crypt: u8, skip: u8, s: Seq<Subsample>, d: Seq<u8>) -> Seq<u8>
    decreases s.len(),
{
    if s.len() == 0 {
        d
    } else {
        let c = s[0].clear as int;
        let e = s[0].encrypted as int;
        d.subrange(0, c) + cbcs_pattern_spec(key, iv, crypt, skip, d.subrange(c, c + e))
            + cbcs_spans(key, iv, crypt, skip, s.drop_first(), d.subrange(c + e, d.len() as int))
    }
}

/// The outcome of `cbcs` on a sample: without subsamples the whole sample is
/// one protected range; otherwise the subsample sizes must add up to its
/// length.
pub open spec fn cbcs_spec(key: Seq<u8>, iv: Seq<u8>, crypt: u8, skip: u8, s: Seq<Subsample>, d: Seq<u8>) -> Result<Seq<u8>, Error> {
    if s.len() == 0 {
        Ok(cbcs_pattern_spec(key, iv, crypt, skip, d))
    } else if subsamples_total(s) != d.len() {
        Err(Error::SubsampleByteMismatch { expected: d.len() as usize, actual: subsamples_total(s) as usize })
    } else {
        Ok(cbcs_spans(key, iv, crypt, skip, s, d))
    }
}

impl Aes128CbcPatternCipher {
    /// The key.
    pub closed spec fn key(&self) -> Seq<u8> {
        self.key@
    }

    /// A cipher with the given key.
    pub fn new(key: &[u8; 16]) -> (r: Self)
        ensures
            r.key() == key@,
    {
        Aes128CbcPatternCipher { key: *key }
    }

    /// Encrypt the protected range `span[start..start + len]` in place.
    pub(crate) fn apply_pattern_range(&self, constant_iv: &[u8; 16], crypt_byte_block: u8, skip_byte_block: u8,
        span: &mut [u8], start: usize, len: usize)
        requires
            start + len <= old(span)@.len(),
        ensures
            final(span)@ == old(span)@.subrange(0, start as int)
                + cbcs_pattern_spec(self.key(), constant_iv@, crypt_byte_block, skip_byte_block,
                    old(span)@.subrange(start as int, start + len))
                + old(span)@.subrange(start + len, old(span)@.len() as int),
            final(span)@.len() == old(span)@.len(),
    {
        let ghost o = old(span)@;
        let slen = span.len();
        let ghost d = o.subrange(start as int, start + len);
        let full_blocks = len / 16;
        if full_blocks == 0 {
            assert(o =~= o.subrange(0, start as int) + d + o.subrange(start + len, o.len() as int));
            return;
        }
        let crypt: usize = if crypt_byte_block == 0 { full_blocks } else { crypt_byte_block as usize };
        let cycle: usize = if crypt_byte_block == 0 { full_blocks } else { crypt_byte_block as usize + skip_byte_block as usize };
        let mut prev: [u8; 16] = *constant_iv;
        let mut b: usize = 0;
        let ghost mut done: Seq<u8> = Seq::empty();
        while b < full_blocks
            invariant
                full_blocks == len / 16,
                start + len <= o.len(),
                slen == span@.len(),
                d == o.subrange(start as int, start + len),
                span@.len() == o.len(),
                b <= full_blocks,
                cycle > 0,
                done.len() == 16 * b,
                span@ == o.subrange(0, start as int) + done + o.subrange(start + 16 * b, o.len() as int),
                cbcs_blocks(self.key@, d, 0, full_blocks as nat, crypt as nat, cycle as nat, constant_iv@)
                    == done + cbcs_blocks(self.key@, d, b as nat, full_blocks as nat, crypt as nat, cycle as nat, prev@),
            decreases full_blocks - b,
        {
            proof {
                assert(16 * b + 16 <= len) by (nonlinear_arith)
                    requires b < full_blocks, full_blocks == len / 16;
            }
            let off = start + b * 16;
            let ghost blk = block_of(d, b as nat);
            proof {
                assert forall|i: int| 0 <= i < 16 implies #[trigger] blk[i] == span@[off + i] by {
                    assert(span@[off + i] == o.subrange(start + 16 * b, o.len() as int)[i]);
                }
            }
            let ghost rest = cbcs_blocks(self.key@, d, (b + 1) as nat, full_blocks as nat, crypt as nat, cycle as nat, prev@);
            if b % cycle < crypt {
                let mut x: [u8; 16] = prev;
                let mut i: usize = 0;
                while i < 16
                    invariant
                        i <= 16,
                        off + 16 <= span@.len(),
                        slen == span@.len(),
                        x@.len() == 16,
                        forall|j: int| 0 <= j < i ==> x@[j] == (span@[off + j] ^ prev@[j]),
                        forall|j: int| i <= j < 16 ==> x@[j] == prev@[j],
                    decreases 16 - i,
                {
                    x[i] = span[off + i] ^ prev[i];
                    i = i + 1;
                }
                assert(x@ =~= xor16(blk, prev@));
                let c = aes128_encrypt_block(&self.key, &x);
                let ghost before = span@;
                assert(before == o.subrange(0, start as int) + done + o.subrange(start + 16 * b, o.len() as int));
                let mut i: usize = 0;
                while i < 16
                    invariant
                        i <= 16,
                        off + 16 <= span@.len(),
                        slen == span@.len(),
                        span@.len() == before.len(),
                        c@.len() == 16,
                        forall|j: int| 0 <= j < i ==> span@[off + j] == c@[j],
                        forall|j: int| 0 <= j < span@.len() && !(off <= j < off + i) ==> span@[j] == before[j],
                    decreases 16 - i,
                {
                    span[off + i] = c[i];
                    i = i + 1;
                }
                proof {
                    let t = o.subrange(0, start as int) + (done + c@) + o.subrange(start + 16 * (b + 1), o.len() as int);
                    assert forall|j: int| 0 <= j < t.len() implies #[trigger] span@[j] == t[j] by {
                        if j < start {
                            assert(span@[j] == before[j]);
                        } else if j < off {
                            assert(span@[j] == before[j]);
                            assert(before[j] == done[j - start]);
                        } else if j < off + 16 {
                            assert(span@[off + (j - off)] == c@[j - off]);
                        } else {
                            assert(span@[j] == before[j]);
                            assert(before[j] == o.subrange(start + 16 * b, o.len() as int)[j - start - 16 * b]);
                        }
                    }
                    assert(span@ =~= t);
                    assert(done + (c@ + cbcs_blocks(self.key@, d, (b + 1) as nat, full_blocks as nat, crypt as nat, cycle as nat, c@))
                        =~= (done + c@) + cbcs_blocks(self.key@, d, (b + 1) as nat, full_blocks as nat, crypt as nat, cycle as nat, c@));
                    done = done + c@;
                }
                prev = c;
            } else {
                proof {
                    assert(blk =~= o.subrange(start + 16 * b, start + 16 * b + 16));
                    assert(span@ =~= o.subrange(0, start as int) + (done + blk) + o.subrange(start + 16 * (b + 1), o.len() as int));
                    assert(done + (blk + rest) =~= (done + blk) + rest);
                    done = done + blk;
                }
            }
            b = b + 1;
        }
        proof {
            let nb = full_blocks as nat;
            assert(16 * nb <= len);
            assert(d.subrange(16 * nb as int, d.len() as int) =~= o.subrange(start + 16 * nb, start + len));
            assert(span@ =~= o.subrange(0, start as int)
                + (done + d.subrange(16 * nb as int, d.len() as int))
                + o.subrange(start + len, o.len() as int));
        }
    }

    /// Encrypt one protected range in place.
    pub fn apply_pattern(&self, constant_iv: &[u8; 16], crypt_byte_block: u8, skip_byte_block: u8, span: &mut [u8])
        ensures
            final(span)@ == cbcs_pattern_spec(self.key(), constant_iv@, crypt_byte_block, skip_byte_block, old(span)@),
    {
        let len = span.len();
        self.apply_pattern_range(constant_iv, crypt_byte_block, skip_byte_block, span, 0, len);
        proof {
            let o = old(span)@;
            assert(o.subrange(0, len as int) =~= o);
            assert(final(span)@ =~= cbcs_pattern_spec(self.key(), constant_iv@, crypt_byte_block, skip_byte_block, o));
        }
    }
}

/// Apply `cbcs` encryption to `buf` in place. Without subsamples the whole
/// buffer is one protected range; otherwise their sizes must add up to its
/// length (else nothing changes).
pub fn apply_cbcs_subsamples(cipher: &Aes128CbcPatternCipher, constant_iv: &[u8; 16], crypt_byte_block: u8,
    skip_byte_block: u8, subsamples: &[Subsample], buf: &mut [u8]) -> (r: Result<(), Error>)
    requires
        subsamples_total(subsamples@) <= u64::MAX,
    ensures
        match cbcs_spec(cipher.key(), constant_iv@, crypt_byte_block, skip_byte_block, subsamples@, old(buf)@) {
            Ok(out) => r is Ok && final(buf)@ == out,
            Err(e) => r == Err::<(), Error>(e) && final(buf)@ == old(buf)@,
        },
{
    if subsamples.len() == 0 {
        cipher.apply_pattern(constant_iv, crypt_byte_block, skip_byte_block, buf);
        return Ok(());
    }
    let total = crate::crypto::cenc::subsamples_total_exec(subsamples);
    if total != buf.len() as u64 {
        return Err(Error::SubsampleByteMismatch { expected: buf.len(), actual: total as usize });
    }
    let ghost d = old(buf)@;
    let ghost s = subsamples@;
    let ghost key = cipher.key();
    let n = subsamples.len();
    let blen = buf.len();
    let mut offset: usize = 0;
    let mut k: usize = 0;
    let ghost mut done: Seq<u8> = Seq::empty();
    assert(s.subrange(0, n as int) =~= s);
    assert(d.subrange(0, d.len() as int) =~= d);
    while k < n
        invariant
            n == s.len() == subsamples@.len(),
            s == subsamples@,
            key == cipher.key(),
            k <= n,
            d.len() == buf@.len(),
            d.len() == blen,
            offset <= d.len(),
            subsamples_total(s.subrange(k as int, n as int)) == d.len() - offset,
            done.len() == offset,
            buf@ == done + d.subrange(offset as int, d.len() as int),
            cbcs_spans(key, constant_iv@, crypt_byte_block, skip_byte_block, s, d) == done + cbcs_spans(key,
                constant_iv@, crypt_byte_block, skip_byte_block, s.subrange(k as int, n as int),
                d.subrange(offset as int, d.len() as int)),
        decreases n - k,
    {
        let ghost rest = d.subrange(offset as int, d.len() as int);
        let ghost r = s.subrange(k as int, n as int);
        let sub = subsamples[k];
        proof {
            assert(r[0] == sub);
            assert(r.drop_first() =~= s.subrange(k + 1, n as int));
            assert(subsamples_total(r) == sub.clear + sub.encrypted + subsamples_total(r.drop_first()));
        }
        let clear = sub.clear as usize;
        let enc = sub.encrypted as usize;
        offset = offset + clear;
        let ghost before = buf@;
        if enc > 0 {
            cipher.apply_pattern_range(constant_iv, crypt_byte_block, skip_byte_block, buf, offset, enc);
        }
        proof {
            let c = clear as int;
            let e = enc as int;
            assert(before.subrange(offset as int, offset + e) =~= rest.subrange(c, c + e));
            assert(before.subrange(0, offset as int) =~= done + rest.subrange(0, c));
            assert(before.subrange(offset + e, before.len() as int) =~= d.subrange(offset + e, d.len() as int));
            let x = cbcs_pattern_spec(key, constant_iv@, crypt_byte_block, skip_byte_block, rest.subrange(c, c + e));
            assert(rest.subrange(c, c + e) =~= d.subrange(offset as int, offset + e));
            if enc == 0 {
                assert(rest.subrange(c, c + e) =~= Seq::<u8>::empty());
                assert(x =~= Seq::<u8>::empty());
            }
            assert(buf@ =~= (done + rest.subrange(0, c) + x) + d.subrange(offset + e, d.len() as int));
            assert(rest.subrange(c + e, rest.len() as int) =~= d.subrange(offset + e, d.len() as int));
            assert(done + (rest.subrange(0, c) + x + cbcs_spans(key, constant_iv@, crypt_byte_block, skip_byte_block,
                r.drop_first(), rest.subrange(c + e, rest.len() as int)))
                =~= (done + rest.subrange(0, c) + x) + cbcs_spans(key, constant_iv@, crypt_byte_block, skip_byte_block,
                r.drop_first(), rest.subrange(c + e, rest.len() as int)));
            done = done + rest.subrange(0, c) + x;
        }
        offset = offset + enc;
        k = k + 1;
    }
    proof {
        assert(buf@ =~= done + d.subrange(offset as int, d.len() as int));
    }
    Ok(())
}

} // verus!
