//! Syntax elements of H.264 RBSPs: fixed-width `u(n)`, flags, and
//! Exp-Golomb `ue(v)` / `se(v)`, read with H.264 errors.
//!
//! Each reading function states both what it returns (through the `read_*`
//! specifications of the bit reader, every reader error becoming
//! `DataTooShort`) and which bits it consumed (the encoding of the value
//! read), so that a parser built from them can be related to the encoder of
//! the same syntax structure.

use vstd::prelude::*;
use crate::bitstream::{
    BitstreamReader, read_bits_spec, read_ue_spec, read_se_spec, u32_bits, ue_bits, se_bits,
    lemma_read_bits_consumed, lemma_read_ue_consumed, lemma_read_se_consumed, lemma_read_bits_written,
    lemma_read_ue_written, lemma_read_se_written,
};
use vstd::arithmetic::power2::pow2;
use crate::h264::error::Error;
use crate::bitstream::{zeros, pad_len, bytes_bits};

verus! {

/// The bits of an RBSP whose syntax bits are `b`: `b`, the stop bit, and
/// zero bits up to the next byte boundary.
pub open spec fn rbsp_bits(b: Seq<bool>) -> Seq<bool> {
    b.push(true) + zeros(pad_len(b.len() + 1))
}

/// The bits that `write_remaining_bytes` writes for bytes captured at bit
/// offset `bo`: all bits of `d` from bit `bo` on.
pub open spec fn remaining_data_bits(d: Seq<u8>, bo: u8) -> Seq<bool> {
    if d.len() == 0 {
        Seq::empty()
    } else {
        bytes_bits(d).subrange(bo as int, (d.len() * 8) as int)
    }
}

/// Bits padded with zero bits to a byte boundary.
pub open spec fn byte_aligned(b: Seq<bool>) -> Seq<bool> {
    b + zeros(pad_len(b.len()))
}

/// Reading `u(n)` at bit position `p` of `s`.
pub open spec fn sp_u(s: Seq<bool>, p: nat, n: nat) -> Result<(u32, nat), Error> {
    match read_bits_spec(s, p, n) {
        Ok(x) => Ok(x),
        Err(_) => Err(Error::DataTooShort),
    }
}

/// Reading a one-bit flag at bit position `p` of `s`.
pub open spec fn sp_flag(s: Seq<bool>, p: nat) -> Result<(bool, nat), Error> {
    if p < s.len() {
        Ok((s[p as int], p + 1))
    } else {
        Err(Error::DataTooShort)
    }
}

/// Reading `ue(v)` at bit position `p` of `s`.
pub open spec fn sp_ue(s: Seq<bool>, p: nat) -> Result<(u32, nat), Error> {
    match read_ue_spec(s, p) {
        Ok(x) => Ok(x),
        Err(_) => Err(Error::DataTooShort),
    }
}

/// Reading `se(v)` at bit position `p` of `s`.
pub open spec fn sp_se(s: Seq<bool>, p: nat) -> Result<(i32, nat), Error> {
    match read_se_spec(s, p) {
        Ok(x) => Ok(x),
        Err(_) => Err(Error::DataTooShort),
    }
}

/// The bits `s` hold `t` from position `p` on.
pub open spec fn holds_at(s: Seq<bool>, p: nat, t: Seq<bool>) -> bool {
    p + t.len() <= s.len() && s.subrange(p as int, (p + t.len()) as int) == t
}

/// Holding `a + b` at `p` is holding `a` at `p`, then `b` right after it.
pub proof fn lemma_holds_cat(s: Seq<bool>, p: nat, a: Seq<bool>, b: Seq<bool>)
    requires
        holds_at(s, p, a + b),
    ensures
        holds_at(s, p, a),
        holds_at(s, p + a.len(), b),
{
    assert(s.subrange(p as int, (p + a.len()) as int) =~= (a + b).subrange(0, a.len() as int));
    assert(s.subrange((p + a.len()) as int, (p + a.len() + b.len()) as int) =~= (a + b).subrange(a.len() as int, (a + b).len() as int));
    assert((a + b).subrange(0, a.len() as int) =~= a);
    assert((a + b).subrange(a.len() as int, (a + b).len() as int) =~= b);
}

/// A flag reads back as written.
pub proof fn lemma_flag_at(s: Seq<bool>, p: nat, b: bool)
    requires
        holds_at(s, p, seq![b]),
    ensures
        sp_flag(s, p) == Ok::<(bool, nat), Error>((b, p + 1)),
{
    assert(s.subrange(p as int, (p + 1) as int)[0] == s[p as int]);
}

/// `u(n)` reads back as written, for a value below `2^n`.
pub proof fn lemma_u_at(s: Seq<bool>, p: nat, v: u32, n: nat)
    requires
        n <= 32,
        (v as nat) < pow2(n),
        holds_at(s, p, u32_bits(v, n)),
    ensures
        sp_u(s, p, n) == Ok::<(u32, nat), Error>((v, p + n)),
{
    lemma_read_bits_written(s, p, v, n);
    vstd::arithmetic::div_mod::lemma_small_mod(v as nat, pow2(n));
}

/// `ue(v)` reads back as written.
pub proof fn lemma_ue_at(s: Seq<bool>, p: nat, v: u32)
    requires
        v < u32::MAX,
        holds_at(s, p, ue_bits(v)),
    ensures
        sp_ue(s, p) == Ok::<(u32, nat), Error>((v, p + ue_bits(v).len())),
{
    lemma_read_ue_written(s, p, v);
}

/// `se(v)` reads back as written.
pub proof fn lemma_se_at(s: Seq<bool>, p: nat, v: i32)
    requires
        v > i32::MIN,
        holds_at(s, p, se_bits(v)),
    ensures
        sp_se(s, p) == Ok::<(i32, nat), Error>((v, p + se_bits(v).len())),
{
    lemma_read_se_written(s, p, v);
}

/// `pre` followed by the items of a list read result.
pub open spec fn prepend_seq<T>(pre: Seq<T>, r: Result<(Seq<T>, nat), Error>) -> Result<(Seq<T>, nat), Error> {
    match r {
        Ok((rest, q)) => Ok((pre + rest, q)),
        Err(e) => Err(e),
    }
}

/// A successful `ue(v)` or `se(v)` read consumes at least one bit and stays
/// within the input.
pub proof fn lemma_sp_ue_advances(s: Seq<bool>, p: nat)
    ensures
        sp_ue(s, p) is Ok ==> p < sp_ue(s, p)->Ok_0.1 <= s.len(),
        sp_se(s, p) is Ok ==> p < sp_se(s, p)->Ok_0.1 <= s.len(),
{
}

proof fn lemma_consumed_extend(s: Seq<bool>, p: nat, q: nat, e: Seq<bool>)
    requires
        p <= q <= s.len(),
        s.subrange(p as int, q as int) == e,
    ensures
        s.subrange(0, q as int) == s.subrange(0, p as int) + e,
{
    assert(s.subrange(0, q as int) =~= s.subrange(0, p as int) + s.subrange(p as int, q as int));
}

/// Read `u(n)`.
pub fn read_u(r: &mut BitstreamReader, n: u8) -> (res: Result<u32, Error>)
    ensures
        final(r).bytes() == old(r).bytes(),
        match sp_u(old(r).bits(), old(r).pos(), n as nat) {
            Ok((v, q)) => res == Ok::<u32, Error>(v) && final(r).pos() == q,
            Err(e) => res == Err::<u32, Error>(e) && final(r).pos() == old(r).pos(),
        },
        res is Ok && n <= 32 ==> final(r).consumed() == old(r).consumed() + u32_bits(res->Ok_0, n as nat),
{
    let ghost s = old(r).bits();
    let ghost p = old(r).pos();
    match r.read_bits(n) {
        Ok(v) => {
            proof {
                if n <= 32 {
                    lemma_read_bits_consumed(s, p, n as nat);
                    lemma_consumed_extend(s, p, (p + n) as nat, u32_bits(v, n as nat));
                }
            }
            Ok(v)
        },
        Err(_) => Err(Error::DataTooShort),
    }
}

/// Read a one-bit flag.
pub fn read_flag(r: &mut BitstreamReader) -> (res: Result<bool, Error>)
    ensures
        final(r).bytes() == old(r).bytes(),
        match sp_flag(old(r).bits(), old(r).pos()) {
            Ok((v, q)) => res == Ok::<bool, Error>(v) && final(r).pos() == q,
            Err(e) => res == Err::<bool, Error>(e) && final(r).pos() == old(r).pos(),
        },
        res is Ok ==> final(r).consumed() == old(r).consumed().push(res->Ok_0),
{
    let ghost s = old(r).bits();
    let ghost p = old(r).pos();
    match r.read_bit() {
        Ok(b) => {
            proof {
                assert(s.subrange(p as int, (p + 1) as int) =~= seq![b]);
                lemma_consumed_extend(s, p, (p + 1) as nat, seq![b]);
                assert(s.subrange(0, p as int) + seq![b] =~= s.subrange(0, p as int).push(b));
            }
            Ok(b)
        },
        Err(_) => Err(Error::DataTooShort),
    }
}

/// Read `ue(v)`.
pub fn read_ue(r: &mut BitstreamReader) -> (res: Result<u32, Error>)
    ensures
        final(r).bytes() == old(r).bytes(),
        match sp_ue(old(r).bits(), old(r).pos()) {
            Ok((v, q)) => res == Ok::<u32, Error>(v) && final(r).pos() == q,
            Err(e) => res == Err::<u32, Error>(e),
        },
        res is Ok ==> res->Ok_0 < u32::MAX && final(r).consumed() == old(r).consumed() + ue_bits(res->Ok_0),
{
    let ghost s = old(r).bits();
    let ghost p = old(r).pos();
    match r.read_ue() {
        Ok(v) => {
            proof {
                lemma_read_ue_consumed(s, p);
                lemma_consumed_extend(s, p, r.pos(), ue_bits(v));
            }
            Ok(v)
        },
        Err(_) => Err(Error::DataTooShort),
    }
}

/// Read `se(v)`.
pub fn read_se(r: &mut BitstreamReader) -> (res: Result<i32, Error>)
    ensures
        final(r).bytes() == old(r).bytes(),
        match sp_se(old(r).bits(), old(r).pos()) {
            Ok((v, q)) => res == Ok::<i32, Error>(v) && final(r).pos() == q,
            Err(e) => res == Err::<i32, Error>(e),
        },
        res is Ok ==> res->Ok_0 > i32::MIN && final(r).consumed() == old(r).consumed() + se_bits(res->Ok_0),
{
    let ghost s = old(r).bits();
    let ghost p = old(r).pos();
    match r.read_se() {
        Ok(v) => {
            proof {
                lemma_read_se_consumed(s, p);
                lemma_consumed_extend(s, p, r.pos(), se_bits(v));
            }
            Ok(v)
        },
        Err(_) => Err(Error::DataTooShort),
    }
}

} // verus!
