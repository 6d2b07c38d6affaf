//! The AES-128 block cipher of the `aes` crate, and AES-128 in CTR mode
//! (128-bit big-endian counter) of the `ctr` crate, as used by the sample
//! ciphers.

use vstd::prelude::*;
use vstd::arithmetic::power2::pow2;
use aes::Aes128;
use aes::cipher::{BlockCipherEncrypt, KeyInit, KeyIvInit, StreamCipher, StreamCipherSeek};

verus! {

/// AES-128 encryption of the 16-byte `block` under the 16-byte `key`.
pub uninterp spec fn aes128_block(key: Seq<u8>, block: Seq<u8>) -> Seq<u8>;

/// The big-endian number of the bytes `s`.
pub open spec fn be_value(s: Seq<u8>) -> nat
    decreases s.len(),
{
    if s.len() == 0 {
        0
    } else {
        be_value(s.drop_last()) * 256 + s.last() as nat
    }
}

/// The `n` big-endian bytes of `v mod 256^n`.
pub open spec fn be_bytes(v: nat, n: nat) -> Seq<u8>
    decreases n,
{
    if n == 0 {
        Seq::empty()
    } else {
        be_bytes(v / 256, (n - 1) as nat).push((v % 256) as u8)
    }
}

/// `be_bytes(v, n)` has `n` bytes.
pub proof fn lemma_be_bytes_len(v: nat, n: nat)
    ensures
        be_bytes(v, n).len() == n,
    decreases n,
{
    if n > 0 {
        lemma_be_bytes_len(v / 256, (n - 1) as nat);
    }
}

/// Counter block `k` of CTR mode with initial block `iv`: the 128-bit
/// big-endian number of `iv` plus `k`, modulo `2^128`.
pub open spec fn ctr_block(iv: Seq<u8>, k: nat) -> Seq<u8> {
    be_bytes((be_value(iv) + k) % pow2(128), 16)
}

/// Keystream byte `p` of AES-128-CTR: byte `p mod 16` of the encryption of
/// counter block `p / 16`.
pub open spec fn ctr_keystream(key: Seq<u8>, iv: Seq<u8>, p: nat) -> u8 {
    aes128_block(key, ctr_block(iv, p / 16))[(p % 16) as int]
}

/// `d` XORed with the keystream from position `pos` on.
pub open spec fn xor_keystream(key: Seq<u8>, iv: Seq<u8>, pos: nat, d: Seq<u8>) -> Seq<u8> {
    Seq::new(d.len(), |i: int| d[i] ^ ctr_keystream(key, iv, pos + i as nat))
}

/// Encrypt one block with AES-128 (`Aes128::new` and `encrypt_block` of the
/// `aes` crate): the result is the AES-128 encryption of `block` under
/// `key`, a function of those two arguments alone.
#[verifier::external_body]
pub(crate) fn aes128_encrypt_block(key: &[u8; 16], block: &[u8; 16]) -> (r: [u8; 16])
    ensures
        r@ == aes128_block(key@, block@),
{
    let cipher = Aes128::new(key.into());
    let mut b = aes::Block::from(*block);
    cipher.encrypt_block(&mut b);
    b.into()
}

/// XOR the AES-128-CTR keystream into `buf[start..start + len]`, starting at
/// keystream byte `pos` (`ctr::Ctr128BE<Aes128>` created from `key` and
/// `iv`, `seek(pos)`, then `apply_keystream`): each byte of the range is
/// XORed with keystream byte `pos + i`, whose counter block is `iv` plus
/// `(pos + i) / 16` as a 128-bit big-endian number; the other bytes stay.
#[verifier::external_body]
pub(crate) fn ctr_apply_keystream(key: &[u8; 16], iv: &[u8; 16], pos: u64, buf: &mut [u8], start: usize, len: usize)
    requires
        start + len <= old(buf)@.len(),
    ensures
        final(buf)@ == old(buf)@.subrange(0, start as int)
            + xor_keystream(key@, iv@, pos as nat, old(buf)@.subrange(start as int, start + len))
            + old(buf)@.subrange(start + len, old(buf)@.len() as int),
{
    let mut cipher = ctr::Ctr128BE::<Aes128>::new(key.into(), iv.into());
    cipher.seek(pos);
    cipher.apply_keystream(&mut buf[start..start + len]);
}

} // verus!
