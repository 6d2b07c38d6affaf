//! AES-128 in CTR mode as a stream: the keystream position carries over
//! from one call to the next.

use vstd::prelude::*;
use crate::crypto::aes::{ctr_apply_keystream, xor_keystream};

verus! {

/// AES-128-CTR stream cipher: key, initial counter block, and the position
/// in the keystream.
pub struct Aes128CtrCipher {
    key: [u8; 16],
    iv: [u8; 16],
    pos: u64,
}

impl Aes128CtrCipher {
    /// The key.
    pub closed spec fn key(&self) -> Seq<u8> {
        self.key@
    }

    /// The initial counter block.
    pub closed spec fn iv(&self) -> Seq<u8> {
        self.iv@
    }

    /// The keystream position: the number of bytes already processed.
    pub closed spec fn pos(&self) -> nat {
        self.pos as nat
    }

    /// A cipher at the start of the keystream.
    pub fn new(key: &[u8; 16], iv: &[u8; 16]) -> (r: Self)
        ensures
            r.key() == key@,
            r.iv() == iv@,
            r.pos() == 0,
    {
        Aes128CtrCipher { key: *key, iv: *iv, pos: 0 }
    }

    /// XOR the keystream into `buf` in place, continuing where the previous
    /// call stopped.
    pub fn apply_keystream(&mut self, buf: &mut [u8])
        requires
            old(self).pos() + old(buf)@.len() <= u64::MAX,
        ensures
            final(buf)@ == xor_keystream(old(self).key(), old(self).iv(), old(self).pos(), old(buf)@),
            final(self).key() == old(self).key(),
            final(self).iv() == old(self).iv(),
            final(self).pos() == old(self).pos() + old(buf)@.len(),
    {
        let len = buf.len();
        ctr_apply_keystream(&self.key, &self.iv, self.pos, buf, 0, len);
        proof {
            let o = old(buf)@;
            assert(o.subrange(0, 0) + xor_keystream(self.key@, self.iv@, self.pos as nat, o.subrange(0, len as int))
                + o.subrange(len as int, len as int) =~= xor_keystream(self.key@, self.iv@, self.pos as nat, o));
        }
        self.pos = self.pos + len as u64;
    }

    /// XOR the keystream into `buf[start..start + len]`, continuing where
    /// the previous call stopped; the other bytes stay.
    pub(crate) fn apply_keystream_range(&mut self, buf: &mut [u8], start: usize, len: usize)
        requires
            start + len <= old(buf)@.len(),
            old(self).pos() + len <= u64::MAX,
        ensures
            final(buf)@ == old(buf)@.subrange(0, start as int)
                + xor_keystream(old(self).key(), old(self).iv(), old(self).pos(), old(buf)@.subrange(start as int, start + len))
                + old(buf)@.subrange(start + len, old(buf)@.len() as int),
            final(self).key() == old(self).key(),
            final(self).iv() == old(self).iv(),
            final(self).pos() == old(self).pos() + len,
    {
        ctr_apply_keystream(&self.key, &self.iv, self.pos, buf, start, len);
        self.pos = self.pos + len as u64;
    }
}

} // verus!
