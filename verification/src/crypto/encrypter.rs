//! Encryption settings of a track: the scheme and its IV, the key, the DRM
//! system entries, and the IV counters that advance from sample to sample.

use vstd::prelude::*;
use crate::crypto::pssh::PsshInput;

verus! {

/// Per-sample IV base (cenc) or constant IV (cbcs): 8 or 16 bytes.
#[derive(Debug, Clone, Copy, PartialEq, Eq)]
pub enum Iv {
    Bytes8([u8; 8]),
    Bytes16([u8; 16]),
}

/// The bytes of an IV.
pub open spec fn iv_bytes(iv: Iv) -> Seq<u8> {
    match iv {
        Iv::Bytes8(b) => b@,
        Iv::Bytes16(b) => b@,
    }
}

impl Iv {
    /// Raw IV bytes as stored in senc / tenc (8 or 16).
    pub fn as_bytes(&self) -> (r: &[u8])
        ensures
            r@ == iv_bytes(*self),
    {
        match self {
            Iv::Bytes8(b) => b.as_slice(),
            Iv::Bytes16(b) => b.as_slice(),
        }
    }

    /// IV size in bytes (8 or 16).
    pub fn size(&self) -> (r: u8)
        ensures
            r == iv_bytes(*self).len(),
    {
        match self {
            Iv::Bytes8(_) => 8,
            Iv::Bytes16(_) => 16,
        }
    }

    /// The IV as a 16-byte block: an 8-byte IV is followed by 8 zero bytes.
    pub fn to_block16(&self) -> (r: [u8; 16])
        ensures
            r@ == match *self {
                Iv::Bytes8(b) => b@ + Seq::new(8, |i: int| 0u8),
                Iv::Bytes16(b) => b@,
            },
    {
        match self {
            Iv::Bytes8(b) => {
                let mut out = [0u8; 16];
                let mut i: usize = 0;
                while i < 8
                    invariant
                        i <= 8,
                        out@.len() == 16,
                        forall|j: int| 0 <= j < i ==> out@[j] == b@[j],
                        forall|j: int| 8 <= j < 16 ==> out@[j] == 0u8,
                    decreases 8 - i,
                {
                    out[i] = b[i];
                    i = i + 1;
                }
                assert(out@ =~= b@ + Seq::new(8, |i: int| 0u8));
                out
            },
            Iv::Bytes16(b) => *b,
        }
    }
}

/// Encryption scheme and its IV.
#[derive(Debug, Clone, Copy, PartialEq, Eq)]
pub enum Mode {
    /// AES-CTR; the IV is the per-sample base.
    Cenc { iv: Iv },
    /// AES-CBC with a pattern; the IV is constant.
    Cbcs { iv: Iv },
}

impl Mode {
    /// The IV of the scheme.
    pub fn iv(&self) -> (r: Iv)
        ensures
            r == match *self {
                Mode::Cenc { iv } => iv,
                Mode::Cbcs { iv } => iv,
            },
    {
        match self {
            Mode::Cenc { iv } => *iv,
            Mode::Cbcs { iv } => *iv,
        }
    }
}

/// Encrypts the samples of one track under a single content key. For cenc,
/// every per-sample counter value must be unique under a key: the counters
/// here only ever advance.
#[derive(Debug)]
pub struct Encrypter {
    /// Encryption scheme and its IV.
    pub mode: Mode,
    /// `tenc.default_KID`
    pub key_id: [u8; 16],
    /// AES-128 content key
    pub key: [u8; 16],
    /// DRM system entries to attach to the init segment.
    pub pssh_inputs: Vec<PsshInput>,
    /// Per-sample IV counter (8-byte cenc IV).
    pub next_sample_index: u64,
    /// Cumulative cipher-block offset (16-byte cenc IV).
    pub next_block_offset: u128,
}

impl Encrypter {
    /// An encrypter with no DRM entries and both counters at zero.
    pub fn new(mode: Mode, key_id: [u8; 16], key: [u8; 16]) -> (r: Self)
        ensures
            r.mode == mode,
            r.key_id == key_id,
            r.key == key,
            r.pssh_inputs@.len() == 0,
            r.next_sample_index == 0,
            r.next_block_offset == 0,
    {
        Encrypter { mode, key_id, key, pssh_inputs: Vec::new(), next_sample_index: 0, next_block_offset: 0 }
    }

    /// Append a DRM system entry.
    pub fn add_pssh(&mut self, input: PsshInput)
        ensures
            final(self).pssh_inputs@ == old(self).pssh_inputs@.push(input),
            final(self).mode == old(self).mode,
            final(self).key_id == old(self).key_id,
            final(self).key == old(self).key,
            final(self).next_sample_index == old(self).next_sample_index,
            final(self).next_block_offset == old(self).next_block_offset,
    {
        self.pssh_inputs.push(input);
    }
}

} // verus!
