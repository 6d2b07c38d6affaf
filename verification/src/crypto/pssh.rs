//! Input of a protection system specific header (`pssh`) box, and the box
//! fields it gives.

use vstd::prelude::*;
use crate::bytes::copy_range;

verus! {

/// A DRM system's `pssh` entry: system id, key ids, and opaque data.
#[derive(Debug, PartialEq)]
pub struct PsshInput {
    pub system_id: [u8; 16],
    pub key_ids: Vec<[u8; 16]>,
    pub data: Vec<u8>,
}

/// The fields of a `pssh` box: full box version and flags, system id,
/// key ids (present from version 1 on) and data.
#[derive(Debug, PartialEq)]
pub struct Pssh {
    pub version: u8,
    pub flags: u32,
    pub system_id: [u8; 16],
    pub key_ids: Vec<[u8; 16]>,
    pub data: Vec<u8>,
}

impl PsshInput {
    /// The `pssh` box of this entry: version 1 when it lists key ids,
    /// else version 0; flags 0.
    pub fn to_pssh(&self) -> (r: Pssh)
        ensures
            r.version == (if self.key_ids@.len() == 0 { 0u8 } else { 1u8 }),
            r.flags == 0,
            r.system_id@ == self.system_id@,
            r.key_ids@ == self.key_ids@,
            r.data@ == self.data@,
    {
        let version: u8 = if self.key_ids.len() == 0 { 0 } else { 1 };
        let mut key_ids: Vec<[u8; 16]> = Vec::new();
        let mut i: usize = 0;
        while i < self.key_ids.len()
            invariant
                i <= self.key_ids@.len(),
                key_ids@ == self.key_ids@.subrange(0, i as int),
            decreases self.key_ids@.len() - i,
        {
            key_ids.push(self.key_ids[i]);
            assert(key_ids@ =~= self.key_ids@.subrange(0, i + 1));
            i = i + 1;
        }
        assert(self.key_ids@.subrange(0, self.key_ids@.len() as int) =~= self.key_ids@);
        let data = copy_range(self.data.as_slice(), 0, self.data.len());
        assert(self.data@.subrange(0, self.data@.len() as int) =~= self.data@);
        Pssh { version, flags: 0, system_id: self.system_id, key_ids, data }
    }
}

} // verus!
