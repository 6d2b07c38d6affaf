//! Splitting an AC-3 stream into frames and serializing frames back.

use vstd::prelude::*;
use crate::ac3::error::Error;
use crate::ac3::frame::{Ac3, peek_frame_size, peek_frame_size_spec, parsed, lemma_frame_size_range};
use crate::ac3::layout::{frame_bits, initial_cpl_state};
use crate::ac3::write::{blocks_ok, blocks_safe};
use crate::bitstream::{bits_bytes, zeros, pad_len};
use crate::ac3::frame::nfchans_spec;

verus! {

/// Splitting a stream into frames, each as long as its sync information
/// says: the frames, or the error for a frame whose size cannot be read
/// or that is cut short.
pub open spec fn split_frames(d: Seq<u8>) -> Result<Seq<Seq<u8>>, Error>
    decreases d.len(),
{
    if d.len() == 0 {
        Ok(Seq::empty())
    } else {
        match peek_frame_size_spec(d) {
            None => Err(Error::InvalidFrameSize),
            Some(fs) => if d.len() < fs {
                Err(Error::DataTooShort)
            } else {
                proof {
                    lemma_frame_size_range(d[4] >> 6u8, d[4] & 0x3Fu8);
                }
                match split_frames(d.skip(fs as int)) {
                    Ok(rest) => Ok(seq![d.take(fs as int)] + rest),
                    Err(e) => Err(e),
                }
            },
        }
    }
}

/// The bytes of a serialized frame: its bits padded to a whole byte.
pub open spec fn frame_bytes(f: Ac3) -> Seq<u8> {
    bits_bytes(frame_bits(f) + zeros(pad_len(frame_bits(f).len())))
}

/// The frame can be serialized.
pub open spec fn frame_ok(f: Ac3) -> bool {
    let n = nfchans_spec(f.bsi.audio_mode) as nat;
    blocks_ok(f.ab@, 0, initial_cpl_state(n), f.bsi.acmod, f.bsi.lfeon, n)
}

/// Serializing the frame reaches no index outside a list.
pub open spec fn frame_safe(f: Ac3) -> bool {
    let n = nfchans_spec(f.bsi.audio_mode) as nat;
    blocks_safe(f.ab@, 0, initial_cpl_state(n), f.bsi.acmod, f.bsi.lfeon, n)
}

/// The bytes of frames `0..i`, one after the other.
pub open spec fn frames_bytes(fs: Seq<Ac3>, i: int) -> Seq<u8>
    decreases i,
{
    if i <= 0 {
        Seq::empty()
    } else {
        frames_bytes(fs, i - 1) + frame_bytes(fs[i - 1])
    }
}

/// A sequence of AC-3 frames.
#[derive(Debug)]
pub struct Processor {
    pub ac3_frames: Vec<Ac3>,
}

impl Processor {
    /// Serialize every frame, one after the other.
    pub fn to_bytes(&self) -> (r: Result<Vec<u8>, Error>)
        requires
            forall|i: int| 0 <= i < self.ac3_frames@.len() ==> frame_safe(#[trigger] self.ac3_frames@[i]),
        ensures
            r is Ok <==> forall|i: int| 0 <= i < self.ac3_frames@.len() ==> frame_ok(#[trigger] self.ac3_frames@[i]),
            r matches Ok(b) ==> b@ == frames_bytes(self.ac3_frames@, self.ac3_frames@.len() as int),
            r matches Err(e) ==> e is InvalidState,
    {
        let mut buf: Vec<u8> = Vec::new();
        let mut i: usize = 0;
        while i < self.ac3_frames.len()
            invariant
                i <= self.ac3_frames@.len(),
                forall|k: int| 0 <= k < self.ac3_frames@.len() ==> frame_safe(#[trigger] self.ac3_frames@[k]),
                forall|k: int| 0 <= k < i ==> frame_ok(#[trigger] self.ac3_frames@[k]),
                buf@ == frames_bytes(self.ac3_frames@, i as int),
            decreases self.ac3_frames@.len() - i,
        {
            let b = self.ac3_frames[i].to_bytes()?;
            let ghost b0 = buf@;
            let mut bv = b;
            buf.append(&mut bv);
            assert(buf@ =~= frames_bytes(self.ac3_frames@, i + 1));
            i = i + 1;
        }
        Ok(buf)
    }

    /// Split a stream into frames by the frame size of each frame's sync
    /// information and parse each.
    pub fn parse(data: &[u8]) -> (r: Result<Self, Error>)
        requires
            data@.len() * 8 <= usize::MAX,
        ensures
            r matches Ok(p) ==> split_frames(data@) matches Ok(frames) && frames.len() == p.ac3_frames@.len()
                && forall|i: int| 0 <= i < frames.len() ==> parsed(#[trigger] frames[i], p.ac3_frames@[i]),
            split_frames(data@) is Err ==> r is Err,
            r matches Err(e) ==> (e is InvalidFrameSize || e is DataTooShort) ==> split_frames(data@) == Err::<Seq<Seq<u8>>, Error>(e),
            data@.len() == 0 ==> (r matches Ok(p) && p.ac3_frames@.len() == 0),
    {
        let mut ac3_frames: Vec<Ac3> = Vec::new();
        let mut offset: usize = 0;
        let ghost mut done: Seq<Seq<u8>> = Seq::empty();
        assert(data@.skip(0) =~= data@);
        proof {
            match split_frames(data@) {
                Ok(rest) => {
                    assert(done + rest =~= rest);
                },
                Err(e) => {},
            }
        }
        while offset < data.len()
            invariant
                offset <= data@.len(),
                data@.len() * 8 <= usize::MAX,
                done.len() == ac3_frames@.len(),
                forall|i: int| 0 <= i < done.len() ==> parsed(#[trigger] done[i], ac3_frames@[i]),
                split_frames(data@) == (match split_frames(data@.skip(offset as int)) {
                    Ok(rest) => Ok(done + rest),
                    Err(e) => Err::<Seq<Seq<u8>>, Error>(e),
                }),
            decreases data@.len() - offset,
        {
            let remaining = data.split_at(offset).1;
            assert(remaining@ =~= data@.skip(offset as int));
            let frame_size = match peek_frame_size(remaining) {
                Some(fs) => fs,
                None => {
                    return Err(Error::InvalidFrameSize);
                },
            };
            if remaining.len() < frame_size {
                return Err(Error::DataTooShort);
            }
            proof {
                let d = remaining@;
                lemma_frame_size_range(d[4] >> 6u8, d[4] & 0x3Fu8);
            }
            let piece = remaining.split_at(frame_size).0;
            let frame = Ac3::parse(piece)?;
            proof {
                let d = remaining@;
                assert(piece@ =~= d.take(frame_size as int));
                assert(d.skip(frame_size as int) =~= data@.skip(offset + frame_size));
                match split_frames(d.skip(frame_size as int)) {
                    Ok(rest) => {
                        assert(done + (seq![d.take(frame_size as int)] + rest) =~= done.push(piece@) + rest);
                    },
                    Err(e) => {},
                }
                done = done.push(piece@);
            }
            offset = offset + frame_size;
            ac3_frames.push(frame);
        }
        proof {
            assert(data@.skip(offset as int) =~= Seq::<u8>::empty());
            assert(done + Seq::<Seq<u8>>::empty() =~= done);
        }
        Ok(Processor { ac3_frames })
    }
}

} // verus!
