//! A stream of ADTS frames, such as a PES payload.

use vstd::prelude::*;
use crate::aac::adts::{Adts, adts_parse_spec, adts_out_of_bounds, adts_is, adts_bytes, frame_length_of,
    lemma_adts_roundtrip};
use crate::aac::error::Error;
use crate::bytes::extend;

verus! {

/// The ADTS frames of a stream, in order.
#[derive(Debug)]
pub struct Processor {
    pub adts_frames: Vec<Adts>,
}

/// Parsing the frames of `d` from byte `off`: the start of each frame, or
/// the first error. A frame length of 0 is refused.
pub open spec fn adts_stream_spec(d: Seq<u8>, off: nat) -> Result<Seq<nat>, Error>
    decreases d.len() - off,
{
    if off >= d.len() {
        Ok(Seq::empty())
    } else {
        match adts_parse_spec(d.subrange(off as int, d.len() as int)) {
            Err(e) => Err(e),
            Ok(fl) => if fl == 0 {
                Err(Error::DataTooShort)
            } else {
                match adts_stream_spec(d, off + fl) {
                    Err(e) => Err(e),
                    Ok(rest) => Ok(seq![off] + rest),
                }
            },
        }
    }
}

/// No frame read from `d` at or after byte `off` indexes out of bounds.
pub open spec fn adts_stream_in_bounds(d: Seq<u8>, off: nat) -> bool
    decreases d.len() - off,
{
    if off >= d.len() {
        true
    } else {
        let rest = d.subrange(off as int, d.len() as int);
        !adts_out_of_bounds(rest) && match adts_parse_spec(rest) {
            Ok(fl) => fl == 0 || adts_stream_in_bounds(d, off + fl),
            Err(_) => true,
        }
    }
}

/// The bytes of frames, in order.
pub open spec fn adts_frames_bytes(fs: Seq<Adts>) -> Seq<u8>
    decreases fs.len(),
{
    if fs.len() == 0 {
        Seq::empty()
    } else {
        adts_frames_bytes(fs.drop_last()) + adts_bytes(fs.last())
    }
}

/// The bytes of a frame followed by further frames.
proof fn lemma_frames_bytes_cons(a: Adts, fs: Seq<Adts>)
    ensures
        adts_frames_bytes(seq![a] + fs) == adts_bytes(a) + adts_frames_bytes(fs),
    decreases fs.len(),
{
    let all = seq![a] + fs;
    if fs.len() == 0 {
        assert(all.drop_last() =~= Seq::<Adts>::empty());
        assert(all.last() == a);
        assert(adts_frames_bytes(Seq::<Adts>::empty()) =~= Seq::<u8>::empty());
        assert(adts_frames_bytes(all) =~= adts_bytes(a));
        assert(adts_bytes(a) + adts_frames_bytes(fs) =~= adts_bytes(a));
    } else {
        lemma_frames_bytes_cons(a, fs.drop_last());
        assert(all.drop_last() =~= seq![a] + fs.drop_last());
        assert(all.last() == fs.last());
        assert(adts_bytes(a) + adts_frames_bytes(fs.drop_last()) + adts_bytes(fs.last())
            =~= adts_bytes(a) + (adts_frames_bytes(fs.drop_last()) + adts_bytes(fs.last())));
    }
}

/// Serializing the frames read from byte `off` on gives back the bytes
/// from `off` to the end.
proof fn lemma_stream_roundtrip_from(d: Seq<u8>, off: nat, starts: Seq<nat>, fs: Seq<Adts>)
    requires
        off <= d.len(),
        adts_stream_in_bounds(d, off),
        adts_stream_spec(d, off) == Ok::<Seq<nat>, Error>(starts),
        fs.len() == starts.len(),
        forall|k: int| 0 <= k < starts.len() ==> adts_is(#[trigger] fs[k], d.subrange(starts[k] as int, d.len() as int)),
    ensures
        adts_frames_bytes(fs) == d.subrange(off as int, d.len() as int),
    decreases d.len() - off,
{
    if off >= d.len() {
        assert(fs =~= Seq::<Adts>::empty());
        assert(d.subrange(off as int, d.len() as int) =~= Seq::<u8>::empty());
    } else {
        let sub = d.subrange(off as int, d.len() as int);
        let fl = frame_length_of(sub) as nat;
        assert(adts_parse_spec(sub) == Ok::<nat, Error>(fl));
        let rest = adts_stream_spec(d, off + fl)->Ok_0;
        assert(starts == seq![off] + rest);
        assert(fs[0] == fs[0]);
        assert(adts_is(fs[0], sub));
        lemma_adts_roundtrip(fs[0], sub);
        let tail = fs.subrange(1, fs.len() as int);
        assert forall|k: int| 0 <= k < rest.len() implies adts_is(#[trigger] tail[k], d.subrange(rest[k] as int, d.len() as int)) by {
            assert(tail[k] == fs[k + 1]);
            assert(starts[k + 1] == rest[k]);
        }
        lemma_stream_roundtrip_from(d, off + fl, rest, tail);
        assert(fs =~= seq![fs[0]] + tail);
        lemma_frames_bytes_cons(fs[0], tail);
        assert(sub.subrange(0, fl as int) + d.subrange((off + fl) as int, d.len() as int) =~= sub);
    }
}

/// Serializing the frames parsed from a stream gives back the stream,
/// byte for byte.
pub proof fn lemma_stream_roundtrip(d: Seq<u8>, starts: Seq<nat>, fs: Seq<Adts>)
    requires
        adts_stream_in_bounds(d, 0),
        adts_stream_spec(d, 0) == Ok::<Seq<nat>, Error>(starts),
        fs.len() == starts.len(),
        forall|k: int| 0 <= k < starts.len() ==> adts_is(#[trigger] fs[k], d.subrange(starts[k] as int, d.len() as int)),
    ensures
        adts_frames_bytes(fs) == d,
{
    lemma_stream_roundtrip_from(d, 0, starts, fs);
    assert(d.subrange(0, d.len() as int) =~= d);
}

impl Processor {
    /// Serialize all frames, one after another.
    pub fn to_bytes(&self) -> (r: Vec<u8>)
        ensures
            r@ == adts_frames_bytes(self.adts_frames@),
    {
        let mut buf: Vec<u8> = Vec::new();
        let mut i: usize = 0;
        while i < self.adts_frames.len()
            invariant
                i <= self.adts_frames@.len(),
                buf@ == adts_frames_bytes(self.adts_frames@.subrange(0, i as int)),
            decreases self.adts_frames@.len() - i,
        {
            let b = self.adts_frames[i].to_bytes();
            extend(&mut buf, b.as_slice());
            assert(self.adts_frames@.subrange(0, i + 1).drop_last() =~= self.adts_frames@.subrange(0, i as int));
            i = i + 1;
        }
        assert(self.adts_frames@.subrange(0, self.adts_frames@.len() as int) =~= self.adts_frames@);
        buf
    }

    /// Parse consecutive ADTS frames until the data ends.
    pub fn parse(pes_payload: &[u8]) -> (r: Result<Self, Error>)
        requires
            adts_stream_in_bounds(pes_payload@, 0),
        ensures
            match adts_stream_spec(pes_payload@, 0) {
                Ok(starts) => r matches Ok(p) && p.adts_frames@.len() == starts.len() && forall|k: int|
                    0 <= k < starts.len() ==> adts_is(#[trigger] p.adts_frames@[k],
                        pes_payload@.subrange(starts[k] as int, pes_payload@.len() as int)),
                Err(e) => r matches Err(x) && x == e,
            },
            r matches Ok(p) ==> adts_frames_bytes(p.adts_frames@) == pes_payload@,
    {
        let ghost d = pes_payload@;
        let mut adts_frames: Vec<Adts> = Vec::new();
        let mut offset: usize = 0;
        let ghost mut done: Seq<nat> = Seq::empty();
        while offset < pes_payload.len()
            invariant
                d == pes_payload@,
                adts_stream_in_bounds(d, offset as nat),
                adts_frames@.len() == done.len(),
                forall|k: int| 0 <= k < done.len() ==> adts_is(#[trigger] adts_frames@[k],
                    d.subrange(done[k] as int, d.len() as int)),
                adts_stream_spec(d, 0) == match adts_stream_spec(d, offset as nat) {
                    Ok(rest) => Ok::<Seq<nat>, Error>(done + rest),
                    Err(e) => Err::<Seq<nat>, Error>(e),
                },
            decreases d.len() - offset,
        {
            let rest = vstd::slice::slice_subrange(pes_payload, offset, pes_payload.len());
            let frame = Adts::parse(rest)?;
            let frame_length = frame.aac_frame_length as usize;
            if frame_length == 0 {
                return Err(Error::DataTooShort);
            }
            proof {
                let r = adts_stream_spec(d, (offset + frame_length) as nat);
                match r {
                    Ok(x) => { assert(done + (seq![offset as nat] + x) =~= done.push(offset as nat) + x); },
                    Err(_) => {},
                }
                done = done.push(offset as nat);
            }
            let ghost before = adts_frames@;
            adts_frames.push(frame);
            proof {
                assert forall|k: int| 0 <= k < done.len() implies adts_is(#[trigger] adts_frames@[k],
                    d.subrange(done[k] as int, d.len() as int)) by {
                    if k < done.len() - 1 {
                        assert(adts_frames@[k] == before[k]);
                    }
                }
            }
            offset = offset + frame_length;
        }
        assert(done + Seq::<nat>::empty() =~= done);
        proof {
            lemma_stream_roundtrip(d, done, adts_frames@);
        }
        Ok(Processor { adts_frames })
    }
}

} // verus!
