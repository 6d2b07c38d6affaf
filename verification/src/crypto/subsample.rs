//! Subsample plans: which bytes of a sample stay clear and which are
//! encrypted, by codec.

pub mod avc;
pub mod avc_laws;
pub mod mp4a;

use vstd::prelude::*;
use crate::crypto::cenc::Subsample;
use crate::crypto::error::Error;
use crate::crypto::subsample::avc::{ParamSets, plan_from};

verus! {

/// Video or audio.
#[derive(Debug, Clone, Copy, PartialEq, Eq, Structural)]
pub enum MediaKind {
    Video,
    Audio,
}

impl MediaKind {
    /// The `cbcs` pattern `(crypt_byte_block, skip_byte_block)`: video
    /// encrypts 1 of every 10 blocks, audio every block (no pattern).
    pub fn cbcs_pattern(self) -> (r: (u8, u8))
        ensures
            r == (match self {
                MediaKind::Video => (1u8, 9u8),
                MediaKind::Audio => (0u8, 0u8),
            }),
    {
        match self {
            MediaKind::Video => (1, 9),
            MediaKind::Audio => (0, 0),
        }
    }
}

/// The media kind of a sample entry code, clear (`avc1`, `avc3`, `mp4a`)
/// or already encrypted (`encv`, `enca`); none for other codecs.
pub open spec fn media_kind_spec(f: Seq<u8>) -> Option<MediaKind> {
    if f == seq![0x61u8, 0x76, 0x63, 0x31] || f == seq![0x61u8, 0x76, 0x63, 0x33] || f == seq![0x65u8, 0x6E, 0x63, 0x76] {
        Some(MediaKind::Video)
    } else if f == seq![0x6Du8, 0x70, 0x34, 0x61] || f == seq![0x65u8, 0x6E, 0x63, 0x61] {
        Some(MediaKind::Audio)
    } else {
        None
    }
}

/// Whether four bytes are `a b c d`.
fn is_code(f: &[u8; 4], a: u8, b: u8, c: u8, d: u8) -> (r: bool)
    ensures
        r == (f@ == seq![a, b, c, d]),
{
    let r = f[0] == a && f[1] == b && f[2] == c && f[3] == d;
    if r {
        assert(f@ =~= seq![a, b, c, d]);
    }
    r
}

/// Classify a sample entry code.
pub fn media_kind(fourcc: &[u8; 4]) -> (r: Option<MediaKind>)
    ensures
        r == media_kind_spec(fourcc@),
{
    if is_code(fourcc, 0x61, 0x76, 0x63, 0x31) || is_code(fourcc, 0x61, 0x76, 0x63, 0x33)
        || is_code(fourcc, 0x65, 0x6E, 0x63, 0x76) {
        Some(MediaKind::Video)
    } else if is_code(fourcc, 0x6D, 0x70, 0x34, 0x61) || is_code(fourcc, 0x65, 0x6E, 0x63, 0x61) {
        Some(MediaKind::Audio)
    } else {
        None
    }
}

/// Whether a sample entry can be encrypted: a supported codec in its
/// clear form (`encv` and `enca` are already encrypted).
pub fn is_encryptable(fourcc: &[u8; 4]) -> (r: bool)
    ensures
        r == (media_kind_spec(fourcc@) is Some && fourcc@ != seq![0x65u8, 0x6E, 0x63, 0x76]
            && fourcc@ != seq![0x65u8, 0x6E, 0x63, 0x61]),
{
    !is_code(fourcc, 0x65, 0x6E, 0x63, 0x76) && !is_code(fourcc, 0x65, 0x6E, 0x63, 0x61) && media_kind(fourcc).is_some()
}

/// The codec of a track.
#[derive(Debug, Clone, Copy)]
pub enum CodecKind {
    /// AAC (`mp4a`): the whole sample is encrypted, no subsamples.
    Mp4a,
    /// AVC (`avc1` / `avc3`): NAL units prefixed by their length in
    /// `length_size` bytes (1, 2 or 4).
    Avc { length_size: u8 },
}

impl CodecKind {
    /// The media kind of the codec.
    pub fn media_kind(&self) -> (r: MediaKind)
        ensures
            r == (match self {
                CodecKind::Avc { .. } => MediaKind::Video,
                CodecKind::Mp4a => MediaKind::Audio,
            }),
    {
        match self {
            CodecKind::Avc { .. } => MediaKind::Video,
            CodecKind::Mp4a => MediaKind::Audio,
        }
    }

    /// The `cbcs` pattern of the codec.
    pub fn cbcs_pattern(&self) -> (r: (u8, u8))
        ensures
            r == (match self {
                CodecKind::Avc { .. } => (1u8, 9u8),
                CodecKind::Mp4a => (0u8, 0u8),
            }),
    {
        self.media_kind().cbcs_pattern()
    }
}

/// Build the subsample plan of one sample: none for audio (the whole
/// sample is encrypted), the AVC plan for video, with the parameter sets
/// `params` of the track.
pub fn plan(codec: &CodecKind, sample: &[u8], params: &mut ParamSets) -> (r: Result<Vec<Subsample>, Error>)
    requires
        sample@.len() * 8 <= usize::MAX,
    ensures
        match codec {
            CodecKind::Mp4a => r matches Ok(v) && v@.len() == 0 && final(params).model() == old(params).model(),
            CodecKind::Avc { length_size } => {
                &&& !(*length_size == 1 || *length_size == 2 || *length_size == 4)
                    ==> r == Err::<Vec<Subsample>, Error>(Error::InvalidLengthSize(*length_size))
                &&& (*length_size == 1 || *length_size == 2 || *length_size == 4)
                    ==> match plan_from(sample@, *length_size as nat, 0, 0, old(params).model(), Seq::empty()) {
                        Ok((subs, m)) => r matches Ok(v) && v@ == subs && final(params).model() == m,
                        Err(e) => r == Err::<Vec<Subsample>, Error>(e),
                    }
            },
        },
{
    match codec {
        CodecKind::Mp4a => mp4a::plan(sample),
        CodecKind::Avc { length_size } => avc::plan(sample, *length_size, params),
    }
}

} // verus!
