//! Media bitstream parsers and serializers (ADTS, AC-3, H.264, H.265) and
//! fMP4 sample encryption helpers, with machine-checked contracts.

pub mod bitstream;
pub(crate) mod bytes;
pub mod text;
pub mod h264;
pub mod h265;
pub mod aac;
pub mod crypto;
pub mod ac3;
