//! AAC in ADTS framing: frame headers, payloads, and streams of frames.

pub mod error;
pub mod adts;
pub mod api;
