//! H.264 (AVC) NAL unit layer: Annex B framing, NAL units, parameter sets,
//! slice headers and simple payloads.

pub mod error;
pub mod nal;
pub mod annex_b;
pub mod slice_header;
pub mod slice_header_laws;
pub mod syntax;
pub mod aud;
pub mod filler_data;
pub mod sps_ext;
pub mod sei;
pub mod avcc;
pub mod sps;
pub mod sps_laws;
pub mod pps;
pub mod pps_laws;
pub mod api;
pub mod slice_a;
pub mod slice_c;
pub mod processor;
pub use processor::{NalData, Processor};
