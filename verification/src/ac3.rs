//! AC-3 (Dolby Digital): frame size lookup from the sync information, the
//! bit allocation algorithm, and mantissa unpacking with the write actions
//! that reproduce the unpacked bits.

pub mod error;
pub mod bap;
pub mod mantissa;
pub mod frame;
pub mod layout;
pub mod write;
pub mod read;
pub mod audblk;
pub mod api;
pub mod field_laws;
