//! Sample encryption for fragmented MP4: `cenc` (AES-128-CTR over the
//! encrypted ranges of each sample) and `cbcs` (AES-128-CBC with a
//! crypt/skip block pattern and a constant IV), with the subsample plans
//! that say which bytes of a sample stay clear.

pub mod error;
pub mod aes;
pub mod ctr;
pub mod cbc;
pub mod cenc;
pub mod encrypter;
pub mod pssh;
pub mod subsample;
pub mod track;
pub mod laws;
pub mod media;
