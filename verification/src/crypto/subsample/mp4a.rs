//! Subsample plans of AAC samples: none, the whole sample is encrypted.

use vstd::prelude::*;
use crate::crypto::cenc::Subsample;
use crate::crypto::error::Error;

verus! {

/// The plan of an AAC sample: no subsamples.
pub fn plan(_sample: &[u8]) -> (r: Result<Vec<Subsample>, Error>)
    ensures
        r matches Ok(v) && v@.len() == 0,
{
    Ok(Vec::new())
}

} // verus!
