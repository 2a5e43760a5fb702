//! A lossless audio encoder producing a standard bit-packed container
//! format from raw PCM samples.
//!
//! The pipeline runs from per-block subblocks through fixed-order
//! prediction, Rice entropy coding and stereo decorrelation into a
//! sub-byte-granularity bit writer; frames are protected by two CRCs and
//! preceded by a 34-byte stream-info block.  Every contract is stated over
//! a bit-sequence model of the output stream, so the serialized layout is
//! pinned bit for bit.

use vstd::prelude::*;

pub mod bits;
pub mod bitwriter;
pub mod rice;
pub mod frame;
pub mod encoder;
pub mod headers;
pub mod stream;

verus! {

/// Nominal number of samples per block used by the encoding examples.
pub const BLOCK_SIZE: u16 = 192;

} // verus!
