//! A verified codec for the PNG chunk container format: a fixed signature
//! followed by length-prefixed, typed, CRC-protected records.

pub mod checksum;
pub mod chunk;
pub mod chunk_type;
pub mod png;
pub mod wire;

use vstd::prelude::*;

verus! {

/// Largest data length a chunk may declare: `2^31 - 1` bytes.
pub const MAXIMUM_LENGTH: u32 = 0x7fff_ffff;

} // verus!
