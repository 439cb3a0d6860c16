//! The 32-bit checksum protecting each record's type and data.

use vstd::prelude::*;

verus! {

/// The CRC-32 checksum of a byte sequence, in the variant the wire format
/// uses (polynomial 0x04C11DB7 reflected, init 0xFFFFFFFF, final complement).
/// A function of the bytes alone.
pub uninterp spec fn crc32_of(bytes: Seq<u8>) -> u32;

/// Relies on crc's `Crc::<u32>::checksum` with the CRC-32/ISO-HDLC algorithm:
/// the checksum is computed from the given bytes alone.
#[verifier::external_body]
pub(crate) fn crc32(bytes: &[u8]) -> (r: u32)
    ensures
        r == crc32_of(bytes@),
{
    crc::Crc::<u32>::new(&crc::CRC_32_ISO_HDLC).checksum(bytes)
}

} // verus!
