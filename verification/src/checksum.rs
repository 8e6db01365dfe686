//! The checksum of a run of bytes, as `crc32fast` computes it.

use vstd::prelude::*;

verus! {

/// The CRC-32 checksum of `bytes`.
pub uninterp spec fn crc32(bytes: Seq<u8>) -> u32;

/// `crc32fast::hash`: the CRC-32 checksum of the bytes, which depends on
/// nothing but them.
#[verifier::external_body]
pub(crate) fn checksum(bytes: &[u8]) -> (sum: u32)
    ensures
        sum == crc32(bytes@),
{
    crc32fast::hash(bytes)
}

} // verus!
