use vstd::prelude::*;

verus! {

/// The CRC-32 (IEEE 802.3) of a byte string, as `crc::crc32::checksum_ieee`
/// computes it.
pub uninterp spec fn crc32_ieee(data: Seq<u8>) -> u32;

/// Calls `crc::crc32::checksum_ieee`.
///
/// The contract gives the result the name `crc32_ieee` and claims no more:
/// that the checksum is a function of the bytes alone, which the table-driven
/// loop over the input shows.
#[verifier::external_body]
pub(crate) fn checksum_ieee(data: &[u8]) -> (r: u32)
    ensures
        r == crc32_ieee(data@),
{
    crc::crc32::checksum_ieee(data)
}

} // verus!
