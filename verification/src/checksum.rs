//! The checksum of a block: CRC-32/ISO-HDLC over the bytes as they are
//! transmitted.

use vstd::prelude::*;

verus! {

/// The CRC-32/ISO-HDLC checksum of a byte string.
pub uninterp spec fn crc32_iso_hdlc(data: Seq<u8>) -> u32;

/// `crc_fast::checksum` with `CrcAlgorithm::Crc32IsoHdlc`: the checksum of
/// `data`, a function of the bytes alone. The crate returns it in a `u64`
/// whose upper half is zero.
#[verifier::external_body]
pub(crate) fn crc32(data: &[u8]) -> (sum: u32)
    ensures
        sum == crc32_iso_hdlc(data@),
{
    crc_fast::checksum(crc_fast::CrcAlgorithm::Crc32IsoHdlc, data) as u32
}

} // verus!
