//! The integrity code of a chunk: CRC-32/ISO-HDLC, computed by the `crc`
//! crate.

use vstd::prelude::*;

verus! {

/// The CRC-32/ISO-HDLC check value of a byte sequence, as the `crc` crate
/// computes it.
pub uninterp spec fn crc32_iso_hdlc(bytes: Seq<u8>) -> u32;

/// Calls `crc::Crc::<u32>::checksum` on a `Crc` made by `Crc::<u32>::new`
/// for `crc::CRC_32_ISO_HDLC`.
///
/// Trusted, not proved: the call returns for every input, and what it
/// returns depends on the bytes alone; that value is what
/// [`crc32_iso_hdlc`] stands for.
#[verifier::external_body]
pub(crate) fn checksum(bytes: &[u8]) -> (sum: u32)
    ensures
        sum == crc32_iso_hdlc(bytes@),
{
    crc::Crc::<u32>::new(&crc::CRC_32_ISO_HDLC).checksum(bytes)
}

} // verus!
