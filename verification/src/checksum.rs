use crc::{Crc, CRC_32_ISO_HDLC};
use vstd::prelude::*;

verus! {

/// The CRC-32/ISO-HDLC checksum of a byte string: the checksum that PNG and
/// zlib use (reflected polynomial `0xEDB88320`, initial value and final
/// xor `0xFFFFFFFF`).
pub uninterp spec fn crc32_iso_hdlc(bytes: Seq<u8>) -> u32;

/// Calls `Crc::<u32>::new(&CRC_32_ISO_HDLC).checksum(bytes)` of the `crc`
/// crate. Believed, not proved: the result depends on the bytes alone, and
/// it is what `crc32_iso_hdlc` names.
#[verifier::external_body]
pub(crate) fn checksum(bytes: &[u8]) -> (sum: u32)
    ensures
        sum == crc32_iso_hdlc(bytes@),
{
    Crc::<u32>::new(&CRC_32_ISO_HDLC).checksum(bytes)
}

} // verus!
