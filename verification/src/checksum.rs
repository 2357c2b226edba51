//! The CRC-32 checksum.
use vstd::prelude::*;

verus! {

/// One bit of the checksum's division, low bit first.
pub open spec fn crc32_shift(state: u32) -> u32 {
    if state & 1 == 1 {
        (state >> 1) ^ 0xedb8_8320
    } else {
        state >> 1
    }
}

pub open spec fn crc32_shifts(state: u32, bits: nat) -> u32
    decreases bits,
{
    if bits == 0 {
        state
    } else {
        crc32_shifts(crc32_shift(state), (bits - 1) as nat)
    }
}

/// The state of the checksum after the bytes.
pub open spec fn crc32_state(bytes: Seq<u8>) -> u32
    decreases bytes.len(),
{
    if bytes.len() == 0 {
        0xffff_ffff
    } else {
        crc32_shifts(crc32_state(bytes.drop_last()) ^ (bytes.last() as u32), 8)
    }
}

/// The CRC-32 checksum (IEEE 802.3) of bytes.
pub open spec fn crc32_of(bytes: Seq<u8>) -> u32 {
    crc32_state(bytes) ^ 0xffff_ffff
}

/// `crc32fast::hash`: the CRC-32 checksum of bytes, as IEEE 802.3 has it.
#[verifier::external_body]
pub(crate) fn crc32(bytes: &[u8]) -> (checksum: u32)
    ensures
        checksum == crc32_of(bytes@),
{
    crc32fast::hash(bytes)
}

} // verus!
