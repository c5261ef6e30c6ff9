//! Reduction of native NTFS file identifiers to record numbers.
use vstd::prelude::*;

verus! {

/// Mask that keeps the 48 bits of a file reference that hold the record number.
pub const RECORD_NUMBER_MASK: u64 = 0x0000_FFFF_FFFF_FFFF;

/// A native file identifier as the change journal reports it: the 64-bit
/// form, or the 128-bit form given as its 16 little-endian bytes.
#[derive(Clone, Copy, Debug, PartialEq, Eq)]
pub enum FileId {
    Normal(u64),
    Extended([u8; 16]),
}

/// The record number held in the six low bytes of an extended identifier.
pub open spec fn low_six_bytes(b: Seq<u8>) -> int {
    b[0] as int + 256 * (b[1] as int + 256 * (b[2] as int + 256 * (b[3] as int + 256 * (
    b[4] as int + 256 * (b[5] as int)))))
}

/// The record number (reduced identifier) of a native file identifier.
pub open spec fn frn_of(id: FileId) -> u64 {
    match id {
        FileId::Normal(n) => (n % 0x1_0000_0000_0000) as u64,
        FileId::Extended(b) => low_six_bytes(b@) as u64,
    }
}

/// Keeps the 48-bit record number of a file identifier and drops its
/// sequence bits.
pub fn file_id_to_frn(file_id: FileId) -> (r: u64)
    ensures
        r == frn_of(file_id),
        r < 0x1_0000_0000_0000,
{
    match file_id {
        FileId::Normal(n) => {
            assert(n & 0xFFFF_FFFF_FFFFu64 == n % 0x1_0000_0000_0000u64) by (bit_vector);
            n & RECORD_NUMBER_MASK
        },
        FileId::Extended(b) => {
            let r: u64 = b[0] as u64 + 256 * (b[1] as u64 + 256 * (b[2] as u64 + 256 * (
            b[3] as u64 + 256 * (b[4] as u64 + 256 * (b[5] as u64)))));
            r
        },
    }
}

} // verus!
