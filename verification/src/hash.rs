//! The identifier hasher: maps a label to the 64-bit identifier stored in
//! the binary container. The scheme is the label's UTF-8 byte length in
//! the upper 32 bits over its CRC-32 (IEEE) checksum in the lower 32.

use vstd::prelude::*;

verus! {

use vstd::utf8::encode_utf8;

/// The CRC-32 (IEEE) checksum of a byte sequence. The checksum depends on
/// the bytes alone; its bit-mixing is left uninterpreted and the
/// executable value comes from `crc32fast`.
pub uninterp spec fn crc32_of(bytes: Seq<u8>) -> u32;

/// Relies on `crc32fast::hash`: the CRC-32 (IEEE) checksum of the bytes,
/// a pure function of its input alone.
#[verifier::external_body]
fn crc32(bytes: &[u8]) -> (r: u32)
    ensures
        r == crc32_of(bytes@),
{
    crc32fast::hash(bytes)
}

/// The identifier of a label: the label's UTF-8 byte length shifted into
/// the upper 32 bits, combined with its CRC-32 checksum in the lower 32.
pub open spec fn hash40_spec(label: Seq<char>) -> u64 {
    ((encode_utf8(label).len() as u64) << 32) | (crc32_of(encode_utf8(label)) as u64)
}

/// Hash a label to its 64-bit identifier.
///
/// Deterministic and total: equal label text always yields the same
/// identifier, and hashing never fails. No normalization is applied
/// here; callers trim whitespace themselves before hashing.
pub fn hash40(label: &str) -> (r: u64)
    ensures
        r == hash40_spec(label@),
{
    let bytes = label.as_bytes();
    let checksum = crc32(bytes);
    ((bytes.len() as u64) << 32) | (checksum as u64)
}

}
