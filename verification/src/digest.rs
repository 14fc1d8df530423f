//! Integrity digests of entry payloads, computed by outside crates.

use vstd::prelude::*;

verus! {

/// The CRC32 checksum of a byte sequence, as `crc32fast` computes it.
pub uninterp spec fn crc32_of(b: Seq<u8>) -> u32;

/// The SHA-256 digest of a byte sequence, rendered as lowercase hex,
/// as the `sha256` crate returns it.
pub uninterp spec fn sha256_hex_of(b: Seq<u8>) -> Seq<char>;

/// Relies on crc32fast::hash: the CRC32 of the bytes, a pure function of them.
#[verifier::external_body]
pub(crate) fn crc32(data: &[u8]) -> (r: u32)
    ensures
        r == crc32_of(data@),
{
    crc32fast::hash(data)
}

/// Relies on sha256::digest: the SHA-256 digest of the bytes as a hex string,
/// a pure function of them; 32 digest bytes render as 64 hex characters.
#[verifier::external_body]
pub(crate) fn sha256_hex(data: &[u8]) -> (r: String)
    ensures
        r@ == sha256_hex_of(data@),
        r@.len() == 64,
        vstd::utf8::is_ascii_chars(r@),
{
    sha256::digest(data)
}

} // verus!
