//! Content fingerprinting.
//!
//! A fingerprint is the CRC-16/USB checksum of a file's full byte
//! content: a pure function of the bytes alone, so identical contents
//! always fingerprint identically. The 16-bit space is small, so
//! unrelated contents can collide; the scan treats a collision as a
//! duplicate by design.

use vstd::prelude::*;

verus! {

/// The CRC-16/USB checksum of a byte sequence. Its value is fixed by
/// the CRC-16/USB parameterization; the library states nothing about
/// it beyond that it depends on the bytes alone.
pub uninterp spec fn crc16_usb_of(bytes: Seq<u8>) -> u16;

/// Relies on crc::crc16::checksum_usb: the CRC-16/USB checksum over the
/// whole byte slice in one pass, a pure total function of the bytes.
#[verifier::external_body]
pub(crate) fn crc16_usb(bytes: &[u8]) -> (r: u16)
    ensures
        r == crc16_usb_of(bytes@),
{
    crc::crc16::checksum_usb(bytes)
}

} // verus!
