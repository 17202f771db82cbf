//! Duplicate-file finder library.
//!
//! Scans a snapshot of a directory tree, fingerprints every non-empty
//! regular file with a CRC-16/USB checksum of its full contents, groups
//! the file paths by fingerprint, and reports every group that holds
//! more than one path. Two files with the same fingerprint are treated
//! as duplicates; no byte-for-byte confirmation follows the checksum
//! match, so unrelated files can collide in the 16-bit fingerprint
//! space. That trade-off is part of the design, not an oversight.

pub mod config;
pub mod fs_model;
pub mod fingerprint;
pub mod index;
pub mod laws;
pub mod traverse;

use vstd::prelude::*;

verus! {

/// Placeholder for the usage text; prints nothing.
pub fn help() {
}

} // verus!
