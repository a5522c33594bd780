//! A content-addressed block store.
//!
//! Raw byte blobs are addressed by a cryptographic digest of their content.
//! An identifier's canonical text form is split into fixed-width chunks to
//! form a nested directory path, so that large stores do not collapse into a
//! single oversized directory.

use vstd::prelude::*;

pub mod block;
pub mod blockstore;
pub mod memstore;

verus! {

/// Numeric multicodec code for SHA2-256; the store uses it both as the hash
/// function id and as the identifier's content-type codec.
pub const SHA2_256: u64 = 0x12;

} // verus!
