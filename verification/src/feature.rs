//! What this build of the library offers beyond the core.

use vstd::prelude::*;

verus! {

/// The names of the optional parts that are built in: base58 text for
/// digests, the GZIP and LZ4 filters, and the guessing of content types.
pub const FEATURES: [&'static str; 4] = ["base58", "gzip", "lz4", "magic"];

} // verus!
