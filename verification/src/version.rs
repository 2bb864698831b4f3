//! The format versions that the codec knows.

use vstd::prelude::*;

verus! {

/// The oldest format version that is still read.
pub const SOME_OLD_VERSION: i32 = 1;

/// The first format version whose files carry the sequence of parts.
pub const SOME_FIRST_VERSION: i32 = 2;

/// The newest format version, and the one that is written.
pub const CURRENT_VERSION: i32 = 3;

/// Whether a file of this version can be read at all.
pub open spec fn supported(version: i32) -> bool {
    SOME_OLD_VERSION <= version <= CURRENT_VERSION
}

/// Whether a file of this version carries the sequence of parts.
pub open spec fn has_parts(version: i32) -> bool {
    version >= SOME_FIRST_VERSION
}

/// Tells whether a file of this version can be read at all.
pub fn is_supported(version: i32) -> (r: bool)
    ensures
        r == supported(version),
{
    SOME_OLD_VERSION <= version && version <= CURRENT_VERSION
}

} // verus!
