//! The error a tile request can end in.

use vstd::prelude::*;
use vstd::string::StringExecFns;

verus! {

/// Why a tile could not be produced.  An empty result set is not an
/// error: it yields an empty, well-formed tile.
#[derive(Clone, Debug, PartialEq)]
pub enum TileError {
    /// Internal serialization failed (an unsupported geometry, a write
    /// error).
    EncodingError(String),
    /// The database returned an error for the generated query.
    DatabaseError(String),
    /// Reserved; currently unused.
    NotFound,
}

impl TileError {
    /// A human-readable description of the error.
    pub fn message(&self) -> (s: String)
        ensures
            s@ == "failed to generate tile"@,
    {
        String::from_str("failed to generate tile")
    }
}

} // verus!
