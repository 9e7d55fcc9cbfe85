//! The error raised when a tile cannot be serialized.

use vstd::prelude::*;
use vstd::string::StringExecFns;

verus! {

/// Serialization of a tile to its wire bytes failed.
#[derive(Clone, Copy, Debug, PartialEq, Eq, Structural)]
pub struct BinaryTileError;

impl BinaryTileError {
    /// A human-readable description of the error.
    pub fn message(&self) -> (s: String)
        ensures
            s@ == "failed to encode tile binary"@,
    {
        String::from_str("failed to encode tile binary")
    }
}

} // verus!
