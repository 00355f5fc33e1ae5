use vstd::prelude::*;

verus! {

/// Why a decode was abandoned.
#[derive(Debug, Clone, Copy, PartialEq, Eq, Structural)]
pub enum DecodeError {
    /// The input ended before a field that was expected.
    Truncated,
    /// A field held a value that the format does not allow.
    InvalidData,
}

} // verus!
