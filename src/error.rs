use vstd::prelude::*;

verus! {

/// The kinds of failure that the library reports to its callers.
#[derive(Debug, Clone, Copy, PartialEq, Eq, Structural)]
pub enum ZkError {
    /// Malformed identifier, tag or digest text.
    InvalidFormat,
    /// A digest or a tag that is not stored.
    NotFound,
    /// A uniqueness constraint would be broken.
    DuplicateKey,
    /// The content record exists but its blob was withheld.
    Truncated,
    /// A failure of the storage underneath.
    StorageFailure,
}

} // verus!
