//! Errors surfaced by declaration validation and construction calls.

use vstd::prelude::*;

verus! {

/// Every way a construction call can fail. All of these reject the whole
/// call before any instance is built; none is deferred to later use.
#[derive(Debug, PartialEq, Eq)]
pub enum ConstructError {
    /// The same field was supplied twice in one call.
    DuplicateFieldAssignment(String),
    /// A required field was left unsupplied.
    MissingRequiredField(String),
    /// A level's declared field count disagrees with the bag segment it
    /// is asked to resolve.
    ShapeMismatch,
    /// The caller referenced a field name outside the chain's aggregate
    /// field set.
    UnknownField(String),
    /// The chain is longer than the configured maximum supported length.
    ChainDepthExceeded,
}

} // verus!
