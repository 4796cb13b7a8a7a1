//! The failure taxonomy of the retrieval engine. Every failure is terminal
//! for its own query and never affects another query.
use vstd::prelude::*;

verus! {

#[derive(Clone, Copy, PartialEq, Eq, Structural, Debug)]
pub enum QueryError {
    /// The interval is missing a bound, or its bounds are malformed
    /// (`from` after `to`, or a bound outside the representable range).
    /// Raised before any filesystem access.
    InvalidQuery,
    /// The resolved directory cannot be listed. Distinct from a valid
    /// directory with zero matching files, which is an empty success.
    DirectoryUnavailable,
    /// A candidate file exists but could not be opened.
    OpenFailed,
    /// A candidate file was opened but its container structure could not be
    /// decoded.
    DecodeFailed,
    /// A single record's payload was malformed. In the incremental mode this
    /// terminates the produced sequence.
    RecordDecodeFailed,
}

} // verus!
