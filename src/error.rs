//! Failures that the library reports to its callers, one variant for each.

use vstd::prelude::*;

verus! {

/// A failure of a library operation.
#[derive(Clone, Copy, Debug, PartialEq, Eq, Structural)]
pub enum LibraryError {
    /// A fixed-width duration text that is not `H:M:S.N` with four numeric parts
    /// that fit.
    MalformedDuration,
    /// An update names a field that items do not have.
    UnknownField,
    /// The name of this host could not be read while stamping a new event.
    HostnameUnavailable,
}

} // verus!
