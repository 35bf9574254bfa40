//! Error taxonomy for the control core.

use vstd::prelude::*;

verus! {

/// Every failure the core reports to a caller.
///
/// `Storage` is a durable write that failed (region full, device fault);
/// `Decode` a malformed or unrecognized incoming request payload;
/// `Routing` a request path with no registered handler;
/// `Unknown` the unclassified fallback.
#[derive(Clone, Copy, Debug, PartialEq, Eq, Structural)]
pub enum Error {
    Storage,
    Decode,
    Routing,
    Unknown,
}

} // verus!
