//! What a subscription refuses, and why.

use vstd::prelude::*;

verus! {

/// A request came at a time when it cannot be served.
#[derive(Clone, Copy, Debug, PartialEq, Eq, Structural)]
pub enum IllegalStateError {
    /// The subscription has been closed.
    SubscriptionClosed,
}

/// A request cannot be served whenever it comes.
#[derive(Clone, Copy, Debug, PartialEq, Eq, Structural)]
pub enum GenericError {
    /// A string holds a NUL and so has no form as a NUL-terminated string.
    StringToCStringConversionFailed,
}

/// Why a request was refused.
#[derive(Clone, Copy, Debug, PartialEq, Eq, Structural)]
pub enum AeronError {
    IllegalState(IllegalStateError),
    Generic(GenericError),
}

} // verus!
