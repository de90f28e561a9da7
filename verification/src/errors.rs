//! The ways in which a filter pass can fail.

use vstd::prelude::*;
use crate::primitives::Address;

verus! {

/// Why a price could not be resolved or a pass could not be completed.
#[derive(Clone, Copy, Debug, PartialEq, Eq, Structural)]
pub enum FilterError {
    /// No exchange offers a pool that pairs `token` with `reference` and holds
    /// enough of `reference` to be trusted as a price source.
    NoReferencePool { token: Address, reference: Address },
    /// A batch response did not decode to one value for each pool asked about.
    ProtocolDecodeError,
    /// The exchange at position `dex` failed for a reason other than the
    /// contract rejecting the query.
    TransportError { dex: usize },
}

impl FilterError {
    /// Whether a pass goes on after this error, the pool in question counting
    /// as worth nothing. Only a missing reference pool is of that kind.
    pub open spec fn spec_is_recoverable(self) -> bool {
        self is NoReferencePool
    }

    /// Whether a pass goes on after this error.
    pub fn is_recoverable(&self) -> (b: bool)
        ensures
            b == self.spec_is_recoverable(),
    {
        match self {
            FilterError::NoReferencePool { .. } => true,
            FilterError::ProtocolDecodeError => false,
            FilterError::TransportError { .. } => false,
        }
    }
}

} // verus!
