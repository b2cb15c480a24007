//! Error kinds for the two failure tiers: recoverable construction
//! failures and violated-invariant (contract-breach) conditions.

use vstd::prelude::*;

verus! {

/// Why an operation on a SID or security descriptor failed.
#[derive(Clone, Copy, Debug, PartialEq, Eq, Structural)]
pub enum Error {
    /// `Sid::new` was given fewer than 1 or more than 8 sub-authorities.
    InvalidSubAuthorityCount,
    /// `SecurityDescriptor::from_raw` was given a null descriptor buffer:
    /// a contract breach by the caller, distinct from any recoverable error.
    NullDescriptorBuffer,
}

impl Error {
    /// Whether this kind marks a violated invariant (a caller-side
    /// contract breach) rather than a recoverable construction failure.
    pub fn is_contract_violation(&self) -> (r: bool)
        ensures
            r == (*self == Error::NullDescriptorBuffer),
    {
        match self {
            Error::NullDescriptorBuffer => true,
            _ => false,
        }
    }
}

} // verus!
