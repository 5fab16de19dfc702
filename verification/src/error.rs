//! Why an operation is refused.
use vstd::prelude::*;

verus! {

/// The reasons for which the contract refuses an operation. A refused
/// operation leaves the environment as it was.
#[derive(Clone, Copy, Debug, PartialEq, Eq, Structural)]
pub enum Error {
    /// The contract has been initialised before.
    AlreadyInitialized,
    /// The address whose authorisation the operation needs did not give it.
    Unauthenticated,
    /// The underlying asset does not authorise the address.
    NotAuthorizedByUnderlying,
    /// The address is blacklisted.
    Blacklisted,
    /// The address is an automated market maker.
    AmmNotAllowed,
    /// The amount is below zero.
    NegativeAmount,
    /// The accrued reward no longer fits in 128 bits.
    RewardOverflow,
}

impl Error {
    /// The message with which the operation is aborted.
    pub fn message(self) -> (text: &'static str)
        ensures
            text@ == match self {
                Error::AlreadyInitialized => "already initialized"@,
                Error::Unauthenticated => "not authenticated"@,
                Error::NotAuthorizedByUnderlying => "address is not authorized"@,
                Error::Blacklisted => "address is blacklisted"@,
                Error::AmmNotAllowed => "amm address not allowed"@,
                Error::NegativeAmount => "negative amount is not allowed"@,
                Error::RewardOverflow => "reward overflows"@,
            },
    {
        match self {
            Error::AlreadyInitialized => "already initialized",
            Error::Unauthenticated => "not authenticated",
            Error::NotAuthorizedByUnderlying => "address is not authorized",
            Error::Blacklisted => "address is blacklisted",
            Error::AmmNotAllowed => "amm address not allowed",
            Error::NegativeAmount => "negative amount is not allowed",
            Error::RewardOverflow => "reward overflows",
        }
    }
}

} // verus!
