//! Why a message was refused.
use vstd::prelude::*;
use cosmwasm_std::StdError;

verus! {

/// The error that the host's storage and address checks report.
#[verifier::external_type_specification]
#[verifier::external_body]
pub struct ExStdError(StdError);

/// Why the contract refused a message.
#[derive(Debug, PartialEq)]
pub enum ContractError {
    /// An error of the host: a missing record or an address that failed the check.
    Std(StdError),
    Unauthorized {},
    AlreadyVoted {},
    Expired {},
    NoVote {},
    MissingAcceptedToken {},
    MissingPayment {},
    NotOpen {},
    UnsupportedToken {},
    /// The funds sent in the accepted token are below its commission.
    InsufficientFunds { funds: u128, commission: u128 },
    NoOptionsProvided {},
    CannotRemoveVoter {},
    InvalidOption {},
    NotExpired {},
    InvalidWinner {},
}

/// `cosmwasm_std::StdError::not_found`: the error for a record of kind `kind`
/// that is not stored. Nothing is stated of the value.
#[verifier::external_body]
pub(crate) fn not_found(kind: &str) -> StdError {
    StdError::not_found(kind)
}

} // verus!
