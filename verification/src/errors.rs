//! Error taxonomy shared by every component. Each failing call performs zero
//! mutation and reports one of these kinds together with a readable reason.

use vstd::prelude::*;

verus! {

#[derive(Clone, Copy, Debug, PartialEq, Eq, Structural)]
pub enum ContractError {
    /// A capability, role, ownership or admin check failed.
    Unauthorized,
    /// A referenced entity is absent.
    NotFound,
    /// The operation is invalid for the entity's current lifecycle state.
    InvalidState,
    /// A duplicate grant, interaction or membership was attempted.
    AlreadyExists,
    /// The input is malformed.
    ValidationError,
    /// An oracle or role query errored or returned an unusable answer.
    ExternalQueryFailure,
}

impl ContractError {
    pub open spec fn spec_reason(&self) -> Seq<char> {
        match self {
            ContractError::Unauthorized => "unauthorized"@,
            ContractError::NotFound => "not found"@,
            ContractError::InvalidState => "invalid state"@,
            ContractError::AlreadyExists => "already exists"@,
            ContractError::ValidationError => "validation error"@,
            ContractError::ExternalQueryFailure => "external query failure"@,
        }
    }

    /// Human-readable reason for the failure.
    pub fn reason(&self) -> (r: String)
        ensures
            r@ == self.spec_reason(),
    {
        match self {
            ContractError::Unauthorized => String::from_str("unauthorized"),
            ContractError::NotFound => String::from_str("not found"),
            ContractError::InvalidState => String::from_str("invalid state"),
            ContractError::AlreadyExists => String::from_str("already exists"),
            ContractError::ValidationError => String::from_str("validation error"),
            ContractError::ExternalQueryFailure => String::from_str("external query failure"),
        }
    }
}

} // verus!
