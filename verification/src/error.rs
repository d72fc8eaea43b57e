//! The error codes that every Astroid contract answers with.
use vstd::prelude::*;

verus! {

/// Protocol-wide refusals. Off-chain consumers see the numeric [`Error::code`], which is part of
/// the public interface: a code is never reordered and never reused.
#[derive(Copy, Clone, Debug, PartialEq, Eq, PartialOrd, Ord, Structural)]
pub enum Error {
    // Generic and lifecycle.
    NotFound,
    AlreadyExists,
    Unauthorized,
    InvalidInput,
    NotInitialized,
    AlreadyInitialized,
    // Value and arithmetic.
    InsufficientFunds,
    Overflow,
    Underflow,
    InvalidAmount,
    // Policy.
    PolicyDenied,
    PolicyHashMismatch,
    EmergencyLock,
    PolicyRecipientRestricted,
    // Registry.
    RegistryFrozen,
    // Budget.
    BudgetExceeded,
    BudgetFrozen,
    BudgetArchived,
    AssetNotAuthorized,
    // Wallet.
    WalletFrozen,
    WalletArchived,
    WalletPaused,
    InvalidState,
    // Multisig and approvals.
    InvalidSignature,
    ThresholdNotMet,
    AlreadySigned,
    NotASigner,
    InvalidThreshold,
    TimeLocked,
    TooManySigners,
    // Proposal.
    ProposalExpired,
    InvalidProposalState,
    ProposalNotApproved,
    NotAnApprover,
    CircularDelegation,
    DelegationDepthExceeded,
    // Escrow.
    ConditionNotMet,
    EscrowNotFunded,
    EscrowExpired,
    InvalidCondition,
    TimeLockActive,
}

impl Error {
    /// The number that stands for this error outside the contract.
    pub open spec fn spec_code(self) -> u32 {
        match self {
            Error::NotFound => 1,
            Error::AlreadyExists => 2,
            Error::Unauthorized => 3,
            Error::InvalidInput => 4,
            Error::NotInitialized => 5,
            Error::AlreadyInitialized => 6,
            Error::InsufficientFunds => 10,
            Error::Overflow => 11,
            Error::Underflow => 12,
            Error::InvalidAmount => 13,
            Error::PolicyDenied => 20,
            Error::PolicyHashMismatch => 21,
            Error::EmergencyLock => 22,
            Error::PolicyRecipientRestricted => 23,
            Error::RegistryFrozen => 30,
            Error::BudgetExceeded => 40,
            Error::BudgetFrozen => 41,
            Error::BudgetArchived => 42,
            Error::AssetNotAuthorized => 43,
            Error::WalletFrozen => 50,
            Error::WalletArchived => 51,
            Error::WalletPaused => 52,
            Error::InvalidState => 53,
            Error::InvalidSignature => 60,
            Error::ThresholdNotMet => 61,
            Error::AlreadySigned => 62,
            Error::NotASigner => 63,
            Error::InvalidThreshold => 64,
            Error::TimeLocked => 65,
            Error::TooManySigners => 66,
            Error::ProposalExpired => 70,
            Error::InvalidProposalState => 71,
            Error::ProposalNotApproved => 72,
            Error::NotAnApprover => 73,
            Error::CircularDelegation => 74,
            Error::DelegationDepthExceeded => 75,
            Error::ConditionNotMet => 80,
            Error::EscrowNotFunded => 81,
            Error::EscrowExpired => 82,
            Error::InvalidCondition => 83,
            Error::TimeLockActive => 84,
        }
    }

    /// The number that stands for this error outside the contract.
    pub fn code(self) -> (code: u32)
        ensures
            code == self.spec_code(),
    {
        match self {
            Error::NotFound => 1,
            Error::AlreadyExists => 2,
            Error::Unauthorized => 3,
            Error::InvalidInput => 4,
            Error::NotInitialized => 5,
            Error::AlreadyInitialized => 6,
            Error::InsufficientFunds => 10,
            Error::Overflow => 11,
            Error::Underflow => 12,
            Error::InvalidAmount => 13,
            Error::PolicyDenied => 20,
            Error::PolicyHashMismatch => 21,
            Error::EmergencyLock => 22,
            Error::PolicyRecipientRestricted => 23,
            Error::RegistryFrozen => 30,
            Error::BudgetExceeded => 40,
            Error::BudgetFrozen => 41,
            Error::BudgetArchived => 42,
            Error::AssetNotAuthorized => 43,
            Error::WalletFrozen => 50,
            Error::WalletArchived => 51,
            Error::WalletPaused => 52,
            Error::InvalidState => 53,
            Error::InvalidSignature => 60,
            Error::ThresholdNotMet => 61,
            Error::AlreadySigned => 62,
            Error::NotASigner => 63,
            Error::InvalidThreshold => 64,
            Error::TimeLocked => 65,
            Error::TooManySigners => 66,
            Error::ProposalExpired => 70,
            Error::InvalidProposalState => 71,
            Error::ProposalNotApproved => 72,
            Error::NotAnApprover => 73,
            Error::CircularDelegation => 74,
            Error::DelegationDepthExceeded => 75,
            Error::ConditionNotMet => 80,
            Error::EscrowNotFunded => 81,
            Error::EscrowExpired => 82,
            Error::InvalidCondition => 83,
            Error::TimeLockActive => 84,
        }
    }
}

} // verus!
