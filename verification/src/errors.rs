//! Error kinds surfaced by the escrow and vault operations.
//!
//! Every precondition check happens before any state mutation, so a failed
//! operation reports one of these kinds and leaves the ledger untouched.

use vstd::prelude::*;

verus! {

/// Why an escrow or vault operation was rejected. No state changes when one
/// of these is returned.
#[derive(Clone, Copy, Debug, PartialEq, Eq, Structural)]
pub enum EscrowError {
    /// The caller is not the recorded owner or maker.
    AuthorizationError,
    /// The referenced record or account does not exist (including the
    /// "already settled" case, since destruction is the settlement signal).
    NotFoundError,
    /// The source balance is below the required amount.
    InsufficientFundsError,
    /// A supplied asset-type account does not match the one recorded at
    /// creation.
    AssetMismatchError,
    /// A record already occupies the key or address being created.
    AlreadyExistsError,
    /// A destination balance would exceed the representable maximum.
    OverflowError,
    /// No valid authority-proof byte exists for the requested seeds;
    /// practically unreachable.
    DerivationError,
    /// A degenerate offer (zero amount, or identical offered and requested
    /// asset types) was rejected by a strict validation policy.
    InvalidOfferError,
}

/// Why a staking operation was rejected.
#[derive(Clone, Copy, Debug, PartialEq, Eq, Structural)]
pub enum StakeProgramError {
    FreezePeriodNotPassed,
    MaxStakeReached,
}

} // verus!
