//! Error taxonomy of the engine.
//!
//! Every error is a precondition failure detected before any mutation: an
//! operation that returns one of these leaves the whole state exactly as it
//! was.

use vstd::prelude::*;

verus! {

/// Why a subscription-engine operation was refused.
#[derive(Clone, Copy, Debug, PartialEq, Eq, Structural)]
pub enum SubscriptionError {
    /// The caller is not the contract owner.
    Unauthorized,
    /// The named plan (or priced asset) does not exist in the catalog.
    NotFound,
    /// A plan with this id is already in the catalog.
    AlreadyExists,
    /// The global enabled flag is off.
    ContractDisabled,
    /// The asset is not a member of the plan's allowed-asset set.
    AssetNotAccepted,
    /// The attached amount differs from the configured price.
    InvalidAmount,
    /// The plan exists but its status is `Disabled`.
    PlanDisabled,
    /// The plan id given to `pay` is not in the catalog.
    UnknownPlan,
    /// Enabling the contract was requested while no payout address is set.
    ConfigurationError,
}

/// Why a donation-ledger operation was refused.
#[derive(Clone, Copy, Debug, PartialEq, Eq, Structural)]
pub enum DonationError {
    /// The caller is not allowed to perform the operation.
    Unauthorized,
    /// The token or address is already registered.
    AlreadyExists,
    /// The token or address is not registered.
    NotFound,
    /// The donated token is not on the allow-list.
    AssetNotAccepted,
    /// No donated token has a positive balance to claim.
    NothingToClaim,
}

} // verus!
