use vstd::prelude::*;

verus! {

/// Identifier of an account.
pub type AccountId = u64;

/// An amount of collateral.
pub type Balance = u64;

/// Identifier of a lock; an account holds at most one lock of each identifier.
pub type LockId = u64;

/// Errors returned by the ledger operations.
#[derive(Debug, Clone, Copy, PartialEq, Eq, Structural)]
pub enum Error {
    /// Not a stash account.
    NotStash,
    /// Stash is already bonded.
    AlreadyBonded,
    /// The bond is below the collateral system's minimum balance.
    InsufficientBond,
    /// The account cannot take on another consumer reference.
    BadState,
    /// The validator-count bounds would be violated.
    InvalidNumberOfValidators,
    /// The voter already has a delegation to this target.
    AlreadyVoted,
    /// The aggregate stake of the target would exceed the balance range.
    StakeOverflow,
    /// The collateral system refused to reserve the amount.
    Currency(CurrencyError),
}

/// Failures reported by the collateral system.
#[derive(Debug, Clone, Copy, PartialEq, Eq, Structural)]
pub enum CurrencyError {
    /// The free balance does not cover the amount.
    InsufficientBalance,
    /// A lock on the account forbids the withdrawal.
    LiquidityRestrictions,
    /// The account does not exist.
    NoProviders,
    /// The account has reached its consumer reference ceiling.
    TooManyConsumers,
}

/// Notifications emitted after a successful operation.
#[derive(Debug, Clone, Copy, PartialEq, Eq, Structural)]
pub enum Event {
    /// An account has bonded this amount.
    Bonded(AccountId, Balance),
    /// An account has unbonded.
    Unbonded(AccountId),
    /// A voter delegated an amount to a target.
    Voted(AccountId, AccountId, Balance),
    /// A voter withdrew its delegation to a target.
    Unvoted(AccountId, AccountId),
}

} // verus!
