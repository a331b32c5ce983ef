//! Delegated-stake accounting and validator selection.
//!
//! Stashes bond collateral, voters delegate stake to them, and at each epoch
//! boundary the heaviest stashes form the new validator set within governed
//! bounds on its size.
pub mod types;
pub mod locks;
pub mod currency;
pub mod selection;
pub mod stake;
pub mod pallet;
pub mod laws;

pub use currency::{Account, Currency, Ledger};
pub use pallet::{Pallet, PalletView, STAKING_ID};
pub use types::{AccountId, Balance, CurrencyError, Error, Event, LockId};
