//! The events a ledger operation emits on success.
//!
//! The engine records events in an in-memory log, in the order the
//! operations complete; the hosting environment forwards them to its own
//! event sink. A failed operation emits nothing.

use vstd::prelude::*;

verus! {

/// New value was issued to `to`.
#[derive(Clone, Copy, Debug, PartialEq, Eq)]
pub struct Minted {
    pub to: u64,
    pub amount: u128,
}

/// Value moved from `from` to `to`, by a plain, a delegated or a batch
/// transfer.
#[derive(Clone, Copy, Debug, PartialEq, Eq)]
pub struct Transfer {
    pub from: u64,
    pub to: u64,
    pub amount: u128,
}

/// `owner` granted `spender` an allowance of `amount`.
#[derive(Clone, Copy, Debug, PartialEq, Eq)]
pub struct Approval {
    pub owner: u64,
    pub spender: u64,
    pub amount: u128,
}

/// The pause flag was set to `paused`.
#[derive(Clone, Copy, Debug, PartialEq, Eq)]
pub struct Paused {
    pub paused: bool,
}

/// `from` destroyed `amount` of its own balance.
#[derive(Clone, Copy, Debug, PartialEq, Eq)]
pub struct Burned {
    pub from: u64,
    pub amount: u128,
}

/// The blacklist entry of `account` was set to `status`.
#[derive(Clone, Copy, Debug, PartialEq, Eq)]
pub struct Blacklisted {
    pub account: u64,
    pub status: bool,
}

/// One entry of the engine's event log.
#[derive(Clone, Copy, Debug, PartialEq, Eq)]
pub enum LedgerEvent {
    Minted(Minted),
    Transfer(Transfer),
    Approval(Approval),
    Paused(Paused),
    Burned(Burned),
    Blacklisted(Blacklisted),
}

} // verus!
