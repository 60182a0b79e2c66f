//! The errors that ledger operations can return.

use vstd::prelude::*;

verus! {

/// Every failure a ledger operation can report. Each one is a locally
/// detected precondition violation: an operation that returns an error has
/// mutated nothing and emitted no event.
#[derive(Clone, Copy, Debug, PartialEq, Eq)]
pub enum Error {
    /// A debit was requested for more than the debited account holds.
    InsufficientBalance,
    /// An owner-gated operation was called by an account other than the owner.
    NotOwner,
    /// A value-moving operation was called with an amount of zero.
    ZeroAmount,
    /// A pause-gated operation was called while the ledger was paused.
    ContractPaused,
    /// A mint was requested for a blacklisted recipient.
    AccountBlacklisted,
    /// A delegated transfer exceeded the spender's remaining allowance.
    InsufficientAllowance,
    /// A batch transfer's recipient and amount lists differ in length.
    InvalidBatchOperation,
}

} // verus!
