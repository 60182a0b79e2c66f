//! An account-balance ledger engine.
//!
//! The engine keeps account balances, delegated-spending allowances, a total
//! supply, an owner, a pause flag and a blacklist, and exposes the mutating
//! operations of a simple token contract: mint, burn, transfer, approve,
//! delegated transfer, batch transfer and the administrative toggles.
//! Every operation carries a contract that pins down exactly which error it
//! returns on which inputs, how the ledger changes on success, and that the
//! conservation invariant (total supply equals the sum of all balances) is
//! preserved wherever the arithmetic does not saturate.
//!
//! The hosting environment (call dispatch, caller authentication, event
//! delivery, persistent storage) is outside this crate: operations take the
//! already-authenticated caller as a plain argument and record emitted events
//! in an in-memory log that the host can drain.

pub mod allowances;
pub mod balances;
pub mod blacklist;
pub mod errors;
pub mod events;
pub mod ledger;

pub use errors::Error;
pub use events::{Approval, Blacklisted, Burned, LedgerEvent, Minted, Paused, Transfer};
pub use ledger::InkyBank;
