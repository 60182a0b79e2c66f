//! The ledger engine: account balances, allowances, total supply, owner,
//! pause flag and blacklist, with the operations that mutate them.
//!
//! Every operation takes the already-authenticated caller as its first
//! argument; dispatch and authentication belong to the hosting environment.
//! Events are appended to an in-memory log on success and nowhere else.
//!
//! The conservation invariant — the total supply equals the mathematical sum
//! of all balances — is stated by [`InkyBank::conserved`] and every mutating
//! operation ensures it is preserved, with two documented exceptions where
//! the recorded behaviour genuinely breaks it: a mint whose total-supply
//! addition saturates, and a delegated transfer whose source and destination
//! are the same account (see [`InkyBank::transfer_from`]).

use vstd::prelude::*;

use crate::allowances::AllowanceTable;
use crate::balances::BalanceTable;
use crate::blacklist::BlacklistTable;
use crate::errors::Error;
use crate::events::{Approval, Blacklisted, Burned, LedgerEvent, Minted, Paused, Transfer};

verus! {

/// The mathematical sum of a sequence of amounts.
pub open spec fn amounts_total(amounts: Seq<u128>) -> int
    decreases amounts.len(),
{
    if amounts.len() == 0 {
        0
    } else {
        amounts_total(amounts.drop_last()) + amounts.last()
    }
}

/// `x` clamped into the `u128` range: the value a saturating computation of
/// `x` yields.
pub open spec fn clamp_u128(x: int) -> u128 {
    if x > u128::MAX {
        u128::MAX
    } else if x < 0 {
        0
    } else {
        x as u128
    }
}

proof fn lemma_amounts_total_nonneg(amounts: Seq<u128>)
    ensures
        amounts_total(amounts) >= 0,
    decreases amounts.len(),
{
    if amounts.len() > 0 {
        lemma_amounts_total_nonneg(amounts.drop_last());
    }
}

/// The balances after one transfer of `amount` from `from` to `to`: the
/// debit is written first and the credit is computed from the debited state,
/// exactly as [`InkyBank::transfer`] does. Meaningful when
/// `bals[from] >= amount`.
pub open spec fn transfer_applied(bals: Map<u64, u128>, from: u64, to: u64, amount: u128) -> Map<
    u64,
    u128,
> {
    let debited = bals.insert(from, (bals[from] - amount) as u128);
    debited.insert(to, debited[to].saturating_add(amount))
}

/// The result of running a batch of transfers out of `from` in input order
/// over the balances `bals`: the balances after every applied step, the
/// number of steps applied, and the error of the first failing step if one
/// fails. A step with a zero amount or an insufficient balance stops the
/// run; the steps already applied stay applied.
pub open spec fn batch_run(
    bals: Map<u64, u128>,
    from: u64,
    recipients: Seq<u64>,
    amounts: Seq<u128>,
) -> (Map<u64, u128>, int, Option<Error>)
    decreases recipients.len(),
{
    if recipients.len() == 0 {
        (bals, 0, None::<Error>)
    } else if amounts[0] == 0 {
        (bals, 0, Some(Error::ZeroAmount))
    } else if bals[from] < amounts[0] {
        (bals, 0, Some(Error::InsufficientBalance))
    } else {
        let rest = batch_run(
            transfer_applied(bals, from, recipients[0], amounts[0]),
            from,
            recipients.drop_first(),
            amounts.drop_first(),
        );
        (rest.0, rest.1 + 1, rest.2)
    }
}

/// The `Transfer` events that the first `n` pairs of a batch record.
pub open spec fn batch_events(
    from: u64,
    recipients: Seq<u64>,
    amounts: Seq<u128>,
    n: int,
) -> Seq<LedgerEvent> {
    Seq::new(
        n as nat,
        |i: int| LedgerEvent::Transfer(Transfer { from, to: recipients[i], amount: amounts[i] }),
    )
}

/// The ledger engine. Constructed once by [`InkyBank::new`]; all later
/// change goes through the public operations, which maintain [`InkyBank::wf`].
pub struct InkyBank {
    owner: u64,
    total_supply: u128,
    balances: BalanceTable,
    allowances: AllowanceTable,
    paused: bool,
    blacklist: BlacklistTable,
    events: Vec<LedgerEvent>,
}

impl InkyBank {
    /// The internal invariant: each table maps every key to at most one
    /// entry. Established by the constructor and preserved by every
    /// operation.
    pub closed spec fn wf(self) -> bool {
        self.balances.wf() && self.allowances.wf() && self.blacklist.wf()
    }

    /// The fixed owner account.
    pub closed spec fn spec_owner(self) -> u64 {
        self.owner
    }

    /// The recorded total supply.
    pub closed spec fn spec_total_supply(self) -> u128 {
        self.total_supply
    }

    /// The pause flag.
    pub closed spec fn spec_paused(self) -> bool {
        self.paused
    }

    /// The balance of `account`; an account never written reads as zero.
    pub closed spec fn spec_balance_of(self, account: u64) -> u128 {
        self.balances.spec_get(account)
    }

    /// Every account's balance, as a total map.
    pub open spec fn balances_map(self) -> Map<u64, u128> {
        Map::total(|a: u64| self.spec_balance_of(a))
    }

    /// The remaining allowance `spender` may move out of `owner`'s balance.
    pub closed spec fn spec_allowance(self, owner: u64, spender: u64) -> u128 {
        self.allowances.spec_get(owner, spender)
    }

    /// Whether `account` is blacklisted.
    pub closed spec fn spec_blacklisted(self, account: u64) -> bool {
        self.blacklist.spec_get(account)
    }

    /// The event log, oldest first.
    pub closed spec fn spec_events(self) -> Seq<LedgerEvent> {
        self.events@
    }

    /// The mathematical sum of every balance. It is an unbounded integer:
    /// saturating arithmetic can in principle drive it past `u128::MAX`.
    pub closed spec fn sum_of_balances(self) -> int {
        self.balances.total()
    }

    /// The conservation invariant: the total supply equals the sum of all
    /// balances.
    pub open spec fn conserved(self) -> bool {
        self.spec_total_supply() == self.sum_of_balances()
    }

    /// All observable state except balances, total supply and the event log
    /// is the same in `self` and `other`.
    pub open spec fn same_admin_state(self, other: Self) -> bool {
        &&& self.spec_owner() == other.spec_owner()
        &&& self.spec_paused() == other.spec_paused()
        &&& forall|o: u64, p: u64| self.spec_allowance(o, p) == other.spec_allowance(o, p)
        &&& forall|a: u64| self.spec_blacklisted(a) == other.spec_blacklisted(a)
    }

    /// Under the conservation invariant no account can hold more than the
    /// total supply: every balance is one nonnegative summand of the sum the
    /// supply equals.
    pub proof fn lemma_balance_within_supply(self, account: u64)
        requires
            self.conserved(),
        ensures
            self.spec_balance_of(account) <= self.spec_total_supply(),
    {
        self.balances.lemma_get_le_total(account);
    }

    /// Construct an empty ledger owned by the constructing caller: no
    /// balances, no allowances, no blacklist entries, total supply zero, not
    /// paused, empty event log.
    pub fn new(caller: u64) -> (bank: Self)
        ensures
            bank.wf(),
            bank.conserved(),
            bank.spec_owner() == caller,
            bank.spec_total_supply() == 0,
            !bank.spec_paused(),
            forall|a: u64| bank.spec_balance_of(a) == 0,
            forall|o: u64, p: u64| bank.spec_allowance(o, p) == 0,
            forall|a: u64| !bank.spec_blacklisted(a),
            bank.spec_events() == Seq::<LedgerEvent>::empty(),
    {
        let bank = InkyBank {
            owner: caller,
            total_supply: 0,
            balances: BalanceTable::new(),
            allowances: AllowanceTable::new(),
            paused: false,
            blacklist: BlacklistTable::new(),
            events: Vec::new(),
        };
        proof {
            assert(bank.spec_events() =~= Seq::<LedgerEvent>::empty());
        }
        bank
    }

    /// The balance of `account`; zero when the account was never credited.
    pub fn balance_of(&self, account: u64) -> (r: u128)
        ensures
            r == self.spec_balance_of(account),
    {
        self.balances.get(account)
    }

    /// The remaining allowance `spender` may move out of `owner`'s balance.
    pub fn allowance(&self, owner: u64, spender: u64) -> (r: u128)
        ensures
            r == self.spec_allowance(owner, spender),
    {
        self.allowances.get(owner, spender)
    }

    /// The recorded total supply.
    pub fn total_supply(&self) -> (r: u128)
        ensures
            r == self.spec_total_supply(),
    {
        self.total_supply
    }

    /// The fixed owner account. No operation changes it: ownership is not
    /// transferable.
    pub fn owner(&self) -> (r: u64)
        ensures
            r == self.spec_owner(),
    {
        self.owner
    }

    /// The event log, oldest first, for the hosting environment to forward
    /// to its event sink.
    pub fn events(&self) -> (r: &Vec<LedgerEvent>)
        ensures
            r@ == self.spec_events(),
    {
        &self.events
    }

    /// Issue `amount` new units to `to`. Only the owner may mint, the ledger
    /// must not be paused, the recipient must not be blacklisted and the
    /// amount must be nonzero; the checks are made in that order and the
    /// first failing one names the error. On success the recipient's balance
    /// and the total supply both grow by `amount`, each saturating at
    /// `u128::MAX`, and a `Minted` event is recorded. Conservation is
    /// preserved whenever the total-supply addition does not saturate.
    pub fn mint(&mut self, caller: u64, to: u64, amount: u128) -> (r: Result<(), Error>)
        requires
            old(self).wf(),
        ensures
            final(self).wf(),
            r == Err::<(), Error>(Error::NotOwner) <==> caller != old(self).spec_owner(),
            r == Err::<(), Error>(Error::ContractPaused) <==> caller == old(self).spec_owner()
                && old(self).spec_paused(),
            r == Err::<(), Error>(Error::AccountBlacklisted) <==> caller == old(self).spec_owner()
                && !old(self).spec_paused() && old(self).spec_blacklisted(to),
            r == Err::<(), Error>(Error::ZeroAmount) <==> caller == old(self).spec_owner() && !old(self).spec_paused() && !old(self).spec_blacklisted(to) && amount == 0,
            r == Ok::<(), Error>(()) <==> caller == old(self).spec_owner() && !old(self).spec_paused() && !old(self).spec_blacklisted(to) && amount != 0,
            r is Err ==> *final(self) == *old(self),
            r is Ok ==> final(self).spec_balance_of(to) == old(self).spec_balance_of(
                to,
            ).saturating_add(amount),
            r is Ok ==> forall|x: u64|
                x != to ==> final(self).spec_balance_of(x) == old(self).spec_balance_of(x),
            r is Ok ==> final(self).spec_total_supply() == old(self).spec_total_supply().saturating_add(amount),
            r is Ok ==> final(self).spec_events() == old(self).spec_events().push(
                LedgerEvent::Minted((Minted { to, amount })),
            ),
            final(self).same_admin_state(*old(self)),
            old(self).conserved() && old(self).spec_total_supply() + amount <= u128::MAX ==> final(self).conserved(),
    {
        if caller != self.owner {
            return Err(Error::NotOwner);
        }
        if self.paused {
            return Err(Error::ContractPaused);
        }
        if self.blacklist.get(to) {
            return Err(Error::AccountBlacklisted);
        }
        if amount == 0 {
            return Err(Error::ZeroAmount);
        }
        let current_balance = self.balances.get(to);
        proof {
            self.balances.lemma_get_le_total(to);
        }
        let new_balance = current_balance.saturating_add(amount);
        self.balances.insert(to, new_balance);
        self.total_supply = self.total_supply.saturating_add(amount);
        self.events.push(LedgerEvent::Minted(Minted { to, amount }));
        Ok(())
    }

    /// Move `amount` from the caller to `to`. The amount must be nonzero
    /// and the caller's balance sufficient; the checks are made in that
    /// order. The pause flag does not gate plain transfers. A self-transfer
    /// is permitted: it leaves the balance unchanged but still requires a
    /// sufficient balance and still records a `Transfer` event. On success
    /// the caller is debited exactly `amount` and `to` is credited `amount`
    /// (saturating at `u128::MAX`; under the conservation invariant the
    /// credit cannot saturate), and conservation is preserved.
    pub fn transfer(&mut self, caller: u64, to: u64, amount: u128) -> (r: Result<(), Error>)
        requires
            old(self).wf(),
        ensures
            final(self).wf(),
            r == Err::<(), Error>(Error::ZeroAmount) <==> amount == 0,
            r == Err::<(), Error>(Error::InsufficientBalance) <==> amount != 0 && old(self).spec_balance_of(caller) < amount,
            r == Ok::<(), Error>(()) <==> amount != 0 && old(self).spec_balance_of(caller)
                >= amount,
            r is Err ==> *final(self) == *old(self),
            r is Ok && to != caller ==> final(self).spec_balance_of(caller) == old(self).spec_balance_of(caller) - amount,
            r is Ok && to != caller ==> final(self).spec_balance_of(to) == old(self).spec_balance_of(to).saturating_add(amount),
            r is Ok && to == caller ==> final(self).spec_balance_of(caller) == old(self).spec_balance_of(caller),
            r is Ok ==> forall|x: u64|
                x != caller && x != to ==> final(self).spec_balance_of(x) == old(self).spec_balance_of(x),
            final(self).spec_total_supply() == old(self).spec_total_supply(),
            r is Ok ==> final(self).spec_events() == old(self).spec_events().push(
                LedgerEvent::Transfer((Transfer { from: caller, to, amount })),
            ),
            final(self).same_admin_state(*old(self)),
            old(self).conserved() ==> final(self).conserved(),
    {
        if amount == 0 {
            return Err(Error::ZeroAmount);
        }
        let from_balance = self.balances.get(caller);
        if from_balance < amount {
            return Err(Error::InsufficientBalance);
        }
        let new_from_balance = from_balance.saturating_sub(amount);
        self.balances.insert(caller, new_from_balance);
        proof {
            self.balances.lemma_get_le_total(to);
        }
        let to_balance = self.balances.get(to);
        let new_to_balance = to_balance.saturating_add(amount);
        self.balances.insert(to, new_to_balance);
        self.events.push(LedgerEvent::Transfer(Transfer { from: caller, to, amount }));
        Ok(())
    }

    /// Set the allowance of `(caller, spender)` to `amount`, overwriting any
    /// earlier value: this is a set, not an increment. It always succeeds —
    /// neither the pause flag nor the blacklist gates it — and records an
    /// `Approval` event.
    pub fn approve(&mut self, caller: u64, spender: u64, amount: u128) -> (r: Result<(), Error>)
        requires
            old(self).wf(),
        ensures
            final(self).wf(),
            r == Ok::<(), Error>(()),
            final(self).spec_allowance(caller, spender) == amount,
            forall|o: u64, p: u64|
                !(o == caller && p == spender) ==> final(self).spec_allowance(o, p) == old(
                    self,
                ).spec_allowance(o, p),
            forall|a: u64| final(self).spec_balance_of(a) == old(self).spec_balance_of(a),
            forall|a: u64| final(self).spec_blacklisted(a) == old(self).spec_blacklisted(a),
            final(self).spec_total_supply() == old(self).spec_total_supply(),
            final(self).sum_of_balances() == old(self).sum_of_balances(),
            final(self).spec_owner() == old(self).spec_owner(),
            final(self).spec_paused() == old(self).spec_paused(),
            final(self).spec_events() == old(self).spec_events().push(
                LedgerEvent::Approval((Approval { owner: caller, spender, amount })),
            ),
            old(self).conserved() ==> final(self).conserved(),
    {
        self.allowances.insert(caller, spender, amount);
        self.events.push(LedgerEvent::Approval(Approval { owner: caller, spender, amount }));
        Ok(())
    }

    /// Delegated transfer: the caller moves `amount` from `from` to `to`
    /// against the allowance `from` granted the caller. Checks, in order:
    /// the ledger must not be paused, the amount must be nonzero, the
    /// allowance of `(from, caller)` must cover the amount, and `from`'s
    /// balance must cover it. The allowance is deliberately *not*
    /// decremented by a successful delegated transfer: the granted amount
    /// stays spendable until `from` approves a new value.
    ///
    /// The credit of `to` is computed from `to`'s balance read before the
    /// debit is written, and the debit from `from`'s balance read before the
    /// credit. With `from == to` the credit is therefore overwritten by the
    /// debit: a delegated self-transfer reduces `from`'s balance by `amount`
    /// while the total supply stays put, so conservation is preserved only
    /// when `from != to`.
    pub fn transfer_from(&mut self, caller: u64, from: u64, to: u64, amount: u128) -> (r: Result<
        (),
        Error,
    >)
        requires
            old(self).wf(),
        ensures
            final(self).wf(),
            r == Err::<(), Error>(Error::ContractPaused) <==> old(self).spec_paused(),
            r == Err::<(), Error>(Error::ZeroAmount) <==> !old(self).spec_paused() && amount == 0,
            r == Err::<(), Error>(Error::InsufficientAllowance) <==> !old(self).spec_paused()
                && amount != 0 && old(self).spec_allowance(from, caller) < amount,
            r == Err::<(), Error>(Error::InsufficientBalance) <==> !old(self).spec_paused()
                && amount != 0 && old(self).spec_allowance(from, caller) >= amount && old(
                self,
            ).spec_balance_of(from) < amount,
            r == Ok::<(), Error>(()) <==> !old(self).spec_paused() && amount != 0 && old(
                self,
            ).spec_allowance(from, caller) >= amount && old(self).spec_balance_of(from) >= amount,
            r is Err ==> *final(self) == *old(self),
            r is Ok ==> final(self).spec_balance_of(from) == old(self).spec_balance_of(from)
                - amount,
            r is Ok && from != to ==> final(self).spec_balance_of(to) == old(self).spec_balance_of(
                to,
            ).saturating_add(amount),
            r is Ok ==> forall|x: u64|
                x != from && x != to ==> final(self).spec_balance_of(x) == old(
                    self,
                ).spec_balance_of(x),
            final(self).spec_total_supply() == old(self).spec_total_supply(),
            r is Ok ==> final(self).spec_events() == old(self).spec_events().push(
                LedgerEvent::Transfer((Transfer { from, to, amount })),
            ),
            final(self).same_admin_state(*old(self)),
            old(self).conserved() && (r is Err || from != to) ==> final(self).conserved(),
    {
        if self.paused {
            return Err(Error::ContractPaused);
        }
        if amount == 0 {
            return Err(Error::ZeroAmount);
        }
        let granted = self.allowances.get(from, caller);
        if granted < amount {
            return Err(Error::InsufficientAllowance);
        }
        let from_balance = self.balances.get(from);
        if from_balance < amount {
            return Err(Error::InsufficientBalance);
        }
        proof {
            if from != to {
                self.balances.lemma_get_pair_le_total(from, to);
            }
        }
        let to_balance = self.balances.get(to);
        let new_to_balance = to_balance.saturating_add(amount);
        self.balances.insert(to, new_to_balance);
        let new_from_balance = from_balance.saturating_sub(amount);
        self.balances.insert(from, new_from_balance);
        self.events.push(LedgerEvent::Transfer(Transfer { from, to, amount }));
        Ok(())
    }

    /// Destroy `amount` of the caller's own balance. The amount must be
    /// nonzero and the caller's balance sufficient, in that order. No owner
    /// gate and no pause gate: any account may burn its own tokens at any
    /// time. On success the caller is debited exactly `amount`, the total
    /// supply shrinks by `amount` (saturating at zero; under the
    /// conservation invariant exactly), and a `Burned` event is recorded.
    pub fn burn(&mut self, caller: u64, amount: u128) -> (r: Result<(), Error>)
        requires
            old(self).wf(),
        ensures
            final(self).wf(),
            r == Err::<(), Error>(Error::ZeroAmount) <==> amount == 0,
            r == Err::<(), Error>(Error::InsufficientBalance) <==> amount != 0 && old(
                self,
            ).spec_balance_of(caller) < amount,
            r == Ok::<(), Error>(()) <==> amount != 0 && old(self).spec_balance_of(caller)
                >= amount,
            r is Err ==> *final(self) == *old(self),
            r is Ok ==> final(self).spec_balance_of(caller) == old(self).spec_balance_of(caller)
                - amount,
            r is Ok ==> forall|x: u64|
                x != caller ==> final(self).spec_balance_of(x) == old(self).spec_balance_of(x),
            r is Ok ==> final(self).spec_total_supply() == old(
                self,
            ).spec_total_supply().saturating_sub(amount),
            r is Ok ==> final(self).spec_events() == old(self).spec_events().push(
                LedgerEvent::Burned((Burned { from: caller, amount })),
            ),
            final(self).same_admin_state(*old(self)),
            old(self).conserved() ==> final(self).conserved(),
    {
        if amount == 0 {
            return Err(Error::ZeroAmount);
        }
        let balance = self.balances.get(caller);
        if balance < amount {
            return Err(Error::InsufficientBalance);
        }
        proof {
            self.balances.lemma_get_le_total(caller);
        }
        self.balances.insert(caller, balance.saturating_sub(amount));
        self.total_supply = self.total_supply.saturating_sub(amount);
        self.events.push(LedgerEvent::Burned(Burned { from: caller, amount }));
        Ok(())
    }

    /// Set the pause flag. Only the owner may toggle it, paused or not; on
    /// success the flag takes the given value and a `Paused` event carrying
    /// the new value is recorded. Pause gates mint, delegated transfer and
    /// batch transfer; plain transfer, burn, approve and the toggles stay
    /// available.
    pub fn toggle_pause(&mut self, caller: u64, paused: bool) -> (r: Result<(), Error>)
        requires
            old(self).wf(),
        ensures
            final(self).wf(),
            r == Err::<(), Error>(Error::NotOwner) <==> caller != old(self).spec_owner(),
            r == Ok::<(), Error>(()) <==> caller == old(self).spec_owner(),
            r is Err ==> *final(self) == *old(self),
            r is Ok ==> final(self).spec_paused() == paused,
            r is Ok ==> final(self).spec_events() == old(self).spec_events().push(
                LedgerEvent::Paused((Paused { paused })),
            ),
            forall|a: u64| final(self).spec_balance_of(a) == old(self).spec_balance_of(a),
            forall|o: u64, p: u64|
                final(self).spec_allowance(o, p) == old(self).spec_allowance(o, p),
            forall|a: u64| final(self).spec_blacklisted(a) == old(self).spec_blacklisted(a),
            final(self).spec_total_supply() == old(self).spec_total_supply(),
            final(self).sum_of_balances() == old(self).sum_of_balances(),
            final(self).spec_owner() == old(self).spec_owner(),
            old(self).conserved() ==> final(self).conserved(),
    {
        if caller != self.owner {
            return Err(Error::NotOwner);
        }
        self.paused = paused;
        self.events.push(LedgerEvent::Paused(Paused { paused }));
        Ok(())
    }

    /// Set the blacklist status of `account`. Only the owner may toggle it,
    /// paused or not; on success the status takes the given value and a
    /// `Blacklisted` event carrying the new value is recorded. The blacklist
    /// is consulted in one place only: a blacklisted account cannot be a
    /// mint recipient.
    pub fn toggle_blacklist(&mut self, caller: u64, account: u64, status: bool) -> (r: Result<
        (),
        Error,
    >)
        requires
            old(self).wf(),
        ensures
            final(self).wf(),
            r == Err::<(), Error>(Error::NotOwner) <==> caller != old(self).spec_owner(),
            r == Ok::<(), Error>(()) <==> caller == old(self).spec_owner(),
            r is Err ==> *final(self) == *old(self),
            r is Ok ==> final(self).spec_blacklisted(account) == status,
            r is Ok ==> forall|x: u64|
                x != account ==> final(self).spec_blacklisted(x) == old(self).spec_blacklisted(x),
            r is Ok ==> final(self).spec_events() == old(self).spec_events().push(
                LedgerEvent::Blacklisted((Blacklisted { account, status })),
            ),
            forall|a: u64| final(self).spec_balance_of(a) == old(self).spec_balance_of(a),
            forall|o: u64, p: u64|
                final(self).spec_allowance(o, p) == old(self).spec_allowance(o, p),
            final(self).spec_total_supply() == old(self).spec_total_supply(),
            final(self).sum_of_balances() == old(self).sum_of_balances(),
            final(self).spec_owner() == old(self).spec_owner(),
            final(self).spec_paused() == old(self).spec_paused(),
            old(self).conserved() ==> final(self).conserved(),
    {
        if caller != self.owner {
            return Err(Error::NotOwner);
        }
        self.blacklist.insert(account, status);
        self.events.push(LedgerEvent::Blacklisted(Blacklisted { account, status }));
        Ok(())
    }

    /// Transfer to several recipients in one call: one plain transfer per
    /// (recipient, amount) pair, in input order. Checks before any transfer,
    /// in order: the ledger must not be paused, the two lists must have the
    /// same length, and the saturating sum of the amounts must not exceed
    /// the caller's balance. The per-pair transfers are then applied
    /// immediately as they are evaluated: a failing pair — a zero amount,
    /// or an insufficient balance, the latter reachable only when the
    /// saturating sum clamped — stops the batch with that pair's error and
    /// *without rolling back* the pairs already applied, exactly as
    /// [`batch_run`] describes. Each applied pair records its own `Transfer`
    /// event. Conservation is preserved even by a partially applied batch.
    #[verifier::loop_isolation(false)]
    pub fn batch_transfer(&mut self, caller: u64, recipients: Vec<u64>, amounts: Vec<u128>) -> (r:
        Result<(), Error>)
        requires
            old(self).wf(),
        ensures
            final(self).wf(),
            r == Err::<(), Error>(Error::ContractPaused) <==> old(self).spec_paused(),
            !old(self).spec_paused() ==> (r == Err::<(), Error>(Error::InvalidBatchOperation)
                <==> recipients@.len() != amounts@.len()),
            (!old(self).spec_paused() && recipients@.len() == amounts@.len() && clamp_u128(
                amounts_total(amounts@),
            ) > old(self).spec_balance_of(caller)) ==> r == Err::<(), Error>(
                Error::InsufficientBalance,
            ) && *final(self) == *old(self),
            (old(self).spec_paused() || recipients@.len() != amounts@.len()) ==> *final(self)
                == *old(self),
            ({
                let run = batch_run(old(self).balances_map(), caller, recipients@, amounts@);
                (!old(self).spec_paused() && recipients@.len() == amounts@.len() && clamp_u128(
                    amounts_total(amounts@),
                ) <= old(self).spec_balance_of(caller)) ==> {
                    &&& r == (match run.2 {
                        Some(e) => Err::<(), Error>(e),
                        None => Ok::<(), Error>(()),
                    })
                    &&& forall|a: u64| final(self).spec_balance_of(a) == run.0[a]
                    &&& final(self).spec_events() == old(self).spec_events() + batch_events(
                        caller,
                        recipients@,
                        amounts@,
                        run.1,
                    )
                }
            }),
            final(self).spec_total_supply() == old(self).spec_total_supply(),
            final(self).same_admin_state(*old(self)),
            old(self).conserved() ==> final(self).conserved(),
    {
        if self.paused {
            return Err(Error::ContractPaused);
        }
        if recipients.len() != amounts.len() {
            return Err(Error::InvalidBatchOperation);
        }
        let n: usize = amounts.len();
        let mut total_amount: u128 = 0;
        let mut i: usize = 0;
        proof {
            assert(amounts@.take(0) =~= Seq::<u128>::empty());
        }
        while i < n
            invariant
                i <= n,
                self == old(self),
                total_amount == clamp_u128(amounts_total(amounts@.take(i as int))),
            decreases n - i,
        {
            proof {
                assert(amounts@.take(i as int + 1).drop_last() =~= amounts@.take(i as int));
                assert(amounts@.take(i as int + 1).last() == amounts@[i as int]);
                lemma_amounts_total_nonneg(amounts@.take(i as int));
            }
            total_amount = total_amount.saturating_add(amounts[i]);
            i = i + 1;
        }
        proof {
            assert(amounts@.take(n as int) =~= amounts@);
        }
        let caller_balance = self.balances.get(caller);
        if total_amount > caller_balance {
            return Err(Error::InsufficientBalance);
        }
        let mut j: usize = 0;
        proof {
            assert(recipients@.skip(0) =~= recipients@);
            assert(amounts@.skip(0) =~= amounts@);
            assert(batch_events(caller, recipients@, amounts@, 0) =~= Seq::<LedgerEvent>::empty());
            assert(old(self).spec_events() + batch_events(caller, recipients@, amounts@, 0) =~= old(
                self,
            ).spec_events());
        }
        while j < n
            invariant
                j <= n,
                self.wf(),
                ({
                    let run = batch_run(old(self).balances_map(), caller, recipients@, amounts@);
                    let sub = batch_run(
                        self.balances_map(),
                        caller,
                        recipients@.skip(j as int),
                        amounts@.skip(j as int),
                    );
                    run == (sub.0, j + sub.1, sub.2)
                }),
                self.spec_events() == old(self).spec_events() + batch_events(
                    caller,
                    recipients@,
                    amounts@,
                    j as int,
                ),
                self.spec_total_supply() == old(self).spec_total_supply(),
                self.same_admin_state(*old(self)),
                old(self).conserved() ==> self.conserved(),
            decreases n - j,
        {
            let ghost pre = *self;
            let ghost pre_map = self.balances_map();
            proof {
                assert(recipients@.skip(j as int)[0] == recipients@[j as int]);
                assert(amounts@.skip(j as int)[0] == amounts@[j as int]);
                assert(recipients@.skip(j as int).drop_first() =~= recipients@.skip(j as int + 1));
                assert(amounts@.skip(j as int).drop_first() =~= amounts@.skip(j as int + 1));
                assert(pre_map[caller] == self.spec_balance_of(caller));
            }
            let to = recipients[j];
            let amount = amounts[j];
            let step = self.transfer(caller, to, amount);
            match step {
                Result::Err(e) => {
                    proof {
                        assert(batch_run(
                            pre_map,
                            caller,
                            recipients@.skip(j as int),
                            amounts@.skip(j as int),
                        ) == (pre_map, 0int, Some(e)));
                        assert(forall|a: u64| self.spec_balance_of(a) == pre_map[a]);
                    }
                    return Err(e);
                },
                Result::Ok(_) => {
                    proof {
                        let applied = transfer_applied(
                            pre_map,
                            caller,
                            recipients@[j as int],
                            amounts@[j as int],
                        );
                        assert forall|a: u64| self.balances_map()[a] == applied[a] by {
                            assert(self.balances_map()[a] == self.spec_balance_of(a));
                            assert(pre_map[a] == pre.spec_balance_of(a));
                            assert(pre_map[caller] == pre.spec_balance_of(caller));
                        }
                        assert(self.balances_map() =~= applied);
                        assert(batch_events(caller, recipients@, amounts@, j as int + 1)
                            =~= batch_events(caller, recipients@, amounts@, j as int).push(
                            LedgerEvent::Transfer(
                                Transfer {
                                    from: caller,
                                    to: recipients@[j as int],
                                    amount: amounts@[j as int],
                                },
                            ),
                        ));
                        assert(self.spec_events() =~= old(self).spec_events() + batch_events(
                            caller,
                            recipients@,
                            amounts@,
                            j as int + 1,
                        ));
                    }
                },
            }
            j = j + 1;
        }
        proof {
            assert(recipients@.skip(n as int) =~= Seq::<u64>::empty());
            assert(forall|a: u64| self.balances_map()[a] == self.spec_balance_of(a));
        }
        Ok(())
    }
}

} // verus!
