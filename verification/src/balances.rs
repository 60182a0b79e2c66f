//! The balance table: a mapping from account to amount, stored as a vector
//! of entries with pairwise-distinct accounts. An absent account reads as
//! zero. The table also tracks the mathematical sum of all stored amounts,
//! which the ledger's conservation invariant is stated over.

use vstd::prelude::*;

verus! {

/// One stored balance.
#[derive(Clone, Copy, Debug, PartialEq, Eq)]
pub struct BalanceEntry {
    pub account: u64,
    pub amount: u128,
}

/// The amount stored at the first entry for `account`, or zero when there is
/// none.
pub open spec fn lookup(s: Seq<BalanceEntry>, account: u64) -> u128
    decreases s.len(),
{
    if s.len() == 0 {
        0
    } else if s[0].account == account {
        s[0].amount
    } else {
        lookup(s.drop_first(), account)
    }
}

/// The mathematical sum of every stored amount.
pub open spec fn amount_sum(s: Seq<BalanceEntry>) -> int
    decreases s.len(),
{
    if s.len() == 0 {
        0
    } else {
        s[0].amount + amount_sum(s.drop_first())
    }
}

/// No account occurs in two entries.
pub open spec fn distinct_accounts(s: Seq<BalanceEntry>) -> bool {
    forall|i: int, j: int| 0 <= i < j < s.len() ==> s[i].account != s[j].account
}

proof fn lemma_distinct_drop_first(s: Seq<BalanceEntry>)
    requires
        s.len() > 0,
        distinct_accounts(s),
    ensures
        distinct_accounts(s.drop_first()),
{
    assert forall|i: int, j: int|
        0 <= i < j < s.drop_first().len() implies s.drop_first()[i].account
        != s.drop_first()[j].account by {
        assert(s.drop_first()[i] == s[i + 1]);
        assert(s.drop_first()[j] == s[j + 1]);
    }
}

proof fn lemma_sum_nonneg(s: Seq<BalanceEntry>)
    ensures
        amount_sum(s) >= 0,
    decreases s.len(),
{
    if s.len() > 0 {
        lemma_sum_nonneg(s.drop_first());
    }
}

/// One amount never exceeds the sum of all amounts.
proof fn lemma_lookup_le_sum(s: Seq<BalanceEntry>, account: u64)
    ensures
        lookup(s, account) <= amount_sum(s),
    decreases s.len(),
{
    if s.len() == 0 {
    } else if s[0].account == account {
        lemma_sum_nonneg(s.drop_first());
    } else {
        lemma_lookup_le_sum(s.drop_first(), account);
    }
}

/// Two distinct accounts' amounts never exceed the sum of all amounts
/// together.
proof fn lemma_lookup_pair_le_sum(s: Seq<BalanceEntry>, a: u64, b: u64)
    requires
        a != b,
    ensures
        lookup(s, a) + lookup(s, b) <= amount_sum(s),
    decreases s.len(),
{
    if s.len() == 0 {
    } else if s[0].account == a {
        lemma_lookup_le_sum(s.drop_first(), b);
    } else if s[0].account == b {
        lemma_lookup_le_sum(s.drop_first(), a);
    } else {
        lemma_lookup_pair_le_sum(s.drop_first(), a, b);
    }
}

/// With distinct accounts, the entry at index `i` is the one `lookup` finds.
proof fn lemma_lookup_at(s: Seq<BalanceEntry>, i: int)
    requires
        distinct_accounts(s),
        0 <= i < s.len(),
    ensures
        lookup(s, s[i].account) == s[i].amount,
    decreases s.len(),
{
    if i > 0 {
        lemma_distinct_drop_first(s);
        assert(s.drop_first()[i - 1] == s[i]);
        lemma_lookup_at(s.drop_first(), i - 1);
    }
}

/// An account with no entry reads as zero.
proof fn lemma_lookup_absent(s: Seq<BalanceEntry>, account: u64)
    requires
        forall|j: int| 0 <= j < s.len() ==> s[j].account != account,
    ensures
        lookup(s, account) == 0,
    decreases s.len(),
{
    if s.len() > 0 {
        assert forall|j: int|
            0 <= j < s.drop_first().len() implies s.drop_first()[j].account != account by {
            assert(s.drop_first()[j] == s[j + 1]);
        }
        lemma_lookup_absent(s.drop_first(), account);
    }
}

/// Overwriting the entry at index `i` (keeping its account) changes only that
/// account's reading.
proof fn lemma_lookup_update(s: Seq<BalanceEntry>, i: int, e: BalanceEntry, x: u64)
    requires
        0 <= i < s.len(),
        e.account == s[i].account,
        distinct_accounts(s),
    ensures
        lookup(s.update(i, e), x) == if x == e.account {
            e.amount
        } else {
            lookup(s, x)
        },
    decreases s.len(),
{
    let t = s.update(i, e);
    if i == 0 {
        assert(t[0] == e);
        assert(t.drop_first() =~= s.drop_first());
    } else {
        assert(t[0] == s[0]);
        assert(s[0].account != s[i].account);
        assert(t.drop_first() =~= s.drop_first().update(i - 1, e));
        lemma_distinct_drop_first(s);
        assert(s.drop_first()[i - 1] == s[i]);
        lemma_lookup_update(s.drop_first(), i - 1, e, x);
    }
}

/// Overwriting the entry at index `i` shifts the sum by the difference of the
/// amounts.
proof fn lemma_sum_update(s: Seq<BalanceEntry>, i: int, e: BalanceEntry)
    requires
        0 <= i < s.len(),
    ensures
        amount_sum(s.update(i, e)) == amount_sum(s) - s[i].amount + e.amount,
    decreases s.len(),
{
    let t = s.update(i, e);
    if i == 0 {
        assert(t.drop_first() =~= s.drop_first());
    } else {
        assert(t[0] == s[0]);
        assert(t.drop_first() =~= s.drop_first().update(i - 1, e));
        assert(s.drop_first()[i - 1] == s[i]);
        lemma_sum_update(s.drop_first(), i - 1, e);
    }
}

/// Appending an entry for a fresh account changes only that account's
/// reading.
proof fn lemma_lookup_push(s: Seq<BalanceEntry>, e: BalanceEntry, x: u64)
    requires
        forall|j: int| 0 <= j < s.len() ==> s[j].account != e.account,
    ensures
        lookup(s.push(e), x) == if x == e.account {
            e.amount
        } else {
            lookup(s, x)
        },
    decreases s.len(),
{
    let t = s.push(e);
    if s.len() == 0 {
        assert(t[0] == e);
        assert(t.drop_first() =~= Seq::<BalanceEntry>::empty());
        assert(lookup(Seq::<BalanceEntry>::empty(), x) == 0);
    } else {
        assert(t[0] == s[0]);
        assert(t.drop_first() =~= s.drop_first().push(e));
        assert forall|j: int|
            0 <= j < s.drop_first().len() implies s.drop_first()[j].account != e.account by {
            assert(s.drop_first()[j] == s[j + 1]);
        }
        lemma_lookup_push(s.drop_first(), e, x);
    }
}

/// Appending an entry adds its amount to the sum.
proof fn lemma_sum_push(s: Seq<BalanceEntry>, e: BalanceEntry)
    ensures
        amount_sum(s.push(e)) == amount_sum(s) + e.amount,
    decreases s.len(),
{
    let t = s.push(e);
    if s.len() == 0 {
        assert(t.drop_first() =~= Seq::<BalanceEntry>::empty());
        assert(amount_sum(Seq::<BalanceEntry>::empty()) == 0);
    } else {
        assert(t[0] == s[0]);
        assert(t.drop_first() =~= s.drop_first().push(e));
        lemma_sum_push(s.drop_first(), e);
    }
}

/// A mapping from account to amount; an absent account reads as zero.
pub struct BalanceTable {
    entries: Vec<BalanceEntry>,
}

impl BalanceTable {
    /// The amount recorded for `account`.
    pub closed spec fn spec_get(self, account: u64) -> u128 {
        lookup(self.entries@, account)
    }

    /// The mathematical sum of every recorded amount. It can exceed
    /// `u128::MAX`: it is the reference value the ledger's conservation
    /// invariant compares the total supply against.
    pub closed spec fn total(self) -> int {
        amount_sum(self.entries@)
    }

    /// Each account has at most one entry.
    pub closed spec fn wf(self) -> bool {
        distinct_accounts(self.entries@)
    }

    /// No single balance exceeds the sum of all balances.
    pub proof fn lemma_get_le_total(self, account: u64)
        ensures
            0 <= self.spec_get(account) <= self.total(),
    {
        lemma_lookup_le_sum(self.entries@, account);
    }

    /// No two distinct balances together exceed the sum of all balances.
    pub proof fn lemma_get_pair_le_total(self, a: u64, b: u64)
        requires
            a != b,
        ensures
            self.spec_get(a) + self.spec_get(b) <= self.total(),
    {
        lemma_lookup_pair_le_sum(self.entries@, a, b);
    }

    /// An empty table: every account reads as zero.
    pub fn new() -> (t: Self)
        ensures
            t.wf(),
            forall|a: u64| t.spec_get(a) == 0,
            t.total() == 0,
    {
        let t = BalanceTable { entries: Vec::new() };
        proof {
            assert(forall|a: u64| #[trigger] t.spec_get(a) == 0);
        }
        t
    }

    /// Read the balance of `account`; absence reads as zero.
    #[verifier::loop_isolation(false)]
    pub fn get(&self, account: u64) -> (r: u128)
        ensures
            r == self.spec_get(account),
    {
        let s = Ghost(self.entries@);
        let n: usize = self.entries.len();
        let mut i: usize = 0;
        proof {
            assert(s@.skip(0) =~= s@);
        }
        while i < n
            invariant
                i <= n,
                lookup(s@, account) == lookup(s@.skip(i as int), account),
            decreases n - i,
        {
            proof {
                assert(s@.skip(i as int)[0] == s@[i as int]);
                assert(s@.skip(i as int).drop_first() =~= s@.skip(i as int + 1));
            }
            let e = self.entries[i];
            if e.account == account {
                return e.amount;
            }
            i = i + 1;
        }
        proof {
            assert(s@.skip(n as int) =~= Seq::<BalanceEntry>::empty());
            assert(lookup(Seq::<BalanceEntry>::empty(), account) == 0);
        }
        0
    }

    /// Record `amount` for `account`, replacing any earlier entry.
    #[verifier::loop_isolation(false)]
    pub fn insert(&mut self, account: u64, amount: u128)
        requires
            old(self).wf(),
        ensures
            final(self).wf(),
            final(self).spec_get(account) == amount,
            forall|x: u64| x != account ==> final(self).spec_get(x) == old(self).spec_get(x),
            final(self).total() == old(self).total() - old(self).spec_get(account) + amount,
    {
        let s0 = Ghost(self.entries@);
        let e = BalanceEntry { account, amount };
        let n: usize = self.entries.len();
        let mut i: usize = 0;
        while i < n
            invariant
                i <= n,
                self == old(self),
                forall|j: int| 0 <= j < i ==> s0@[j].account != account,
            decreases n - i,
        {
            if self.entries[i].account == account {
                self.entries[i] = e;
                proof {
                    assert(self.entries@ =~= s0@.update(i as int, e));
                    assert forall|x: u64| #[trigger]
                        lookup(self.entries@, x) == if x == account {
                            amount
                        } else {
                            lookup(s0@, x)
                        } by {
                        lemma_lookup_update(s0@, i as int, e, x);
                    }
                    lemma_sum_update(s0@, i as int, e);
                    lemma_lookup_at(s0@, i as int);
                    assert forall|p: int, q: int|
                        0 <= p < q < self.entries@.len() implies self.entries@[p].account
                        != self.entries@[q].account by {
                        assert(self.entries@[p].account == s0@[p].account);
                        assert(self.entries@[q].account == s0@[q].account);
                    }
                }
                return ;
            }
            i = i + 1;
        }
        self.entries.push(e);
        proof {
            assert forall|x: u64| #[trigger]
                lookup(self.entries@, x) == if x == account {
                    amount
                } else {
                    lookup(s0@, x)
                } by {
                lemma_lookup_push(s0@, e, x);
            }
            lemma_sum_push(s0@, e);
            lemma_lookup_absent(s0@, account);
            assert forall|p: int, q: int|
                0 <= p < q < self.entries@.len() implies self.entries@[p].account
                != self.entries@[q].account by {
                if q < s0@.len() {
                    assert(self.entries@[p] == s0@[p]);
                    assert(self.entries@[q] == s0@[q]);
                } else {
                    assert(self.entries@[p] == s0@[p]);
                    assert(self.entries@[q] == e);
                }
            }
        }
    }
}

} // verus!
