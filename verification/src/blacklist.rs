//! The blacklist table: a mapping from account to a boolean status. An
//! absent account reads as not blacklisted. The ledger consults it in one
//! place only: a blacklisted account cannot be a mint recipient.

use vstd::prelude::*;

verus! {

/// One stored blacklist status.
#[derive(Clone, Copy, Debug, PartialEq, Eq)]
pub struct StatusEntry {
    pub account: u64,
    pub status: bool,
}

/// The status stored at the first entry for `account`, or `false` when there
/// is none.
pub open spec fn lookup(s: Seq<StatusEntry>, account: u64) -> bool
    decreases s.len(),
{
    if s.len() == 0 {
        false
    } else if s[0].account == account {
        s[0].status
    } else {
        lookup(s.drop_first(), account)
    }
}

/// No account occurs in two entries.
pub open spec fn distinct_accounts(s: Seq<StatusEntry>) -> bool {
    forall|i: int, j: int| 0 <= i < j < s.len() ==> s[i].account != s[j].account
}

proof fn lemma_distinct_drop_first(s: Seq<StatusEntry>)
    requires
        s.len() > 0,
        distinct_accounts(s),
    ensures
        distinct_accounts(s.drop_first()),
{
    assert forall|i: int, j: int|
        0 <= i < j < s.drop_first().len() implies s.drop_first()[i].account
        != s.drop_first()[j].account by {
        assert(s.drop_first()[i] == s[i + 1]);
        assert(s.drop_first()[j] == s[j + 1]);
    }
}

/// Overwriting the entry at index `i` (keeping its account) changes only
/// that account's reading.
proof fn lemma_lookup_update(s: Seq<StatusEntry>, i: int, e: StatusEntry, x: u64)
    requires
        0 <= i < s.len(),
        e.account == s[i].account,
        distinct_accounts(s),
    ensures
        lookup(s.update(i, e), x) == if x == e.account {
            e.status
        } else {
            lookup(s, x)
        },
    decreases s.len(),
{
    let t = s.update(i, e);
    if i == 0 {
        assert(t[0] == e);
        assert(t.drop_first() =~= s.drop_first());
    } else {
        assert(t[0] == s[0]);
        assert(s[0].account != s[i].account);
        assert(t.drop_first() =~= s.drop_first().update(i - 1, e));
        lemma_distinct_drop_first(s);
        assert(s.drop_first()[i - 1] == s[i]);
        lemma_lookup_update(s.drop_first(), i - 1, e, x);
    }
}

/// Appending an entry for a fresh account changes only that account's
/// reading.
proof fn lemma_lookup_push(s: Seq<StatusEntry>, e: StatusEntry, x: u64)
    requires
        forall|j: int| 0 <= j < s.len() ==> s[j].account != e.account,
    ensures
        lookup(s.push(e), x) == if x == e.account {
            e.status
        } else {
            lookup(s, x)
        },
    decreases s.len(),
{
    let t = s.push(e);
    if s.len() == 0 {
        assert(t[0] == e);
        assert(t.drop_first() =~= Seq::<StatusEntry>::empty());
        assert(lookup(Seq::<StatusEntry>::empty(), x) == false);
    } else {
        assert(t[0] == s[0]);
        assert(t.drop_first() =~= s.drop_first().push(e));
        assert forall|j: int|
            0 <= j < s.drop_first().len() implies s.drop_first()[j].account != e.account by {
            assert(s.drop_first()[j] == s[j + 1]);
        }
        lemma_lookup_push(s.drop_first(), e, x);
    }
}

/// A mapping from account to blacklist status; an absent account reads as
/// not blacklisted.
pub struct BlacklistTable {
    entries: Vec<StatusEntry>,
}

impl BlacklistTable {
    /// The status recorded for `account`.
    pub closed spec fn spec_get(self, account: u64) -> bool {
        lookup(self.entries@, account)
    }

    /// Each account has at most one entry.
    pub closed spec fn wf(self) -> bool {
        distinct_accounts(self.entries@)
    }

    /// An empty table: no account is blacklisted.
    pub fn new() -> (t: Self)
        ensures
            t.wf(),
            forall|a: u64| !t.spec_get(a),
    {
        let t = BlacklistTable { entries: Vec::new() };
        proof {
            assert(forall|a: u64| #[trigger] t.spec_get(a) == false);
        }
        t
    }

    /// Read the status of `account`; absence reads as `false`.
    #[verifier::loop_isolation(false)]
    pub fn get(&self, account: u64) -> (r: bool)
        ensures
            r == self.spec_get(account),
    {
        let s = Ghost(self.entries@);
        let n: usize = self.entries.len();
        let mut i: usize = 0;
        proof {
            assert(s@.skip(0) =~= s@);
        }
        while i < n
            invariant
                i <= n,
                lookup(s@, account) == lookup(s@.skip(i as int), account),
            decreases n - i,
        {
            proof {
                assert(s@.skip(i as int)[0] == s@[i as int]);
                assert(s@.skip(i as int).drop_first() =~= s@.skip(i as int + 1));
            }
            let e = self.entries[i];
            if e.account == account {
                return e.status;
            }
            i = i + 1;
        }
        proof {
            assert(s@.skip(n as int) =~= Seq::<StatusEntry>::empty());
            assert(lookup(Seq::<StatusEntry>::empty(), account) == false);
        }
        false
    }

    /// Record `status` for `account`, replacing any earlier entry.
    #[verifier::loop_isolation(false)]
    pub fn insert(&mut self, account: u64, status: bool)
        requires
            old(self).wf(),
        ensures
            final(self).wf(),
            final(self).spec_get(account) == status,
            forall|x: u64| x != account ==> final(self).spec_get(x) == old(self).spec_get(x),
    {
        let s0 = Ghost(self.entries@);
        let e = StatusEntry { account, status };
        let n: usize = self.entries.len();
        let mut i: usize = 0;
        while i < n
            invariant
                i <= n,
                self == old(self),
                forall|j: int| 0 <= j < i ==> s0@[j].account != account,
            decreases n - i,
        {
            if self.entries[i].account == account {
                self.entries[i] = e;
                proof {
                    assert(self.entries@ =~= s0@.update(i as int, e));
                    assert forall|x: u64| #[trigger]
                        lookup(self.entries@, x) == if x == account {
                            status
                        } else {
                            lookup(s0@, x)
                        } by {
                        lemma_lookup_update(s0@, i as int, e, x);
                    }
                    assert forall|p: int, q: int|
                        0 <= p < q < self.entries@.len() implies self.entries@[p].account
                        != self.entries@[q].account by {
                        assert(self.entries@[p].account == s0@[p].account);
                        assert(self.entries@[q].account == s0@[q].account);
                    }
                }
                return ;
            }
            i = i + 1;
        }
        self.entries.push(e);
        proof {
            assert forall|x: u64| #[trigger]
                lookup(self.entries@, x) == if x == account {
                    status
                } else {
                    lookup(s0@, x)
                } by {
                lemma_lookup_push(s0@, e, x);
            }
            assert forall|p: int, q: int|
                0 <= p < q < self.entries@.len() implies self.entries@[p].account
                != self.entries@[q].account by {
                if q < s0@.len() {
                    assert(self.entries@[p] == s0@[p]);
                    assert(self.entries@[q] == s0@[q]);
                } else {
                    assert(self.entries@[p] == s0@[p]);
                    assert(self.entries@[q] == e);
                }
            }
        }
    }
}

} // verus!
