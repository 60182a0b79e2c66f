//! The allowance table: a mapping from an (owner, spender) pair to the
//! amount the spender may still move out of the owner's balance by delegated
//! transfer. An absent pair reads as zero. No invariant ties allowances to
//! balances: an allowance may exceed the owner's actual balance.

use vstd::prelude::*;

verus! {

/// One stored allowance.
#[derive(Clone, Copy, Debug, PartialEq, Eq)]
pub struct AllowanceEntry {
    pub owner: u64,
    pub spender: u64,
    pub amount: u128,
}

/// The amount stored at the first entry for `(owner, spender)`, or zero when
/// there is none.
pub open spec fn lookup(s: Seq<AllowanceEntry>, owner: u64, spender: u64) -> u128
    decreases s.len(),
{
    if s.len() == 0 {
        0
    } else if s[0].owner == owner && s[0].spender == spender {
        s[0].amount
    } else {
        lookup(s.drop_first(), owner, spender)
    }
}

/// No (owner, spender) pair occurs in two entries.
pub open spec fn distinct_pairs(s: Seq<AllowanceEntry>) -> bool {
    forall|i: int, j: int|
        0 <= i < j < s.len() ==> !(s[i].owner == s[j].owner && s[i].spender == s[j].spender)
}

proof fn lemma_distinct_drop_first(s: Seq<AllowanceEntry>)
    requires
        s.len() > 0,
        distinct_pairs(s),
    ensures
        distinct_pairs(s.drop_first()),
{
    assert forall|i: int, j: int|
        0 <= i < j < s.drop_first().len() implies !(s.drop_first()[i].owner
        == s.drop_first()[j].owner && s.drop_first()[i].spender == s.drop_first()[j].spender) by {
        assert(s.drop_first()[i] == s[i + 1]);
        assert(s.drop_first()[j] == s[j + 1]);
    }
}

/// Overwriting the entry at index `i` (keeping its pair) changes only that
/// pair's reading.
proof fn lemma_lookup_update(s: Seq<AllowanceEntry>, i: int, e: AllowanceEntry, o: u64, p: u64)
    requires
        0 <= i < s.len(),
        e.owner == s[i].owner,
        e.spender == s[i].spender,
        distinct_pairs(s),
    ensures
        lookup(s.update(i, e), o, p) == if o == e.owner && p == e.spender {
            e.amount
        } else {
            lookup(s, o, p)
        },
    decreases s.len(),
{
    let t = s.update(i, e);
    if i == 0 {
        assert(t[0] == e);
        assert(t.drop_first() =~= s.drop_first());
    } else {
        assert(t[0] == s[0]);
        assert(!(s[0].owner == s[i].owner && s[0].spender == s[i].spender));
        assert(t.drop_first() =~= s.drop_first().update(i - 1, e));
        lemma_distinct_drop_first(s);
        assert(s.drop_first()[i - 1] == s[i]);
        lemma_lookup_update(s.drop_first(), i - 1, e, o, p);
    }
}

/// Appending an entry for a fresh pair changes only that pair's reading.
proof fn lemma_lookup_push(s: Seq<AllowanceEntry>, e: AllowanceEntry, o: u64, p: u64)
    requires
        forall|j: int|
            0 <= j < s.len() ==> !(s[j].owner == e.owner && s[j].spender == e.spender),
    ensures
        lookup(s.push(e), o, p) == if o == e.owner && p == e.spender {
            e.amount
        } else {
            lookup(s, o, p)
        },
    decreases s.len(),
{
    let t = s.push(e);
    if s.len() == 0 {
        assert(t[0] == e);
        assert(t.drop_first() =~= Seq::<AllowanceEntry>::empty());
        assert(lookup(Seq::<AllowanceEntry>::empty(), o, p) == 0);
    } else {
        assert(t[0] == s[0]);
        assert(t.drop_first() =~= s.drop_first().push(e));
        assert forall|j: int|
            0 <= j < s.drop_first().len() implies !(s.drop_first()[j].owner == e.owner
            && s.drop_first()[j].spender == e.spender) by {
            assert(s.drop_first()[j] == s[j + 1]);
        }
        lemma_lookup_push(s.drop_first(), e, o, p);
    }
}

/// A mapping from (owner, spender) to amount; an absent pair reads as zero.
pub struct AllowanceTable {
    entries: Vec<AllowanceEntry>,
}

impl AllowanceTable {
    /// The amount recorded for `(owner, spender)`.
    pub closed spec fn spec_get(self, owner: u64, spender: u64) -> u128 {
        lookup(self.entries@, owner, spender)
    }

    /// Each (owner, spender) pair has at most one entry.
    pub closed spec fn wf(self) -> bool {
        distinct_pairs(self.entries@)
    }

    /// An empty table: every pair reads as zero.
    pub fn new() -> (t: Self)
        ensures
            t.wf(),
            forall|o: u64, p: u64| t.spec_get(o, p) == 0,
    {
        let t = AllowanceTable { entries: Vec::new() };
        proof {
            assert(forall|o: u64, p: u64| #[trigger] t.spec_get(o, p) == 0);
        }
        t
    }

    /// Read the allowance of `(owner, spender)`; absence reads as zero.
    #[verifier::loop_isolation(false)]
    pub fn get(&self, owner: u64, spender: u64) -> (r: u128)
        ensures
            r == self.spec_get(owner, spender),
    {
        let s = Ghost(self.entries@);
        let n: usize = self.entries.len();
        let mut i: usize = 0;
        proof {
            assert(s@.skip(0) =~= s@);
        }
        while i < n
            invariant
                i <= n,
                lookup(s@, owner, spender) == lookup(s@.skip(i as int), owner, spender),
            decreases n - i,
        {
            proof {
                assert(s@.skip(i as int)[0] == s@[i as int]);
                assert(s@.skip(i as int).drop_first() =~= s@.skip(i as int + 1));
            }
            let e = self.entries[i];
            if e.owner == owner && e.spender == spender {
                return e.amount;
            }
            i = i + 1;
        }
        proof {
            assert(s@.skip(n as int) =~= Seq::<AllowanceEntry>::empty());
            assert(lookup(Seq::<AllowanceEntry>::empty(), owner, spender) == 0);
        }
        0
    }

    /// Record `amount` for `(owner, spender)`, replacing any earlier entry.
    #[verifier::loop_isolation(false)]
    pub fn insert(&mut self, owner: u64, spender: u64, amount: u128)
        requires
            old(self).wf(),
        ensures
            final(self).wf(),
            final(self).spec_get(owner, spender) == amount,
            forall|o: u64, p: u64|
                !(o == owner && p == spender) ==> final(self).spec_get(o, p) == old(
                    self,
                ).spec_get(o, p),
    {
        let s0 = Ghost(self.entries@);
        let e = AllowanceEntry { owner, spender, amount };
        let n: usize = self.entries.len();
        let mut i: usize = 0;
        while i < n
            invariant
                i <= n,
                self == old(self),
                forall|j: int|
                    0 <= j < i ==> !(s0@[j].owner == owner && s0@[j].spender == spender),
            decreases n - i,
        {
            let cur = self.entries[i];
            if cur.owner == owner && cur.spender == spender {
                self.entries[i] = e;
                proof {
                    assert(self.entries@ =~= s0@.update(i as int, e));
                    assert forall|o: u64, p: u64| #[trigger]
                        lookup(self.entries@, o, p) == if o == owner && p == spender {
                            amount
                        } else {
                            lookup(s0@, o, p)
                        } by {
                        lemma_lookup_update(s0@, i as int, e, o, p);
                    }
                    assert forall|q: int, r: int|
                        0 <= q < r < self.entries@.len() implies !(self.entries@[q].owner
                        == self.entries@[r].owner && self.entries@[q].spender
                        == self.entries@[r].spender) by {
                        assert(self.entries@[q].owner == s0@[q].owner);
                        assert(self.entries@[q].spender == s0@[q].spender);
                        assert(self.entries@[r].owner == s0@[r].owner);
                        assert(self.entries@[r].spender == s0@[r].spender);
                    }
                }
                return ;
            }
            i = i + 1;
        }
        self.entries.push(e);
        proof {
            assert forall|o: u64, p: u64| #[trigger]
                lookup(self.entries@, o, p) == if o == owner && p == spender {
                    amount
                } else {
                    lookup(s0@, o, p)
                } by {
                lemma_lookup_push(s0@, e, o, p);
            }
            assert forall|q: int, r: int|
                0 <= q < r < self.entries@.len() implies !(self.entries@[q].owner
                == self.entries@[r].owner && self.entries@[q].spender
                == self.entries@[r].spender) by {
                if r < s0@.len() {
                    assert(self.entries@[q] == s0@[q]);
                    assert(self.entries@[r] == s0@[r]);
                } else {
                    assert(self.entries@[q] == s0@[q]);
                    assert(self.entries@[r] == e);
                }
            }
        }
    }
}

} // verus!
