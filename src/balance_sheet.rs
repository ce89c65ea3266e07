//! The balance sheet: deposited collateral per participant.
//!
//! Entries are created on the first deposit or credit and never removed. The
//! sum of all balances never exceeds the largest amount, since it is backed by
//! what the engine holds on the ledger. Balances are stored in a wider type so
//! that crediting the receivers of a settlement before debiting its senders
//! cannot overflow in between.
use vstd::prelude::*;
use crate::amounts::max_amount;
use crate::types::{AccountAddress, Amount};

verus! {

#[derive(Clone, Copy, Debug)]
struct BalanceEntry {
    address: AccountAddress,
    amount: u128,
}

/// A mapping from participant to deposited amount.
#[derive(Clone, Debug)]
pub struct BalanceSheet {
    entries: Vec<BalanceEntry>,
}

/// The balance of `who` in the map `m`; an absent participant has balance zero.
pub open spec fn balance_in(m: Map<Seq<u8>, int>, who: Seq<u8>) -> int {
    if m.dom().contains(who) {
        m[who]
    } else {
        0
    }
}

spec fn holds(s: Seq<BalanceEntry>, k: Seq<u8>) -> bool
    decreases s.len(),
{
    if s.len() == 0 {
        false
    } else {
        holds(s.drop_last(), k) || s.last().address@ == k
    }
}

spec fn value_of(s: Seq<BalanceEntry>, k: Seq<u8>) -> int
    decreases s.len(),
{
    if s.len() == 0 {
        0
    } else {
        value_of(s.drop_last(), k) + if s.last().address@ == k {
            s.last().amount as int
        } else {
            0
        }
    }
}

spec fn sum_of(s: Seq<BalanceEntry>) -> int
    decreases s.len(),
{
    if s.len() == 0 {
        0
    } else {
        sum_of(s.drop_last()) + s.last().amount as int
    }
}

spec fn distinct(s: Seq<BalanceEntry>) -> bool {
    forall|i: int, j: int|
        0 <= i < s.len() && 0 <= j < s.len() && i != j ==> s[i].address@ != s[j].address@
}

proof fn lemma_holds_index(s: Seq<BalanceEntry>, k: Seq<u8>)
    ensures
        holds(s, k) <==> exists|i: int| 0 <= i < s.len() && s[i].address@ == k,
    decreases s.len(),
{
    if s.len() > 0 {
        lemma_holds_index(s.drop_last(), k);
        if holds(s.drop_last(), k) {
            let i = choose|i: int| 0 <= i < s.len() - 1 && s.drop_last()[i].address@ == k;
            assert(s[i].address@ == k);
        }
        if exists|i: int| 0 <= i < s.len() && s[i].address@ == k {
            let i = choose|i: int| 0 <= i < s.len() && s[i].address@ == k;
            if i < s.len() - 1 {
                assert(s.drop_last()[i].address@ == k);
            }
        }
    }
}

proof fn lemma_value_absent(s: Seq<BalanceEntry>, k: Seq<u8>)
    requires
        !holds(s, k),
    ensures
        value_of(s, k) == 0,
    decreases s.len(),
{
    if s.len() > 0 {
        lemma_value_absent(s.drop_last(), k);
    }
}

proof fn lemma_value_le_sum(s: Seq<BalanceEntry>, k: Seq<u8>)
    ensures
        0 <= value_of(s, k) <= sum_of(s),
    decreases s.len(),
{
    if s.len() > 0 {
        lemma_value_le_sum(s.drop_last(), k);
    }
}

proof fn lemma_update(s: Seq<BalanceEntry>, i: int, e: BalanceEntry, k: Seq<u8>)
    requires
        0 <= i < s.len(),
        e.address@ == s[i].address@,
    ensures
        holds(s.update(i, e), k) == holds(s, k),
        value_of(s.update(i, e), k) == value_of(s, k) + if k == e.address@ {
            e.amount - s[i].amount
        } else {
            0
        },
        sum_of(s.update(i, e)) == sum_of(s) - s[i].amount + e.amount,
    decreases s.len(),
{
    let t = s.update(i, e);
    if i == s.len() - 1 {
        assert(t.drop_last() =~= s.drop_last());
    } else {
        lemma_update(s.drop_last(), i, e, k);
        assert(t.drop_last() =~= s.drop_last().update(i, e));
    }
}

proof fn lemma_push(s: Seq<BalanceEntry>, e: BalanceEntry)
    ensures
        s.push(e).drop_last() == s,
        s.push(e).last() == e,
{
    assert(s.push(e).drop_last() =~= s);
}

impl View for BalanceSheet {
    type V = Map<Seq<u8>, int>;

    closed spec fn view(&self) -> Map<Seq<u8>, int> {
        Map::new(|k: Seq<u8>| holds(self.entries@, k), |k: Seq<u8>| value_of(self.entries@, k))
    }
}

impl BalanceSheet {
    /// The sum of all balances.
    pub closed spec fn total(&self) -> int {
        sum_of(self.entries@)
    }

    /// Each participant has at most one entry, and the balances sum to at most
    /// the largest amount.
    pub open spec fn wf(&self) -> bool {
        self.keys_distinct() && self.total() <= max_amount()
    }

    /// Each participant has at most one entry.
    pub closed spec fn keys_distinct(&self) -> bool {
        distinct(self.entries@)
    }

    /// In a well-formed sheet every balance lies between zero and the total,
    /// and the total is at most the largest amount.
    pub proof fn lemma_bounds(&self)
        requires
            self.wf(),
        ensures
            self.total() <= max_amount(),
            forall|k: Seq<u8>| 0 <= #[trigger] balance_in(self@, k) <= self.total(),
    {
        assert forall|k: Seq<u8>| 0 <= #[trigger] balance_in(self@, k) <= self.total() by {
            lemma_value_le_sum(self.entries@, k);
        }
    }

    /// An empty balance sheet.
    pub fn new() -> (r: BalanceSheet)
        ensures
            r.wf(),
            r@ == Map::<Seq<u8>, int>::empty(),
            r.total() == 0,
    {
        let r = BalanceSheet { entries: Vec::new() };
        assert(r@ =~= Map::<Seq<u8>, int>::empty());
        r
    }

    fn find(&self, who: &AccountAddress) -> (r: Option<usize>)
        requires
            self.keys_distinct(),
        ensures
            match r {
                Some(i) => i < self.entries@.len() && self.entries@[i as int].address@ == who@
                    && self@.dom().contains(who@) && self@[who@] == self.entries@[i as int].amount,
                None => !self@.dom().contains(who@) && balance_in(self@, who@) == 0,
            },
    {
        let mut i: usize = 0;
        while i < self.entries.len()
            invariant
                0 <= i <= self.entries@.len(),
                self.keys_distinct(),
                forall|j: int| 0 <= j < i ==> self.entries@[j].address@ != who@,
            decreases self.entries@.len() - i,
        {
            if self.entries[i].address == *who {
                proof {
                    self.lemma_value_at(i as int);
                    lemma_holds_index(self.entries@, who@);
                }
                return Some(i);
            }
            i = i + 1;
        }
        proof {
            lemma_holds_index(self.entries@, who@);
            lemma_value_absent(self.entries@, who@);
        }
        None
    }

    proof fn lemma_value_at(&self, i: int)
        requires
            self.keys_distinct(),
            0 <= i < self.entries@.len(),
        ensures
            value_of(self.entries@, self.entries@[i].address@) == self.entries@[i].amount,
    {
        lemma_value_at_seq(self.entries@, i);
    }

    /// The balance of `who`, or `None` where the sheet has no entry for it.
    pub fn get(&self, who: &AccountAddress) -> (r: Option<Amount>)
        requires
            self.wf(),
        ensures
            r == if self@.dom().contains(who@) {
                Some(self@[who@] as Amount)
            } else {
                None::<Amount>
            },
            r matches Some(v) ==> v == self@[who@],
    {
        proof {
            self.lemma_bounds();
        }
        match self.find(who) {
            Some(i) => {
                proof {
                    assert(balance_in(self@, who@) == self@[who@]);
                }
                Some(self.entries[i].amount as Amount)
            },
            None => None,
        }
    }

    /// The balance of `who`; zero where the sheet has no entry for it.
    pub fn balance_of(&self, who: &AccountAddress) -> (r: Amount)
        requires
            self.wf(),
        ensures
            r == balance_in(self@, who@),
    {
        match self.get(who) {
            Some(v) => v,
            None => 0,
        }
    }

    /// The sum of all balances.
    pub fn total_amount(&self) -> (r: Amount)
        requires
            self.wf(),
        ensures
            r == self.total(),
    {
        let mut acc: u128 = 0;
        let mut i: usize = 0;
        while i < self.entries.len()
            invariant
                0 <= i <= self.entries@.len(),
                self.wf(),
                acc == sum_of(self.entries@.take(i as int)),
            decreases self.entries@.len() - i,
        {
            proof {
                assert(self.entries@.take(i + 1).drop_last() =~= self.entries@.take(i as int));
                lemma_sum_prefix(self.entries@, i + 1);
            }
            acc = acc + self.entries[i].amount;
            i = i + 1;
        }
        assert(self.entries@.take(i as int) =~= self.entries@);
        acc as Amount
    }

    /// Whether the sheet has no entries.
    pub fn is_empty(&self) -> (r: bool)
        ensures
            r == (self@ == Map::<Seq<u8>, int>::empty()),
    {
        if self.entries.len() == 0 {
            assert(self@ =~= Map::<Seq<u8>, int>::empty());
            true
        } else {
            proof {
                lemma_holds_index(self.entries@, self.entries@[0].address@);
                assert(self@.dom().contains(self.entries@[0].address@));
            }
            false
        }
    }

    /// Adds `d` to the balance of `who`, creating its entry if absent.
    pub(crate) fn credit(&mut self, who: &AccountAddress, d: u128)
        requires
            old(self).keys_distinct(),
            old(self).total() + d <= u128::MAX,
        ensures
            final(self).keys_distinct(),
            final(self)@ == old(self)@.insert(who@, balance_in(old(self)@, who@) + d),
            final(self).total() == old(self).total() + d,
    {
        match self.find(who) {
            Some(i) => {
                proof {
                    lemma_value_le_sum(self.entries@, who@);
                }
                let e = BalanceEntry { address: *who, amount: self.entries[i].amount + d };
                proof {
                    lemma_update(self.entries@, i as int, e, who@);
                }
                let ghost before = self.entries@;
                self.entries.set(i, e);
                proof {
                    assert forall|k: Seq<u8>|
                        holds(self.entries@, k) == holds(before, k) && value_of(self.entries@, k)
                            == value_of(before, k) + if k == who@ {
                            d as int
                        } else {
                            0
                        } by {
                        lemma_update(before, i as int, e, k);
                    }
                    assert(self@ =~= old(self)@.insert(who@, balance_in(old(self)@, who@) + d));
                }
            },
            None => {
                let e = BalanceEntry { address: *who, amount: d };
                let ghost before = self.entries@;
                self.entries.push(e);
                proof {
                    lemma_push(before, e);
                    lemma_holds_index(before, who@);
                    lemma_value_absent(before, who@);
                    assert(self@ =~= old(self)@.insert(who@, balance_in(old(self)@, who@) + d));
                }
            },
        }
    }

    /// Subtracts `d` from the balance of `who`, creating its entry if absent.
    pub(crate) fn debit(&mut self, who: &AccountAddress, d: u128)
        requires
            old(self).keys_distinct(),
            balance_in(old(self)@, who@) >= d,
        ensures
            final(self).keys_distinct(),
            final(self)@ == old(self)@.insert(who@, balance_in(old(self)@, who@) - d),
            final(self).total() == old(self).total() - d,
    {
        match self.find(who) {
            Some(i) => {
                let e = BalanceEntry { address: *who, amount: self.entries[i].amount - d };
                let ghost before = self.entries@;
                self.entries.set(i, e);
                proof {
                    lemma_update(before, i as int, e, who@);
                    assert forall|k: Seq<u8>|
                        holds(self.entries@, k) == holds(before, k) && value_of(self.entries@, k)
                            == value_of(before, k) - if k == who@ {
                            d as int
                        } else {
                            0
                        } by {
                        lemma_update(before, i as int, e, k);
                    }
                    assert(self@ =~= old(self)@.insert(who@, balance_in(old(self)@, who@) - d));
                }
            },
            None => {
                let e = BalanceEntry { address: *who, amount: 0 };
                let ghost before = self.entries@;
                self.entries.push(e);
                proof {
                    lemma_push(before, e);
                    lemma_holds_index(before, who@);
                    lemma_value_absent(before, who@);
                    assert(self@ =~= old(self)@.insert(who@, balance_in(old(self)@, who@) - d));
                }
            },
        }
    }
}

proof fn lemma_sum_prefix(s: Seq<BalanceEntry>, i: int)
    requires
        0 <= i <= s.len(),
    ensures
        sum_of(s.take(i)) <= sum_of(s),
    decreases s.len() - i,
{
    if i < s.len() {
        lemma_sum_prefix(s, i + 1);
        assert(s.take(i + 1).drop_last() =~= s.take(i));
    } else {
        assert(s.take(i) =~= s);
    }
}

proof fn lemma_value_at_seq(s: Seq<BalanceEntry>, i: int)
    requires
        distinct(s),
        0 <= i < s.len(),
    ensures
        value_of(s, s[i].address@) == s[i].amount,
    decreases s.len(),
{
    let k = s[i].address@;
    if i == s.len() - 1 {
        let t = s.drop_last();
        assert(!holds(t, k)) by {
            lemma_holds_index(t, k);
        }
        lemma_value_absent(t, k);
    } else {
        assert(distinct(s.drop_last()));
        lemma_value_at_seq(s.drop_last(), i);
        assert(s.last().address@ != k);
    }
}

} // verus!
