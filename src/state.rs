//! The engine's state and its operations.
use vstd::prelude::*;
use crate::amounts::{is_conserving, is_transfer_valid, max_amount};
use crate::balance_sheet::{balance_in, BalanceSheet};
use crate::engine::{
    apply_settlement, execute_all, get_liabilities, is_settlement_valid, liabilities, pending,
};
use crate::types::{
    AccountAddress, Address, Amount, ContractConfig, Payout, ReceiveError, Settlement,
    SettlementID, Timestamp, Transfer,
};

verus! {

/// What the state holds, as mathematical values.
pub struct StateModel {
    /// The configuration fixed at creation.
    pub config: ContractConfig,
    /// The identifier the next settlement will get.
    pub next_id: SettlementID,
    /// The pending settlements, in insertion order.
    pub queue: Seq<Settlement>,
    /// The balance of each participant that has an entry.
    pub balances: Map<Seq<u8>, int>,
    /// The sum of all balances.
    pub total: int,
}

/// The identifiers of `q` increase strictly along the queue.
pub open spec fn ids_increasing(q: Seq<Settlement>) -> bool {
    forall|i: int, j: int| 0 <= i < j < q.len() ==> q[i].id < q[j].id
}

/// Every settlement of `q` has an identifier below `next_id` and a
/// value-conserving transfer.
pub open spec fn queue_entries_ok(q: Seq<Settlement>, next_id: SettlementID) -> bool {
    forall|i: int|
        #![trigger q[i]]
        0 <= i < q.len() ==> q[i].id < next_id && is_conserving(q[i].transfer)
}

/// Whether the caller is the given account.
pub open spec fn is_account(sender: Address, account: AccountAddress) -> bool {
    sender is Account && sender->Account_0@ == account@
}

/// Whether a settlement survives a veto of `id` at time `now`.
pub open spec fn survives_veto(s: Settlement, id: SettlementID, now: Timestamp) -> bool {
    !(s.id == id && now < s.finality_time)
}

/// The queue after the judge vetoes `id` at time `now`.
pub open spec fn vetoed(q: Seq<Settlement>, id: SettlementID, now: Timestamp) -> Seq<Settlement> {
    q.filter(|s: Settlement| survives_veto(s, id, now))
}

/// What is currently safe to withdraw: the balance less all liabilities, or
/// zero where they exceed it.
pub open spec fn available(m: Map<Seq<u8>, int>, q: Seq<Settlement>, who: Seq<u8>) -> int {
    if balance_in(m, who) > liabilities(q, who) {
        balance_in(m, who) - liabilities(q, who)
    } else {
        0
    }
}

/// The state of the engine: its configuration, the identifier counter, the
/// settlement queue in insertion order, and the balance sheet.
#[derive(Clone, Debug)]
pub struct State {
    config: ContractConfig,
    next_id: SettlementID,
    settlements: Vec<Settlement>,
    balance_sheet: BalanceSheet,
}

impl View for State {
    type V = StateModel;

    closed spec fn view(&self) -> StateModel {
        StateModel {
            config: self.config,
            next_id: self.next_id,
            queue: self.settlements@,
            balances: self.balance_sheet@,
            total: self.balance_sheet.total(),
        }
    }
}

impl State {
    /// The balance sheet's entries are keyed by distinct participants.
    pub closed spec fn sheet_ok(&self) -> bool {
        self.balance_sheet.keys_distinct()
    }

    /// The state's invariant: balances total at most the largest amount, the
    /// queue respects its bound, identifiers increase along the queue and stay
    /// below the counter, and every queued transfer conserves value.
    pub open spec fn wf(&self) -> bool {
        &&& self.sheet_ok()
        &&& self@.total <= max_amount()
        &&& self@.queue.len() <= self@.config.settlement_limit
        &&& ids_increasing(self@.queue)
        &&& queue_entries_ok(self@.queue, self@.next_id)
    }

    /// In a well-formed state every balance lies between zero and the total.
    pub proof fn lemma_balance_bounds(&self)
        requires
            self.wf(),
        ensures
            forall|k: Seq<u8>| 0 <= #[trigger] balance_in(self@.balances, k) <= self@.total,
    {
        self.balance_sheet.lemma_bounds();
    }

    /// A new engine with the given configuration, an empty queue and an empty
    /// balance sheet.
    pub fn new(config: ContractConfig) -> (r: State)
        ensures
            r.wf(),
            r@.config == config,
            r@.next_id == 0,
            r@.queue == Seq::<Settlement>::empty(),
            r@.balances == Map::<Seq<u8>, int>::empty(),
            r@.total == 0,
    {
        let r = State {
            config,
            next_id: 0,
            settlements: Vec::new(),
            balance_sheet: BalanceSheet::new(),
        };
        assert(r@.queue =~= Seq::<Settlement>::empty());
        r
    }

    /// Credits `amount` to the caller, which must be an individual account.
    /// The ledger holds what was deposited, so the total stays within an amount.
    pub fn deposit(&mut self, sender: &Address, amount: Amount) -> (r: Result<(), ReceiveError>)
        requires
            old(self).wf(),
            old(self)@.total + amount <= max_amount(),
        ensures
            final(self).wf(),
            match *sender {
                Address::Contract(_) => r == Err::<(), ReceiveError>(ReceiveError::ContractSender)
                    && final(self)@ == old(self)@,
                Address::Account(a) => {
                    &&& r == Ok::<(), ReceiveError>(())
                    &&& final(self)@.balances == old(self)@.balances.insert(
                        a@,
                        balance_in(old(self)@.balances, a@) + amount,
                    )
                    &&& final(self)@.total == old(self)@.total + amount
                    &&& final(self)@.queue == old(self)@.queue
                    &&& final(self)@.config == old(self)@.config
                    &&& final(self)@.next_id == old(self)@.next_id
                },
            },
    {
        let account = match sender.account() {
            Ok(a) => a,
            Err(e) => return Err(e),
        };
        self.balance_sheet.credit(&account, amount as u128);
        Ok(())
    }

    /// Debits `payout` from the caller, an individual account, if its balance
    /// covers the payout and every amount it sends in any pending settlement.
    /// On success the returned payment is due to the caller; should the ledger
    /// refuse it, the whole withdrawal must be undone.
    pub fn withdraw(&mut self, sender: &Address, payout: Amount) -> (r: Result<
        Payout,
        ReceiveError,
    >)
        requires
            old(self).wf(),
        ensures
            final(self).wf(),
            match *sender {
                Address::Contract(_) => r == Err::<Payout, ReceiveError>(
                    ReceiveError::ContractSender,
                ) && final(self)@ == old(self)@,
                Address::Account(a) => if payout == 0 {
                    r == Err::<Payout, ReceiveError>(ReceiveError::ZeroWithdrawal) && final(self)@
                        == old(self)@
                } else if balance_in(old(self)@.balances, a@) < liabilities(
                    old(self)@.queue,
                    a@,
                ) + payout {
                    r == Err::<Payout, ReceiveError>(ReceiveError::InsufficientFunds)
                        && final(self)@ == old(self)@
                } else {
                    &&& r == Ok::<Payout, ReceiveError>(Payout { receiver: a, amount: payout })
                    &&& final(self)@.balances == old(self)@.balances.insert(
                        a@,
                        balance_in(old(self)@.balances, a@) - payout,
                    )
                    &&& final(self)@.total == old(self)@.total - payout
                    &&& final(self)@.queue == old(self)@.queue
                    &&& final(self)@.config == old(self)@.config
                    &&& final(self)@.next_id == old(self)@.next_id
                },
            },
    {
        let account = match sender.account() {
            Ok(a) => a,
            Err(e) => return Err(e),
        };
        if payout == 0 {
            return Err(ReceiveError::ZeroWithdrawal);
        }
        let liabilities = get_liabilities(&self.settlements, &account);
        let balance = match self.balance_sheet.get(&account) {
            Some(b) => b,
            None => return Err(ReceiveError::InsufficientFunds),
        };
        if (balance as u128) < (liabilities as u128) + (payout as u128) {
            return Err(ReceiveError::InsufficientFunds);
        }
        proof {
            self.balance_sheet.lemma_bounds();
        }
        self.balance_sheet.debit(&account, payout as u128);
        Ok(Payout { receiver: account, amount: payout })
    }

    /// Whether the caller may propose a settlement now: it must be the
    /// validator, and the queue must have room.
    pub fn admit_settlement(&self, sender: &Address) -> (r: Result<(), ReceiveError>)
        ensures
            if !is_account(*sender, self@.config.validator) {
                r == Err::<(), ReceiveError>(ReceiveError::NotAValidator)
            } else if self@.queue.len() >= self@.config.settlement_limit {
                r == Err::<(), ReceiveError>(ReceiveError::SettlementQueueFull)
            } else {
                r == Ok::<(), ReceiveError>(())
            },
    {
        if !sender.matches_account(&self.config.validator) {
            return Err(ReceiveError::NotAValidator);
        }
        if self.settlements.len() >= self.config.settlement_limit as usize {
            return Err(ReceiveError::SettlementQueueFull);
        }
        Ok(())
    }

    /// Whether the caller is the judge.
    pub fn authorize_judge(&self, sender: &Address) -> (r: Result<(), ReceiveError>)
        ensures
            if !is_account(*sender, self@.config.judge) {
                r == Err::<(), ReceiveError>(ReceiveError::NotAJudge)
            } else {
                r == Ok::<(), ReceiveError>(())
            },
    {
        if !sender.matches_account(&self.config.judge) {
            return Err(ReceiveError::NotAJudge);
        }
        Ok(())
    }

    /// Appends a settlement of `transfer` to the queue, final at `now` plus
    /// the configured time to finality. Only the validator may call this.
    /// Whether the balances can pay for it is checked only at execution.
    pub fn add_settlement(&mut self, sender: &Address, transfer: Transfer, now: Timestamp) -> (r:
        Result<(), ReceiveError>)
        requires
            old(self).wf(),
        ensures
            final(self).wf(),
            final(self)@.config == old(self)@.config,
            final(self)@.balances == old(self)@.balances,
            final(self)@.total == old(self)@.total,
            if !is_account(*sender, old(self)@.config.validator) {
                r == Err::<(), ReceiveError>(ReceiveError::NotAValidator) && final(self)@
                    == old(self)@
            } else if old(self)@.queue.len() >= old(self)@.config.settlement_limit {
                r == Err::<(), ReceiveError>(ReceiveError::SettlementQueueFull) && final(self)@
                    == old(self)@
            } else if !is_conserving(transfer) {
                r == Err::<(), ReceiveError>(ReceiveError::InvalidTransfer) && final(self)@
                    == old(self)@
            } else if now + old(self)@.config.time_to_finality > u64::MAX {
                r == Err::<(), ReceiveError>(ReceiveError::TimeOverflow) && final(self)@
                    == old(self)@
            } else if old(self)@.next_id == u64::MAX {
                r == Err::<(), ReceiveError>(ReceiveError::CounterOverflow) && final(self)@
                    == old(self)@
            } else {
                &&& r == Ok::<(), ReceiveError>(())
                &&& final(self)@.queue == old(self)@.queue.push(
                    Settlement {
                        id: old(self)@.next_id,
                        transfer,
                        finality_time: (now + old(self)@.config.time_to_finality) as Timestamp,
                    },
                )
                &&& final(self)@.next_id == old(self)@.next_id + 1
            },
    {
        match self.admit_settlement(sender) {
            Ok(()) => {},
            Err(e) => return Err(e),
        }
        if !is_transfer_valid(&transfer) {
            return Err(ReceiveError::InvalidTransfer);
        }
        let id = self.next_id;
        let finality_time = match now.checked_add(self.config.time_to_finality) {
            Some(t) => t,
            None => return Err(ReceiveError::TimeOverflow),
        };
        let next_id = match id.checked_add(1) {
            Some(n) => n,
            None => return Err(ReceiveError::CounterOverflow),
        };
        let settlement = Settlement { id, transfer, finality_time };
        self.next_id = next_id;
        self.settlements.push(settlement);
        Ok(())
    }

    /// Removes from the queue every settlement with identifier `id` whose
    /// finality time has not yet come. Only the judge may call this; vetoing
    /// an absent or already final settlement succeeds and changes nothing.
    pub fn veto(&mut self, sender: &Address, id: SettlementID, now: Timestamp) -> (r: Result<
        (),
        ReceiveError,
    >)
        requires
            old(self).wf(),
        ensures
            final(self).wf(),
            if !is_account(*sender, old(self)@.config.judge) {
                r == Err::<(), ReceiveError>(ReceiveError::NotAJudge) && final(self)@
                    == old(self)@
            } else {
                &&& r == Ok::<(), ReceiveError>(())
                &&& final(self)@.queue == vetoed(old(self)@.queue, id, now)
                &&& final(self)@.balances == old(self)@.balances
                &&& final(self)@.total == old(self)@.total
                &&& final(self)@.config == old(self)@.config
                &&& final(self)@.next_id == old(self)@.next_id
            },
    {
        match self.authorize_judge(sender) {
            Ok(()) => {},
            Err(e) => return Err(e),
        }
        let mut taken: Vec<Settlement> = Vec::new();
        std::mem::swap(&mut self.settlements, &mut taken);
        self.settlements = retain_settlements(taken, now, Some(id), Ghost(self.next_id));
        Ok(())
    }

    /// Executes, in queue order, every settlement whose finality time has come
    /// and that is valid against the balances left by those before it, then
    /// removes all settlements whose finality time has come, valid or not.
    pub fn execute_settlements(&mut self, now: Timestamp)
        requires
            old(self).wf(),
        ensures
            final(self).wf(),
            final(self)@.balances == execute_all(old(self)@.balances, old(self)@.queue, now),
            final(self)@.queue == pending(old(self)@.queue, now),
            final(self)@.total == old(self)@.total,
            final(self)@.config == old(self)@.config,
            final(self)@.next_id == old(self)@.next_id,
    {
        let ghost m0 = self.balance_sheet@;
        let mut i: usize = 0;
        while i < self.settlements.len()
            invariant
                0 <= i <= self.settlements@.len(),
                self.settlements@ == old(self).settlements@,
                self.config == old(self).config,
                self.next_id == old(self).next_id,
                self.balance_sheet.wf(),
                self.balance_sheet.total() == old(self).balance_sheet.total(),
                queue_entries_ok(self.settlements@, self.next_id),
                self.balance_sheet@ == execute_all(m0, self.settlements@.take(i as int), now),
            decreases self.settlements@.len() - i,
        {
            proof {
                assert(self.settlements@.take(i + 1).drop_last() =~= self.settlements@.take(
                    i as int,
                ));
                assert(is_conserving(self.settlements@[i as int].transfer));
            }
            if now >= self.settlements[i].finality_time && is_settlement_valid(
                &self.settlements[i],
                &self.balance_sheet,
            ) {
                apply_settlement(&mut self.balance_sheet, &self.settlements[i].transfer);
            }
            i = i + 1;
        }
        assert(self.settlements@.take(i as int) =~= self.settlements@);
        let mut taken: Vec<Settlement> = Vec::new();
        std::mem::swap(&mut self.settlements, &mut taken);
        self.settlements = retain_settlements(taken, now, None, Ghost(self.next_id));
    }

    /// What `who` could withdraw now: its balance less its liabilities in all
    /// pending settlements, or zero where they exceed it.
    pub fn available_balance_of(&self, who: &AccountAddress) -> (r: Amount)
        requires
            self.wf(),
        ensures
            r == available(self@.balances, self@.queue, who@),
    {
        let liabilities = get_liabilities(&self.settlements, who);
        let balance = self.balance_sheet.balance_of(who);
        proof {
            self.balance_sheet.lemma_bounds();
        }
        if balance > liabilities {
            balance - liabilities
        } else {
            0
        }
    }

    /// The configuration.
    pub fn config(&self) -> (r: &ContractConfig)
        ensures
            *r == self@.config,
    {
        &self.config
    }

    /// The identifier the next settlement will get.
    pub fn next_id(&self) -> (r: SettlementID)
        ensures
            r == self@.next_id,
    {
        self.next_id
    }

    /// The pending settlements, in insertion order.
    pub fn settlements(&self) -> (r: &Vec<Settlement>)
        ensures
            r@ == self@.queue,
    {
        &self.settlements
    }

    /// The balance sheet.
    pub fn balance_sheet(&self) -> (r: &BalanceSheet)
        ensures
            r@ == self@.balances,
            r.total() == self@.total,
            self.wf() ==> r.wf(),
    {
        &self.balance_sheet
    }

    /// The balance of `who`, or `None` where the sheet has no entry for it.
    pub fn balance_of(&self, who: &AccountAddress) -> (r: Option<Amount>)
        requires
            self.wf(),
        ensures
            r == if self@.balances.dom().contains(who@) {
                Some(self@.balances[who@] as Amount)
            } else {
                None::<Amount>
            },
    {
        self.balance_sheet.get(who)
    }

    /// The sum of all balances: what the engine holds for its participants.
    pub fn total_deposited(&self) -> (r: Amount)
        requires
            self.wf(),
        ensures
            r == self@.total,
    {
        self.balance_sheet.total_amount()
    }

    /// The queued settlement with identifier `id`, if there is one.
    pub fn get_settlement(&self, id: SettlementID) -> (r: Option<&Settlement>)
        requires
            self.wf(),
        ensures
            match r {
                Some(s) => exists|i: int|
                    0 <= i < self@.queue.len() && self@.queue[i] == *s && s.id == id,
                None => forall|i: int| 0 <= i < self@.queue.len() ==> self@.queue[i].id != id,
            },
    {
        let mut i: usize = 0;
        while i < self.settlements.len()
            invariant
                0 <= i <= self.settlements@.len(),
                forall|k: int| 0 <= k < i ==> self.settlements@[k].id != id,
            decreases self.settlements@.len() - i,
        {
            if self.settlements[i].id == id {
                proof {
                    assert(self@.queue[i as int] == self.settlements@[i as int]);
                }
                return Some(&self.settlements[i]);
            }
            i = i + 1;
        }
        None
    }
}

spec fn retained(s: Settlement, now: Timestamp, vetoed_id: Option<SettlementID>) -> bool {
    match vetoed_id {
        Some(id) => survives_veto(s, id, now),
        None => now < s.finality_time,
    }
}

/// Keeps the settlements that survive: with `vetoed_id` set, those that are
/// not a pending settlement of that identifier; without it, those whose
/// finality time has not yet come. Order is kept.
fn retain_settlements(
    q: Vec<Settlement>,
    now: Timestamp,
    vetoed_id: Option<SettlementID>,
    Ghost(next_id): Ghost<SettlementID>,
) -> (r: Vec<Settlement>)
    requires
        ids_increasing(q@),
        queue_entries_ok(q@, next_id),
    ensures
        ids_increasing(r@),
        queue_entries_ok(r@, next_id),
        r@.len() <= q@.len(),
        match vetoed_id {
            Some(id) => r@ == vetoed(q@, id, now),
            None => r@ == pending(q@, now),
        },
{
    let ghost pred = |s: Settlement| retained(s, now, vetoed_id);
    let ghost q0 = q@;
    let mut rest = q;
    let mut kept: Vec<Settlement> = Vec::new();
    let ghost mut k: int = 0;
    while rest.len() > 0
        invariant
            0 <= k <= q0.len(),
            pred == (|s: Settlement| retained(s, now, vetoed_id)),
            rest@ == q0.skip(k),
            kept@ == q0.take(k).filter(pred),
            kept@.len() <= k,
            ids_increasing(q0),
            queue_entries_ok(q0, next_id),
            ids_increasing(kept@),
            queue_entries_ok(kept@, next_id),
            forall|m: int, j: int|
                0 <= m < kept@.len() && k <= j < q0.len() ==> kept@[m].id < q0[j].id,
        decreases rest@.len(),
    {
        let s = rest.remove(0);
        proof {
            assert(s == q0[k]);
            assert(q0.take(k + 1).drop_last() =~= q0.take(k));
            assert(q0.take(k + 1).last() == q0[k]);
            reveal(Seq::filter);
        }
        let keep = match vetoed_id {
            Some(id) => !(s.id == id && now < s.finality_time),
            None => now < s.finality_time,
        };
        proof {
            assert(keep == pred(s));
        }
        if keep {
            kept.push(s);
        }
        proof {
            k = k + 1;
            assert(rest@ =~= q0.skip(k));
        }
    }
    proof {
        assert(q0.take(k) =~= q0);
        match vetoed_id {
            Some(id) => {
                assert(pred =~= |s: Settlement| survives_veto(s, id, now));
            },
            None => {
                assert(pred =~= |s: Settlement| now < s.finality_time);
            },
        }
    }
    kept
}

} // verus!
