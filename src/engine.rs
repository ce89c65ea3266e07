//! The settlement engine: liabilities, settlement validity, and how a
//! settlement changes the balance sheet.
use vstd::prelude::*;
use crate::amounts::{
    amount_for, is_conserving, lemma_amount_bounds, lemma_amount_for_prefix, lemma_len_fits,
    max_amount, sum_amounts_for, total_amount,
};
use crate::balance_sheet::{balance_in, BalanceSheet};
use crate::types::{AccountAddress, AddressAmount, Amount, Settlement, Timestamp, Transfer};

verus! {

/// The worst-case amount that `who` owes across the settlements `q`: every
/// amount it sends in any of them.
pub open spec fn liabilities(q: Seq<Settlement>, who: Seq<u8>) -> int
    decreases q.len(),
{
    if q.len() == 0 {
        0
    } else {
        liabilities(q.drop_last(), who) + amount_for(q.last().transfer.send_transfers@, who)
    }
}

/// Adds every amount of `l` to its participant's balance, in order.
pub open spec fn credit_all(m: Map<Seq<u8>, int>, l: Seq<AddressAmount>) -> Map<Seq<u8>, int>
    decreases l.len(),
{
    if l.len() == 0 {
        m
    } else {
        let p = credit_all(m, l.drop_last());
        p.insert(l.last().address@, balance_in(p, l.last().address@) + l.last().amount)
    }
}

/// Subtracts every amount of `l` from its participant's balance, in order.
pub open spec fn debit_all(m: Map<Seq<u8>, int>, l: Seq<AddressAmount>) -> Map<Seq<u8>, int>
    decreases l.len(),
{
    if l.len() == 0 {
        m
    } else {
        let p = debit_all(m, l.drop_last());
        p.insert(l.last().address@, balance_in(p, l.last().address@) - l.last().amount)
    }
}

/// The balance sheet after a transfer: all receivers credited, then all
/// senders debited.
pub open spec fn apply_transfer(m: Map<Seq<u8>, int>, t: Transfer) -> Map<Seq<u8>, int> {
    debit_all(credit_all(m, t.receive_transfers@), t.send_transfers@)
}

/// A transfer can be applied to the balance sheet `m` when every sender's
/// balance plus what it receives in the transfer covers what it sends.
pub open spec fn settlement_valid(m: Map<Seq<u8>, int>, t: Transfer) -> bool {
    forall|j: int|
        0 <= j < t.send_transfers@.len() ==> {
            let who = #[trigger] t.send_transfers@[j].address@;
            balance_in(m, who) + amount_for(t.receive_transfers@, who) >= amount_for(
                t.send_transfers@,
                who,
            )
        }
}

/// A settlement is due once its finality time has come.
pub open spec fn is_due(s: Settlement, now: Timestamp) -> bool {
    now >= s.finality_time
}

/// One step of execution: a due and valid settlement is applied; any other
/// leaves the balance sheet unchanged.
pub open spec fn execute_step(m: Map<Seq<u8>, int>, s: Settlement, now: Timestamp) -> Map<
    Seq<u8>,
    int,
> {
    if is_due(s, now) && settlement_valid(m, s.transfer) {
        apply_transfer(m, s.transfer)
    } else {
        m
    }
}

/// The balance sheet after executing the settlements of `q` in queue order,
/// each checked against the balances left by those before it.
pub open spec fn execute_all(m: Map<Seq<u8>, int>, q: Seq<Settlement>, now: Timestamp) -> Map<
    Seq<u8>,
    int,
>
    decreases q.len(),
{
    if q.len() == 0 {
        m
    } else {
        execute_step(execute_all(m, q.drop_last(), now), q.last(), now)
    }
}

/// The settlements of `q` whose finality time has not yet come, in order.
pub open spec fn pending(q: Seq<Settlement>, now: Timestamp) -> Seq<Settlement> {
    q.filter(|s: Settlement| now < s.finality_time)
}

/// Crediting a list adds each participant's share of it to its balance.
pub proof fn lemma_credit_all(m: Map<Seq<u8>, int>, l: Seq<AddressAmount>, who: Seq<u8>)
    ensures
        balance_in(credit_all(m, l), who) == balance_in(m, who) + amount_for(l, who),
        m.dom().contains(who) ==> credit_all(m, l).dom().contains(who),
        l.len() > 0 ==> credit_all(m, l).dom().contains(l.last().address@),
    decreases l.len(),
{
    if l.len() > 0 {
        lemma_credit_all(m, l.drop_last(), who);
    }
}

/// Debiting a list subtracts each participant's share of it from its balance.
pub proof fn lemma_debit_all(m: Map<Seq<u8>, int>, l: Seq<AddressAmount>, who: Seq<u8>)
    ensures
        balance_in(debit_all(m, l), who) == balance_in(m, who) - amount_for(l, who),
        m.dom().contains(who) ==> debit_all(m, l).dom().contains(who),
    decreases l.len(),
{
    if l.len() > 0 {
        lemma_debit_all(m, l.drop_last(), who);
    }
}

/// Applying a transfer changes each balance by what the participant receives
/// minus what it sends.
pub proof fn lemma_apply_transfer(m: Map<Seq<u8>, int>, t: Transfer, who: Seq<u8>)
    ensures
        balance_in(apply_transfer(m, t), who) == balance_in(m, who) + amount_for(
            t.receive_transfers@,
            who,
        ) - amount_for(t.send_transfers@, who),
{
    lemma_credit_all(m, t.receive_transfers@, who);
    lemma_debit_all(credit_all(m, t.receive_transfers@), t.send_transfers@, who);
}

/// The worst-case amount that `who` owes across `settlements`, capped at the
/// largest amount.
pub fn get_liabilities(settlements: &Vec<Settlement>, who: &AccountAddress) -> (r: Amount)
    ensures
        r == if liabilities(settlements@, who@) <= max_amount() {
            liabilities(settlements@, who@)
        } else {
            max_amount()
        },
{
    let mut acc: u64 = 0;
    let mut i: usize = 0;
    while i < settlements.len()
        invariant
            0 <= i <= settlements@.len(),
            liabilities(settlements@.take(i as int), who@) >= 0,
            acc == if liabilities(settlements@.take(i as int), who@) <= max_amount() {
                liabilities(settlements@.take(i as int), who@)
            } else {
                max_amount()
            },
        decreases settlements@.len() - i,
    {
        let owed = sum_amounts_for(&settlements[i].transfer.send_transfers, who);
        proof {
            assert(settlements@.take(i + 1).drop_last() =~= settlements@.take(i as int));
            lemma_amount_bounds(settlements@[i as int].transfer.send_transfers@, who@);
            lemma_len_fits(settlements@[i as int].transfer.send_transfers.len());
            assert(settlements@[i as int].transfer.send_transfers@.len() * max_amount() <= (
            0x1_0000_0000_0000_0000 - 1) * max_amount()) by (nonlinear_arith)
                requires
                    settlements@[i as int].transfer.send_transfers@.len()
                        < 0x1_0000_0000_0000_0000,
            ;
        }
        let sum: u128 = acc as u128 + owed;
        if sum > u64::MAX as u128 {
            acc = u64::MAX;
        } else {
            acc = sum as u64;
        }
        i = i + 1;
    }
    assert(settlements@.take(i as int) =~= settlements@);
    acc
}

/// Whether every sender of the settlement can cover what it sends, given its
/// current balance and what it receives in the same settlement.
pub fn is_settlement_valid(settlement: &Settlement, balance_sheet: &BalanceSheet) -> (r: bool)
    requires
        balance_sheet.wf(),
    ensures
        r == settlement_valid(balance_sheet@, settlement.transfer),
{
    let sends = &settlement.transfer.send_transfers;
    let receives = &settlement.transfer.receive_transfers;
    proof {
        lemma_len_fits(sends.len());
        lemma_len_fits(receives.len());
        balance_sheet.lemma_bounds();
    }
    let mut j: usize = 0;
    while j < sends.len()
        invariant
            0 <= j <= sends@.len(),
            balance_sheet.wf(),
            sends@.len() < 0x1_0000_0000_0000_0000,
            receives@.len() < 0x1_0000_0000_0000_0000,
            sends == &settlement.transfer.send_transfers,
            receives == &settlement.transfer.receive_transfers,
            forall|k: int|
                0 <= k < j ==> {
                    let who = #[trigger] sends@[k].address@;
                    balance_in(balance_sheet@, who) + amount_for(receives@, who) >= amount_for(
                        sends@,
                        who,
                    )
                },
        decreases sends@.len() - j,
    {
        let who = sends[j].address;
        let balance = balance_sheet.balance_of(&who);
        let incoming = sum_amounts_for(receives, &who);
        let outgoing = sum_amounts_for(sends, &who);
        proof {
            lemma_amount_bounds(receives@, who@);
            assert(receives@.len() * max_amount() <= (0x1_0000_0000_0000_0000 - 1)
                * max_amount()) by (nonlinear_arith)
                requires
                    receives@.len() < 0x1_0000_0000_0000_0000,
            ;
        }
        if (balance as u128) + incoming < outgoing {
            return false;
        }
        j = j + 1;
    }
    true
}

/// Applies a valid, value-conserving transfer: credits every receiver, then
/// debits every sender. The total of the balance sheet is unchanged.
pub fn apply_settlement(balance_sheet: &mut BalanceSheet, transfer: &Transfer)
    requires
        old(balance_sheet).wf(),
        is_conserving(*transfer),
        settlement_valid(old(balance_sheet)@, *transfer),
    ensures
        final(balance_sheet).wf(),
        final(balance_sheet)@ == apply_transfer(old(balance_sheet)@, *transfer),
        final(balance_sheet).total() == old(balance_sheet).total(),
{
    let receives = &transfer.receive_transfers;
    let sends = &transfer.send_transfers;
    let ghost m0 = balance_sheet@;
    let ghost t0 = balance_sheet.total();
    proof {
        lemma_len_fits(receives.len());
    }
    let mut i: usize = 0;
    while i < receives.len()
        invariant
            0 <= i <= receives@.len() < 0x1_0000_0000_0000_0000,
            receives == &transfer.receive_transfers,
            t0 <= max_amount(),
            balance_sheet.keys_distinct(),
            balance_sheet@ == credit_all(m0, receives@.take(i as int)),
            balance_sheet.total() == t0 + total_amount(receives@.take(i as int)),
        decreases receives@.len() - i,
    {
        proof {
            assert(receives@.take(i + 1).drop_last() =~= receives@.take(i as int));
            lemma_amount_bounds(receives@.take(i as int), Seq::empty());
            assert(i * max_amount() <= (0x1_0000_0000_0000_0000 - 2) * max_amount())
                by (nonlinear_arith)
                requires
                    i < 0x1_0000_0000_0000_0000 - 1,
            ;
        }
        balance_sheet.credit(&receives[i].address, receives[i].amount as u128);
        i = i + 1;
    }
    assert(receives@.take(i as int) =~= receives@);
    let ghost m1 = balance_sheet@;
    let mut j: usize = 0;
    while j < sends.len()
        invariant
            0 <= j <= sends@.len(),
            sends == &transfer.send_transfers,
            receives == &transfer.receive_transfers,
            m1 == credit_all(m0, receives@),
            settlement_valid(m0, *transfer),
            balance_sheet.keys_distinct(),
            balance_sheet@ == debit_all(m1, sends@.take(j as int)),
            balance_sheet.total() == t0 + total_amount(receives@) - total_amount(
                sends@.take(j as int),
            ),
        decreases sends@.len() - j,
    {
        let ghost who = sends@[j as int].address@;
        proof {
            assert(sends@.take(j + 1).drop_last() =~= sends@.take(j as int));
            lemma_credit_all(m0, receives@, who);
            lemma_debit_all(m1, sends@.take(j as int), who);
            lemma_amount_for_prefix(sends@, who, j + 1);
            assert(sends@[j as int].address@ == who);
        }
        balance_sheet.debit(&sends[j].address, sends[j].amount as u128);
        j = j + 1;
    }
    assert(sends@.take(j as int) =~= sends@);
}

} // verus!
