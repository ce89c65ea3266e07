//! Sums of the amounts listed in a transfer, and the conservation check.
use vstd::prelude::*;
use crate::types::{AccountAddress, AddressAmount, Transfer};

verus! {

/// The largest amount, as an integer.
pub open spec fn max_amount() -> int {
    0xffff_ffff_ffff_ffff
}

/// The sum of all amounts in `l`.
pub open spec fn total_amount(l: Seq<AddressAmount>) -> int
    decreases l.len(),
{
    if l.len() == 0 {
        0
    } else {
        total_amount(l.drop_last()) + l.last().amount as int
    }
}

/// The sum of the amounts in `l` that are attributed to the participant `who`.
pub open spec fn amount_for(l: Seq<AddressAmount>, who: Seq<u8>) -> int
    decreases l.len(),
{
    if l.len() == 0 {
        0
    } else {
        amount_for(l.drop_last(), who) + if l.last().address@ == who {
            l.last().amount as int
        } else {
            0
        }
    }
}

/// A transfer conserves value when it sends exactly what it receives.
pub open spec fn is_conserving(t: Transfer) -> bool {
    total_amount(t.send_transfers@) == total_amount(t.receive_transfers@)
}

/// Each amount is at most the largest amount, so a list sums to at most its
/// length times that; one participant's share is part of the whole.
pub proof fn lemma_amount_bounds(l: Seq<AddressAmount>, who: Seq<u8>)
    ensures
        0 <= amount_for(l, who) <= total_amount(l),
        total_amount(l) <= l.len() * max_amount(),
    decreases l.len(),
{
    if l.len() > 0 {
        lemma_amount_bounds(l.drop_last(), who);
    }
}

/// One participant's share of a prefix is at most its share of the whole list.
pub proof fn lemma_amount_for_prefix(l: Seq<AddressAmount>, who: Seq<u8>, i: int)
    requires
        0 <= i <= l.len(),
    ensures
        amount_for(l.take(i), who) <= amount_for(l, who),
    decreases l.len() - i,
{
    if i < l.len() {
        lemma_amount_for_prefix(l, who, i + 1);
        assert(l.take(i + 1).drop_last() =~= l.take(i));
    } else {
        assert(l.take(i) =~= l);
    }
}

/// A length held in a `usize` is below 2 to the 64th.
pub proof fn lemma_len_fits(n: usize)
    ensures
        (n as int) < 0x1_0000_0000_0000_0000,
{
}

/// The sum of all amounts in `l`, exactly.
pub fn sum_amounts(l: &Vec<AddressAmount>) -> (r: u128)
    ensures
        r == total_amount(l@),
{
    let mut acc: u128 = 0;
    let mut i: usize = 0;
    proof {
        lemma_len_fits(l.len());
    }
    while i < l.len()
        invariant
            0 <= i <= l@.len() < 0x1_0000_0000_0000_0000,
            acc == total_amount(l@.take(i as int)),
        decreases l@.len() - i,
    {
        proof {
            assert(l@.take(i + 1).drop_last() =~= l@.take(i as int));
            lemma_amount_bounds(l@.take(i + 1), Seq::empty());
        }
        acc = acc + l[i].amount as u128;
        i = i + 1;
    }
    assert(l@.take(i as int) =~= l@);
    acc
}

/// The sum of the amounts in `l` attributed to `who`, exactly.
pub fn sum_amounts_for(l: &Vec<AddressAmount>, who: &AccountAddress) -> (r: u128)
    ensures
        r == amount_for(l@, who@),
{
    let mut acc: u128 = 0;
    let mut i: usize = 0;
    proof {
        lemma_len_fits(l.len());
    }
    while i < l.len()
        invariant
            0 <= i <= l@.len() < 0x1_0000_0000_0000_0000,
            acc == amount_for(l@.take(i as int), who@),
        decreases l@.len() - i,
    {
        proof {
            assert(l@.take(i + 1).drop_last() =~= l@.take(i as int));
            lemma_amount_bounds(l@.take(i + 1), who@);
        }
        if l[i].address == *who {
            acc = acc + l[i].amount as u128;
        }
        i = i + 1;
    }
    assert(l@.take(i as int) =~= l@);
    acc
}

/// Whether the transfer conserves value: what it sends equals what it receives.
pub fn is_transfer_valid(transfer: &Transfer) -> (r: bool)
    ensures
        r == is_conserving(*transfer),
{
    let send_amount = sum_amounts(&transfer.send_transfers);
    let receive_amount = sum_amounts(&transfer.receive_transfers);
    send_amount == receive_amount
}

} // verus!
