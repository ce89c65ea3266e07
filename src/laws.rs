//! Laws of the engine, stated over the model that the operations' contracts
//! use.
use vstd::prelude::*;
use crate::amounts::{amount_for, lemma_amount_bounds, max_amount};
use crate::balance_sheet::balance_in;
use crate::engine::{
    apply_transfer, execute_all, is_due, lemma_apply_transfer, liabilities, pending,
    settlement_valid,
};
use crate::state::{survives_veto, vetoed, State};
use crate::types::{AddressAmount, Settlement, SettlementID, Timestamp, Transfer};

verus! {

proof fn lemma_amount_for_witness(l: Seq<AddressAmount>, who: Seq<u8>)
    requires
        amount_for(l, who) != 0,
    ensures
        exists|j: int| 0 <= j < l.len() && #[trigger] l[j].address@ == who,
    decreases l.len(),
{
    if l.last().address@ != who {
        lemma_amount_for_witness(l.drop_last(), who);
        let j = choose|j: int| 0 <= j < l.len() - 1 && #[trigger] l.drop_last()[j].address@ == who;
        assert(l[j].address@ == who);
    } else {
        assert(l[l.len() - 1].address@ == who);
    }
}

/// A settlement that is valid against a balance sheet without negative
/// balances leaves no balance negative.
pub proof fn lemma_valid_settlement_keeps_balances_nonnegative(m: Map<Seq<u8>, int>, t: Transfer)
    requires
        forall|k: Seq<u8>| #[trigger] balance_in(m, k) >= 0,
        settlement_valid(m, t),
    ensures
        forall|k: Seq<u8>| #[trigger] balance_in(apply_transfer(m, t), k) >= 0,
{
    assert forall|k: Seq<u8>| #[trigger] balance_in(apply_transfer(m, t), k) >= 0 by {
        lemma_apply_transfer(m, t, k);
        lemma_amount_bounds(t.receive_transfers@, k);
        assert(balance_in(m, k) >= 0);
        if amount_for(t.send_transfers@, k) != 0 {
            lemma_amount_for_witness(t.send_transfers@, k);
            let j = choose|j: int|
                0 <= j < t.send_transfers@.len() && #[trigger] t.send_transfers@[j].address@ == k;
            assert(t.send_transfers@[j].address@ == k);
        }
    }
}

/// Executing any queue, from a balance sheet without negative balances,
/// leaves no balance negative.
pub proof fn lemma_execution_keeps_balances_nonnegative(
    m: Map<Seq<u8>, int>,
    q: Seq<Settlement>,
    now: Timestamp,
)
    requires
        forall|k: Seq<u8>| #[trigger] balance_in(m, k) >= 0,
    ensures
        forall|k: Seq<u8>| #[trigger] balance_in(execute_all(m, q, now), k) >= 0,
    decreases q.len(),
{
    if q.len() > 0 {
        lemma_execution_keeps_balances_nonnegative(m, q.drop_last(), now);
        let p = execute_all(m, q.drop_last(), now);
        if is_due(q.last(), now) && settlement_valid(p, q.last().transfer) {
            lemma_valid_settlement_keeps_balances_nonnegative(p, q.last().transfer);
        }
    }
}

/// Every state that the operations can reach is well formed, and in a
/// well-formed state no balance is negative or above the largest amount.
pub proof fn lemma_reachable_balances_in_range(st: &State)
    requires
        st.wf(),
    ensures
        forall|k: Seq<u8>| 0 <= #[trigger] balance_in(st@.balances, k) <= max_amount(),
{
    st.lemma_balance_bounds();
}

/// A well-formed queue never holds more than its bound, so the queue is at
/// or above its bound exactly when it holds as many settlements as the bound.
pub proof fn lemma_queue_full_exactly_at_limit(st: &State)
    requires
        st.wf(),
    ensures
        (st@.queue.len() >= st@.config.settlement_limit) == (st@.queue.len()
            == st@.config.settlement_limit),
{
}

proof fn lemma_liabilities_of_subqueue(
    q: Seq<Settlement>,
    who: Seq<u8>,
    keep: spec_fn(Settlement) -> bool,
)
    ensures
        0 <= liabilities(q.filter(keep), who) <= liabilities(q, who),
    decreases q.len(),
{
    reveal(Seq::filter);
    if q.len() > 0 {
        lemma_liabilities_of_subqueue(q.drop_last(), who, keep);
        lemma_amount_bounds(q.last().transfer.send_transfers@, who);
        let sub = q.drop_last().filter(keep);
        assert(sub.push(q.last()).drop_last() =~= sub);
    }
}

/// Withdrawal safety: after a withdrawal of `payout` that the engine allows,
/// whichever of the pending settlements are vetoed, the participant's balance
/// covers every amount it sends in the remaining ones, even with no credit.
pub proof fn lemma_withdrawal_safety(
    m: Map<Seq<u8>, int>,
    q: Seq<Settlement>,
    who: Seq<u8>,
    payout: int,
    keep: spec_fn(Settlement) -> bool,
)
    requires
        payout > 0,
        balance_in(m, who) >= liabilities(q, who) + payout,
    ensures
        balance_in(m.insert(who, balance_in(m, who) - payout), who) - liabilities(
            q.filter(keep),
            who,
        ) >= 0,
{
    lemma_liabilities_of_subqueue(q, who, keep);
}

proof fn lemma_filter_keeps_all(q: Seq<Settlement>, keep: spec_fn(Settlement) -> bool)
    requires
        forall|i: int| 0 <= i < q.len() ==> #[trigger] keep(q[i]),
    ensures
        q.filter(keep) == q,
    decreases q.len(),
{
    reveal(Seq::filter);
    if q.len() > 0 {
        lemma_filter_keeps_all(q.drop_last(), keep);
        assert(keep(q[q.len() - 1]));
        assert(q.drop_last().push(q.last()) =~= q);
    }
}

/// Vetoing an identifier that no pending settlement carries succeeds without
/// changing the queue.
pub proof fn lemma_veto_absent_is_noop(q: Seq<Settlement>, id: SettlementID, now: Timestamp)
    requires
        forall|i: int| 0 <= i < q.len() ==> #[trigger] survives_veto(q[i], id, now),
    ensures
        vetoed(q, id, now) == q,
{
    let keep = |s: Settlement| survives_veto(s, id, now);
    assert forall|i: int| 0 <= i < q.len() implies #[trigger] keep(q[i]) by {
        assert(survives_veto(q[i], id, now));
    }
    lemma_filter_keeps_all(q, keep);
}

proof fn lemma_pending_not_due(q: Seq<Settlement>, now: Timestamp)
    ensures
        forall|i: int| 0 <= i < pending(q, now).len() ==> now < #[trigger] pending(
            q,
            now,
        )[i].finality_time,
    decreases q.len(),
{
    reveal(Seq::filter);
    if q.len() > 0 {
        lemma_pending_not_due(q.drop_last(), now);
        let sub = pending(q.drop_last(), now);
        assert(sub.push(q.last()).drop_last() =~= sub);
    }
}

proof fn lemma_execute_none_due(m: Map<Seq<u8>, int>, q: Seq<Settlement>, now: Timestamp)
    requires
        forall|i: int| 0 <= i < q.len() ==> now < #[trigger] q[i].finality_time,
    ensures
        execute_all(m, q, now) == m,
    decreases q.len(),
{
    if q.len() > 0 {
        assert(now < q[q.len() - 1].finality_time);
        lemma_execute_none_due(m, q.drop_last(), now);
    }
}

/// Executing twice at the same time has the effect of executing once: the
/// first pass removes every due settlement, so the second changes nothing.
pub proof fn lemma_execute_twice_is_once(m: Map<Seq<u8>, int>, q: Seq<Settlement>, now: Timestamp)
    ensures
        execute_all(execute_all(m, q, now), pending(q, now), now) == execute_all(m, q, now),
        pending(pending(q, now), now) == pending(q, now),
{
    let p = pending(q, now);
    lemma_pending_not_due(q, now);
    lemma_execute_none_due(execute_all(m, q, now), p, now);
    let keep = |s: Settlement| now < s.finality_time;
    assert forall|i: int| 0 <= i < p.len() implies #[trigger] keep(p[i]) by {
        assert(now < p[i].finality_time);
    }
    lemma_filter_keeps_all(p, keep);
}

} // verus!
