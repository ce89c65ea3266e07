use offchain_transfers::amounts::{is_transfer_valid, sum_amounts, sum_amounts_for};
use offchain_transfers::engine::get_liabilities;
use offchain_transfers::{
    AccountAddress, Address, AddressAmount, ContractAddress, ContractConfig, ReceiveError,
    Settlement, State, Transfer, TransferError,
};

const VALIDATOR: AccountAddress = AccountAddress([1u8; 32]);
const JUDGE: AccountAddress = AccountAddress([2u8; 32]);
const ALICE: AccountAddress = AccountAddress([3u8; 32]);
const BOB: AccountAddress = AccountAddress([4u8; 32]);
const CHARLIE: AccountAddress = AccountAddress([5u8; 32]);
const DORIS: AccountAddress = AccountAddress([6u8; 32]);

fn ccd(n: u64) -> u64 {
    n * 1_000_000
}

fn config(time_to_finality: u64, settlement_limit: u32) -> ContractConfig {
    ContractConfig { validator: VALIDATOR, judge: JUDGE, time_to_finality, settlement_limit }
}

fn aa(address: AccountAddress, amount: u64) -> AddressAmount {
    AddressAmount { address, amount }
}

fn transfer(sends: Vec<AddressAmount>, receives: Vec<AddressAmount>) -> Transfer {
    Transfer { send_transfers: sends, receive_transfers: receives, meta_data: Vec::new() }
}

fn account(a: AccountAddress) -> Address {
    Address::Account(a)
}

fn state_with_balances(config: ContractConfig, balances: &[(AccountAddress, u64)]) -> State {
    let mut st = State::new(config);
    for (a, b) in balances {
        st.deposit(&account(*a), *b).unwrap();
    }
    st
}

fn add(st: &mut State, t: Transfer, now: u64) {
    assert_eq!(st.add_settlement(&account(VALIDATOR), t, now), Ok(()));
}

#[test]
fn test_init() {
    let st = State::new(config(666_000, 1000));
    assert!(st.config().validator == VALIDATOR);
    assert!(st.config().judge == JUDGE);
    assert_eq!(st.config().time_to_finality, 666_000);
    assert!(st.balance_sheet().is_empty());
    assert_eq!(st.settlements().len(), 0);
    assert_eq!(st.next_id(), 0);
}

#[test]
fn test_deposit() {
    let mut st = State::new(config(600_000, 1000));
    let caller = account(AccountAddress([3u8; 32]));
    assert_eq!(st.deposit(&caller, ccd(100)), Ok(()));
    assert_eq!(st.balance_of(&ALICE), Some(ccd(100)));
    assert_eq!(st.deposit(&caller, ccd(100)), Ok(()));
    assert_eq!(st.balance_of(&ALICE), Some(ccd(200)));
    assert_eq!(st.total_deposited(), ccd(200));
}

#[test]
fn deposit_from_contract_is_refused() {
    let mut st = State::new(config(600_000, 1000));
    let c = Address::Contract(ContractAddress { index: 7, subindex: 0 });
    assert_eq!(st.deposit(&c, ccd(5)), Err(ReceiveError::ContractSender));
    assert!(st.balance_sheet().is_empty());
}

#[test]
fn deposit_of_zero_creates_entry() {
    let mut st = State::new(config(600_000, 1000));
    assert_eq!(st.deposit(&account(ALICE), 0), Ok(()));
    assert_eq!(st.balance_of(&ALICE), Some(0));
    assert!(!st.balance_sheet().is_empty());
}

#[test]
fn test_withdrawal_simple() {
    let mut st = state_with_balances(config(600_000, 1000), &[(ALICE, ccd(100))]);
    let sender = account(ALICE);
    assert_eq!(st.withdraw(&sender, ccd(120)).err(), Some(ReceiveError::InsufficientFunds));
    assert_eq!(st.withdraw(&sender, 0).err(), Some(ReceiveError::ZeroWithdrawal));
    let p = st.withdraw(&sender, ccd(90)).unwrap();
    assert!(p.receiver == ALICE);
    assert_eq!(p.amount, ccd(90));
    assert_eq!(st.balance_of(&ALICE), Some(ccd(10)));
    // An account without an entry has nothing to withdraw.
    assert_eq!(
        st.withdraw(&account(VALIDATOR), ccd(90)).err(),
        Some(ReceiveError::InsufficientFunds)
    );
    assert_eq!(st.balance_of(&VALIDATOR), None);
}

#[test]
fn withdraw_from_contract_is_refused() {
    let mut st = state_with_balances(config(600_000, 1000), &[(ALICE, ccd(100))]);
    let c = Address::Contract(ContractAddress { index: 1, subindex: 2 });
    assert_eq!(st.withdraw(&c, ccd(1)).err(), Some(ReceiveError::ContractSender));
}

fn complex_state() -> State {
    let mut st = state_with_balances(
        config(600_000, 1000),
        &[(ALICE, ccd(100)), (BOB, ccd(100)), (CHARLIE, ccd(100))],
    );
    add(&mut st, transfer(vec![aa(ALICE, ccd(50)), aa(BOB, ccd(25))], vec![aa(CHARLIE, ccd(75))]), 0);
    add(&mut st, transfer(vec![aa(CHARLIE, ccd(20)), aa(ALICE, ccd(10))], vec![aa(BOB, ccd(30))]), 0);
    add(&mut st, transfer(vec![aa(BOB, ccd(5)), aa(CHARLIE, ccd(10))], vec![aa(ALICE, ccd(15))]), 0);
    st
}

#[test]
fn test_withdrawal_complex() {
    let mut st = complex_state();
    let s = st.get_settlement(0).unwrap();
    assert_eq!(s.id, 0);
    assert_eq!(s.finality_time, 600_000);
    assert_eq!(s.transfer.send_transfers.len(), 2);
    assert!(s.transfer.send_transfers[0].address == ALICE);
    assert_eq!(s.transfer.send_transfers[0].amount, ccd(50));
    assert!(s.transfer.receive_transfers[0].address == CHARLIE);
    assert_eq!(s.transfer.receive_transfers[0].amount, ccd(75));

    // Alice owes 60 in pending settlements, so 40 are available.
    assert_eq!(st.available_balance_of(&ALICE), ccd(40));
    assert_eq!(st.withdraw(&account(ALICE), ccd(41)).err(), Some(ReceiveError::InsufficientFunds));

    // Bob owes 30, so 70 are available.
    let p = st.withdraw(&account(BOB), ccd(70)).unwrap();
    assert!(p.receiver == BOB);
    assert_eq!(p.amount, ccd(70));
    assert_eq!(st.balance_of(&BOB), Some(ccd(30)));
    assert_eq!(st.settlements().len(), 3);
    assert_eq!(st.available_balance_of(&BOB), 0);
}

#[test]
fn test_add_settlement() {
    let mut st = State::new(config(600_000, 2));
    let good = transfer(vec![aa(ALICE, ccd(100))], vec![aa(JUDGE, ccd(50)), aa(VALIDATOR, ccd(50))]);
    assert_eq!(
        st.add_settlement(&account(JUDGE), good.clone(), 100),
        Err(ReceiveError::NotAValidator)
    );
    assert_eq!(st.add_settlement(&account(VALIDATOR), good.clone(), 100), Ok(()));
    assert_eq!(st.settlements().len(), 1);
    assert!(st.balance_sheet().is_empty());
    assert_eq!(st.next_id(), 1);
    assert_eq!(st.settlements()[0].finality_time, 600_100);

    let bad = transfer(vec![aa(ALICE, ccd(50))], vec![aa(VALIDATOR, ccd(50)), aa(VALIDATOR, ccd(50))]);
    assert_eq!(
        st.add_settlement(&account(VALIDATOR), bad, 100),
        Err(ReceiveError::InvalidTransfer)
    );

    let strange = Transfer {
        send_transfers: vec![aa(ALICE, ccd(100)), aa(ALICE, 0)],
        receive_transfers: vec![aa(ALICE, ccd(50)), aa(ALICE, ccd(50))],
        meta_data: vec![1u8, 2u8, 3u8],
    };
    assert_eq!(st.add_settlement(&account(VALIDATOR), strange, 100), Ok(()));
    assert_eq!(st.settlements().len(), 2);
    assert!(st.balance_sheet().is_empty());
    assert_eq!(st.next_id(), 2);

    assert_eq!(
        st.add_settlement(&account(VALIDATOR), good, 100),
        Err(ReceiveError::SettlementQueueFull)
    );
    assert_eq!(st.next_id(), 2);
}

#[test]
fn add_settlement_from_contract_is_not_validator() {
    let mut st = State::new(config(600_000, 2));
    let c = Address::Contract(ContractAddress { index: 0, subindex: 0 });
    let t = transfer(vec![aa(ALICE, 1)], vec![aa(BOB, 1)]);
    assert_eq!(st.add_settlement(&c, t, 0), Err(ReceiveError::NotAValidator));
}

#[test]
fn add_settlement_time_overflow() {
    let mut st = State::new(config(600_000, 10));
    let t = transfer(vec![aa(ALICE, 1)], vec![aa(BOB, 1)]);
    assert_eq!(
        st.add_settlement(&account(VALIDATOR), t.clone(), u64::MAX - 599_999),
        Err(ReceiveError::TimeOverflow)
    );
    assert_eq!(st.settlements().len(), 0);
    assert_eq!(st.next_id(), 0);
    // The largest representable finality time is accepted.
    assert_eq!(st.add_settlement(&account(VALIDATOR), t, u64::MAX - 600_000), Ok(()));
    assert_eq!(st.settlements()[0].finality_time, u64::MAX);
}

#[test]
fn queue_full_exactly_at_limit() {
    let mut st = State::new(config(1000, 3));
    let t = transfer(vec![aa(ALICE, 1)], vec![aa(BOB, 1)]);
    for i in 0..3u64 {
        assert_eq!(st.add_settlement(&account(VALIDATOR), t.clone(), i), Ok(()));
    }
    assert_eq!(
        st.add_settlement(&account(VALIDATOR), t.clone(), 5),
        Err(ReceiveError::SettlementQueueFull)
    );
    // A full queue is refused before the transfer is looked at.
    let bad = transfer(vec![aa(ALICE, 1)], vec![]);
    assert_eq!(
        st.add_settlement(&account(VALIDATOR), bad, 5),
        Err(ReceiveError::SettlementQueueFull)
    );
    // Once the queue drains there is room again.
    st.execute_settlements(10_000);
    assert_eq!(st.settlements().len(), 0);
    assert_eq!(st.add_settlement(&account(VALIDATOR), t, 10_000), Ok(()));
    assert_eq!(st.settlements()[0].id, 3);
}

#[test]
fn zero_limit_queue_is_always_full() {
    let mut st = State::new(config(1000, 0));
    let t = transfer(vec![], vec![]);
    assert_eq!(
        st.add_settlement(&account(VALIDATOR), t, 0),
        Err(ReceiveError::SettlementQueueFull)
    );
}

fn execution_state() -> State {
    let mut st = state_with_balances(
        config(600_000, 1000),
        &[(ALICE, ccd(100)), (BOB, ccd(100)), (CHARLIE, ccd(100))],
    );
    // Due at 600 s and valid.
    add(&mut st, transfer(vec![aa(ALICE, ccd(50)), aa(BOB, ccd(25))], vec![aa(CHARLIE, ccd(75))]), 0);
    // Due, but Alice cannot pay after the first one.
    add(&mut st, transfer(vec![aa(ALICE, ccd(60)), aa(BOB, ccd(5))], vec![aa(CHARLIE, ccd(65))]), 0);
    // Valid but due only at 800 s.
    add(
        &mut st,
        transfer(vec![aa(ALICE, ccd(1)), aa(BOB, ccd(1))], vec![aa(CHARLIE, ccd(2))]),
        200_000,
    );
    // Due at 600 s and valid.
    add(&mut st, transfer(vec![aa(ALICE, ccd(50)), aa(BOB, ccd(5))], vec![aa(CHARLIE, ccd(55))]), 0);
    // Due at 601 s and valid; Doris has no entry yet.
    add(&mut st, transfer(vec![aa(CHARLIE, ccd(50))], vec![aa(DORIS, ccd(50))]), 1000);
    st
}

#[test]
fn test_execute_settlements() {
    let mut st = execution_state();
    st.execute_settlements(700_000);
    assert_eq!(st.balance_of(&ALICE), Some(0));
    assert_eq!(st.balance_of(&BOB), Some(ccd(70)));
    assert_eq!(st.balance_of(&CHARLIE), Some(ccd(180)));
    assert_eq!(st.balance_of(&DORIS), Some(ccd(50)));
    assert_eq!(st.settlements().len(), 1);
    assert_eq!(st.settlements()[0].id, 2);
    assert_eq!(st.settlements()[0].finality_time, 800_000);
    assert_eq!(st.total_deposited(), ccd(300));
}

#[test]
fn execute_twice_is_execute_once() {
    let mut once = execution_state();
    once.execute_settlements(700_000);
    let mut twice = execution_state();
    twice.execute_settlements(700_000);
    twice.execute_settlements(700_000);
    for who in [ALICE, BOB, CHARLIE, DORIS] {
        assert_eq!(once.balance_of(&who), twice.balance_of(&who));
    }
    assert_eq!(once.settlements().len(), twice.settlements().len());
    assert_eq!(twice.settlements()[0].id, 2);
}

#[test]
fn execute_before_finality_changes_nothing() {
    let mut st = execution_state();
    st.execute_settlements(599_999);
    assert_eq!(st.settlements().len(), 5);
    assert_eq!(st.balance_of(&ALICE), Some(ccd(100)));
    assert_eq!(st.balance_of(&DORIS), None);
}

#[test]
fn execute_at_finality_time_applies() {
    let mut st = execution_state();
    st.execute_settlements(600_000);
    assert_eq!(st.balance_of(&ALICE), Some(0));
    assert_eq!(st.balance_of(&BOB), Some(ccd(70)));
    assert_eq!(st.balance_of(&CHARLIE), Some(ccd(230)));
    assert_eq!(st.balance_of(&DORIS), None);
    assert_eq!(st.settlements().len(), 2);
}

#[test]
fn settlement_paid_from_incoming_amount_is_valid() {
    // Bob has nothing, but receives in the same settlement what he sends on.
    let mut st = state_with_balances(config(10, 10), &[(ALICE, 30)]);
    add(&mut st, transfer(vec![aa(ALICE, 30), aa(BOB, 30)], vec![aa(BOB, 30), aa(CHARLIE, 30)]), 0);
    st.execute_settlements(10);
    assert_eq!(st.balance_of(&ALICE), Some(0));
    assert_eq!(st.balance_of(&BOB), Some(0));
    assert_eq!(st.balance_of(&CHARLIE), Some(30));
}

#[test]
fn settlement_with_repeated_sender_checks_its_total() {
    // Alice sends 20 twice but holds only 30: invalid, no effect, still pruned.
    let mut st = state_with_balances(config(10, 10), &[(ALICE, 30)]);
    add(&mut st, transfer(vec![aa(ALICE, 20), aa(ALICE, 20)], vec![aa(BOB, 40)]), 0);
    st.execute_settlements(10);
    assert_eq!(st.balance_of(&ALICE), Some(30));
    assert_eq!(st.balance_of(&BOB), None);
    assert_eq!(st.settlements().len(), 0);
}

#[test]
fn test_veto() {
    let mut st = state_with_balances(
        config(100, 1000),
        &[(ALICE, ccd(100)), (BOB, ccd(100)), (CHARLIE, ccd(100))],
    );
    add(&mut st, transfer(vec![aa(ALICE, ccd(50)), aa(BOB, ccd(25))], vec![aa(CHARLIE, ccd(75))]), 0);
    add(&mut st, transfer(vec![aa(CHARLIE, ccd(20)), aa(ALICE, ccd(10))], vec![aa(BOB, ccd(30))]), 10);

    assert_eq!(st.veto(&account(VALIDATOR), 0, 90), Err(ReceiveError::NotAJudge));

    assert_eq!(st.veto(&account(JUDGE), 42, 90), Ok(()));
    assert_eq!(st.settlements().len(), 2);

    assert_eq!(st.veto(&account(JUDGE), 0, 90), Ok(()));
    assert_eq!(st.settlements().len(), 1);
    assert_eq!(st.settlements()[0].id, 1);

    // Settlement 1 is final at 110: a veto at 120 has no effect.
    assert_eq!(st.veto(&account(JUDGE), 1, 120), Ok(()));
    assert_eq!(st.settlements().len(), 1);
}

#[test]
fn veto_at_finality_time_has_no_effect() {
    let mut st = State::new(config(100, 10));
    add(&mut st, transfer(vec![aa(ALICE, 1)], vec![aa(BOB, 1)]), 0);
    assert_eq!(st.veto(&account(JUDGE), 0, 100), Ok(()));
    assert_eq!(st.settlements().len(), 1);
    assert_eq!(st.veto(&account(JUDGE), 0, 99), Ok(()));
    assert_eq!(st.settlements().len(), 0);
}

#[test]
fn veto_of_absent_id_keeps_queue() {
    let mut st = State::new(config(100, 10));
    add(&mut st, transfer(vec![aa(ALICE, 1)], vec![aa(BOB, 1)]), 0);
    add(&mut st, transfer(vec![aa(BOB, 2)], vec![aa(ALICE, 2)]), 5);
    assert_eq!(st.veto(&account(JUDGE), 7, 0), Ok(()));
    let ids: Vec<u64> = st.settlements().iter().map(|s| s.id).collect();
    assert_eq!(ids, vec![0, 1]);
    assert_eq!(st.settlements()[1].transfer.send_transfers[0].amount, 2);
}

#[test]
fn veto_from_contract_is_not_judge() {
    let mut st = State::new(config(100, 10));
    let c = Address::Contract(ContractAddress { index: 2, subindex: 0 });
    assert_eq!(st.veto(&c, 0, 0), Err(ReceiveError::NotAJudge));
}

#[test]
fn withdrawal_stays_safe_under_any_veto() {
    // Alice owes 60 in two pending settlements and withdraws the 40 left.
    let mut st = complex_state();
    assert!(st.withdraw(&account(ALICE), ccd(40)).is_ok());
    assert_eq!(st.balance_of(&ALICE), Some(ccd(60)));
    assert_eq!(st.available_balance_of(&ALICE), 0);
    // Veto the one that would have credited her; the rest still execute.
    assert_eq!(st.veto(&account(JUDGE), 2, 0), Ok(()));
    st.execute_settlements(600_000);
    assert_eq!(st.balance_of(&ALICE), Some(0));
    assert_eq!(st.balance_of(&BOB), Some(ccd(105)));
    assert_eq!(st.balance_of(&CHARLIE), Some(ccd(155)));
    assert_eq!(st.total_deposited(), ccd(260));
}

#[test]
fn test_lifecycle() {
    let mut st = State::new(config(100, 1000));
    for who in [ALICE, BOB, CHARLIE] {
        assert_eq!(st.deposit(&account(who), ccd(100)), Ok(()));
    }
    assert_eq!(st.total_deposited(), ccd(300));

    assert_eq!(st.withdraw(&account(BOB), ccd(120)).err(), Some(ReceiveError::InsufficientFunds));
    assert_eq!(st.withdraw(&account(BOB), ccd(40)).unwrap().amount, ccd(40));

    let t1 = transfer(vec![aa(ALICE, ccd(50)), aa(CHARLIE, ccd(20))], vec![aa(CHARLIE, ccd(70))]);
    assert_eq!(st.add_settlement(&account(VALIDATOR), t1, 200), Ok(()));

    assert_eq!(st.withdraw(&account(ALICE), ccd(60)).err(), Some(ReceiveError::InsufficientFunds));

    let t2 = transfer(vec![aa(CHARLIE, ccd(90))], vec![aa(ALICE, ccd(50)), aa(BOB, ccd(40))]);
    assert_eq!(st.add_settlement(&account(VALIDATOR), t2, 220), Ok(()));

    assert_eq!(st.veto(&account(JUDGE), 0, 220), Ok(()));
    assert_eq!(st.settlements().len(), 1);

    assert!(st.withdraw(&account(ALICE), ccd(60)).is_ok());

    st.execute_settlements(310);
    assert_eq!(st.settlements().len(), 1);

    st.execute_settlements(320);
    assert_eq!(st.settlements().len(), 0);

    assert!(st.withdraw(&account(ALICE), ccd(90)).is_ok());
    assert_eq!(st.balance_of(&ALICE), Some(0));
    assert!(st.withdraw(&account(BOB), ccd(100)).is_ok());
    assert_eq!(st.balance_of(&BOB), Some(0));
    assert!(st.withdraw(&account(CHARLIE), ccd(10)).is_ok());
    assert_eq!(st.balance_of(&CHARLIE), Some(0));

    assert_eq!(st.total_deposited(), 0);
}

#[test]
fn conservation_check_is_exact() {
    assert!(is_transfer_valid(&transfer(vec![], vec![])));
    assert!(is_transfer_valid(&transfer(vec![aa(ALICE, 0)], vec![])));
    assert!(is_transfer_valid(&transfer(
        vec![aa(ALICE, 7), aa(BOB, 3)],
        vec![aa(CHARLIE, 4), aa(ALICE, 6)]
    )));
    assert!(!is_transfer_valid(&transfer(vec![aa(ALICE, 7)], vec![aa(BOB, 6)])));
    // Sums beyond the largest amount are compared exactly.
    assert!(is_transfer_valid(&transfer(
        vec![aa(ALICE, u64::MAX), aa(BOB, u64::MAX)],
        vec![aa(CHARLIE, u64::MAX - 1), aa(DORIS, u64::MAX), aa(DORIS, 1)]
    )));
    assert!(!is_transfer_valid(&transfer(vec![aa(ALICE, u64::MAX), aa(BOB, 1)], vec![aa(CHARLIE, 0)])));
}

#[test]
fn sums_of_amounts() {
    let l = vec![aa(ALICE, 5), aa(BOB, 7), aa(ALICE, u64::MAX)];
    assert_eq!(sum_amounts(&l), 12 + u64::MAX as u128);
    assert_eq!(sum_amounts_for(&l, &ALICE), 5 + u64::MAX as u128);
    assert_eq!(sum_amounts_for(&l, &BOB), 7);
    assert_eq!(sum_amounts_for(&l, &CHARLIE), 0);
}

#[test]
fn liabilities_sum_sends_and_cap() {
    let s = |id: u64, sends: Vec<AddressAmount>| Settlement {
        id,
        transfer: transfer(sends, vec![]),
        finality_time: 0,
    };
    let q = vec![s(0, vec![aa(ALICE, 3), aa(BOB, 4)]), s(1, vec![aa(ALICE, 5)])];
    assert_eq!(get_liabilities(&q, &ALICE), 8);
    assert_eq!(get_liabilities(&q, &BOB), 4);
    assert_eq!(get_liabilities(&q, &CHARLIE), 0);
    let big = vec![s(0, vec![aa(ALICE, u64::MAX)]), s(1, vec![aa(ALICE, 1)])];
    assert_eq!(get_liabilities(&big, &ALICE), u64::MAX);
}

#[test]
fn available_balance_of_unknown_is_zero() {
    let st = complex_state();
    assert_eq!(st.available_balance_of(&DORIS), 0);
    assert_eq!(st.available_balance_of(&CHARLIE), ccd(70));
}

#[test]
fn get_settlement_absent_is_none() {
    let st = complex_state();
    assert!(st.get_settlement(3).is_none());
    assert_eq!(st.get_settlement(2).unwrap().transfer.receive_transfers[0].amount, ccd(15));
}

#[test]
fn transfer_errors_map_to_withdrawal_errors() {
    assert_eq!(
        ReceiveError::from(TransferError::AmountTooLarge),
        ReceiveError::InvokeTransferInsufficientFunds
    );
    assert_eq!(
        ReceiveError::from(TransferError::MissingAccount),
        ReceiveError::InvokeTransferMissingAccount
    );
}

#[test]
fn address_equality_is_bytewise() {
    let mut b = [9u8; 32];
    let a = AccountAddress(b);
    b[31] = 8;
    assert!(a != AccountAddress(b));
    assert!(a == AccountAddress([9u8; 32]));
    assert!(account(ALICE).matches_account(&ALICE));
    assert!(!account(ALICE).matches_account(&BOB));
    assert!(!Address::Contract(ContractAddress { index: 3, subindex: 0 }).matches_account(&ALICE));
}
