use eager_scheduler::state::{change_balance, EagerSchedulerState};
use eager_scheduler::types::{
    BalanceSettlement, ObjectID, Reservation, ScheduleStatus, SequenceNumber, TransactionDigest,
    TxBalanceWithdraw,
};
use eager_scheduler::AccountState;
use std::collections::BTreeMap;

const A: ObjectID = (0, 1);
const B: ObjectID = (0, 2);
const C: ObjectID = (1, 0);

fn version(value: u64) -> SequenceNumber {
    SequenceNumber::from_u64(value)
}

fn amount(value: u64) -> Reservation {
    Reservation::MaxAmountU64(value)
}

fn withdraw(reservations: &[(ObjectID, Reservation)]) -> TxBalanceWithdraw {
    TxBalanceWithdraw {
        tx_digest: TransactionDigest([0; 32]),
        reservations: reservations.iter().copied().collect(),
    }
}

fn state_with(accounts: &[(ObjectID, u64)]) -> EagerSchedulerState {
    let mut state = EagerSchedulerState::new(version(0));
    for (id, balance) in accounts {
        state.load_account(id, *balance, version(1));
    }
    state
}

#[test]
fn a_new_state_is_empty() {
    let state = EagerSchedulerState::new(version(9));
    assert!(state.account_states.is_empty());
    assert!(state.scheduled_batches.scheduled_versions.is_empty());
    assert_eq!(state.highest_processed_version, version(9));
    assert_eq!(state.last_settled_version, version(9));
    assert_eq!(state.amount_reservations, 0);
    assert_eq!(state.entire_balance_reservations, 0);
}

#[test]
fn marking_a_batch_raises_the_highest_version_only_upwards() {
    let mut state = EagerSchedulerState::new(version(5));
    state.mark_batch(version(8));
    assert_eq!(state.highest_processed_version, version(8));
    state.mark_batch(version(6));
    assert_eq!(state.highest_processed_version, version(8));
    assert!(state.scheduled_batches.is_already_scheduled(version(6)));
    assert!(state.scheduled_batches.is_already_scheduled(version(8)));
}

#[test]
fn a_refused_transaction_leaves_every_account_as_it_was() {
    let mut state = state_with(&[(A, 100), (B, 10), (C, 50)]);
    assert!(state.try_reserve_all(&withdraw(&[(A, amount(30))]).reservations));
    let before = state.account_states.clone();
    // A is covered and comes first; B is not.
    let refused = withdraw(&[(A, amount(70)), (B, amount(11)), (C, Reservation::EntireBalance)]);
    assert!(!state.try_reserve_all(&refused.reservations));
    assert_eq!(state.account_states, before);
    assert_eq!(state.account_states[&A].cumulative_reservations, 30);
}

#[test]
fn a_granted_transaction_takes_every_reservation() {
    let mut state = state_with(&[(A, 100), (B, 10), (C, 50)]);
    let granted = withdraw(&[(A, amount(70)), (B, amount(10)), (C, Reservation::EntireBalance)]);
    assert!(state.try_reserve_all(&granted.reservations));
    assert_eq!(state.account_states[&A].minimum_guaranteed_balance(), 30);
    assert_eq!(state.account_states[&B].minimum_guaranteed_balance(), 0);
    assert!(state.account_states[&C].entire_balance_reserved);
}

#[test]
fn a_transaction_without_reservations_is_granted() {
    let mut state = state_with(&[]);
    assert!(state.try_reserve_all(&BTreeMap::new()));
}

#[test]
fn transactions_are_decided_in_order() {
    let mut state = state_with(&[(A, 100)]);
    let withdraws = vec![
        withdraw(&[(A, amount(60))]),
        withdraw(&[(A, amount(50))]),
        withdraw(&[(A, amount(40))]),
        withdraw(&[(A, Reservation::EntireBalance)]),
    ];
    let statuses = state.schedule_transactions(&withdraws, 4);
    assert_eq!(
        statuses,
        vec![
            ScheduleStatus::SufficientBalance,
            ScheduleStatus::InsufficientBalance,
            ScheduleStatus::SufficientBalance,
            ScheduleStatus::InsufficientBalance,
        ]
    );
    assert_eq!(state.account_states[&A].cumulative_reservations, 100);
}

#[test]
fn later_transactions_change_no_earlier_decision() {
    let withdraws = vec![
        withdraw(&[(A, amount(60))]),
        withdraw(&[(A, amount(60)), (B, amount(1))]),
        withdraw(&[(B, Reservation::EntireBalance)]),
    ];
    let mut all = state_with(&[(A, 100), (B, 5)]);
    let mut some = state_with(&[(A, 100), (B, 5)]);
    let statuses = all.schedule_transactions(&withdraws, 3);
    assert_eq!(some.schedule_transactions(&withdraws, 2), statuses[..2].to_vec());
    assert_eq!(statuses[2], ScheduleStatus::SufficientBalance);
}

#[test]
fn cleanup_drops_accounts_without_reservations() {
    let mut state = state_with(&[(A, 100), (B, 10), (C, 50)]);
    assert!(state.try_reserve_all(&withdraw(&[(A, amount(1))]).reservations));
    assert!(state.try_reserve_all(&withdraw(&[(B, amount(0))]).reservations));
    assert!(state.try_reserve_all(&withdraw(&[(C, Reservation::EntireBalance)]).reservations));
    state.cleanup_accounts();
    assert_eq!(state.account_states.keys().copied().collect::<Vec<_>>(), vec![A, C]);
    let counts = state.count_accounts();
    assert_eq!(counts.total, 2);
    assert_eq!(counts.with_reservations, 1);
    assert_eq!(counts.entire_balance_reserved, 1);
}

#[test]
fn balance_changes_settle_only_the_accounts_they_name() {
    let mut state = state_with(&[(A, 100), (B, 10)]);
    assert!(state.try_reserve_all(&withdraw(&[(A, amount(40)), (B, amount(5))]).reservations));
    let settlement = BalanceSettlement {
        accumulator_version: version(7),
        balance_changes: BTreeMap::from([(A, -40), (C, 3)]),
    };
    state.apply_balance_changes(&settlement);
    assert_eq!(state.account_states[&A], AccountState::new(60, version(7)));
    assert_eq!(state.account_states[&B].cumulative_reservations, 5);
    assert!(!state.account_states.contains_key(&C));
    assert_eq!(state.accounts_to_update(&settlement), vec![B]);
}

#[test]
fn accounts_to_update_come_in_the_order_of_their_ids() {
    let state = state_with(&[(C, 1), (B, 1), (A, 1), ((0, u128::MAX), 1)]);
    let settlement = BalanceSettlement {
        accumulator_version: version(2),
        balance_changes: BTreeMap::from([(B, 1)]),
    };
    assert_eq!(state.accounts_to_update(&settlement), vec![A, (0, u128::MAX), C]);
}

#[test]
fn refreshing_settles_a_tracked_account_and_no_other() {
    let mut state = state_with(&[(A, 100)]);
    assert!(state.try_reserve_all(&withdraw(&[(A, Reservation::EntireBalance)]).reservations));
    state.refresh_account(&A, 33, version(4));
    state.refresh_account(&B, 44, version(4));
    assert_eq!(state.account_states[&A], AccountState::new(33, version(4)));
    assert_eq!(state.account_states.len(), 1);
}

#[test]
fn changes_are_held_between_zero_and_the_largest_balance() {
    assert_eq!(change_balance(100, 50), 150);
    assert_eq!(change_balance(100, 0), 100);
    assert_eq!(change_balance(100, -40), 60);
    assert_eq!(change_balance(100, -101), 0);
    assert_eq!(change_balance(u64::MAX - 1, 5), u64::MAX);
    assert_eq!(change_balance(u64::MAX, i64::MIN as i128), (1 << 63) - 1);
}

#[test]
fn only_the_low_half_of_a_change_counts() {
    let modulus: i128 = 1 << 64;
    assert_eq!(change_balance(100, modulus), 100);
    assert_eq!(change_balance(100, modulus + 7), 107);
    assert_eq!(change_balance(100, modulus - 1), u64::MAX);
    assert_eq!(change_balance(100, -modulus), 100);
    assert_eq!(change_balance(100, -modulus - 7), 93);
    assert_eq!(change_balance(100, 1 - modulus), 0);
    assert_eq!(change_balance(100, i128::MIN), 100);
    assert_eq!(change_balance(0, i128::MAX), u64::MAX);
}

#[test]
fn granted_reservations_are_counted_by_kind() {
    let mut state = EagerSchedulerState::new(version(0));
    let withdraws = vec![
        withdraw(&[(A, amount(1)), (B, Reservation::EntireBalance), (C, amount(2))]),
        withdraw(&[(A, Reservation::EntireBalance)]),
        withdraw(&[(C, amount(0))]),
        withdraw(&[(C, amount(0))]),
    ];
    let statuses = vec![
        ScheduleStatus::SufficientBalance,
        ScheduleStatus::InsufficientBalance,
        ScheduleStatus::SufficientBalance,
    ];
    state.count_reservations(&withdraws, &statuses);
    assert_eq!(state.amount_reservations, 3);
    assert_eq!(state.entire_balance_reservations, 1);
    state.amount_reservations = u64::MAX - 1;
    state.count_reservations(&withdraws, &statuses);
    assert_eq!(state.amount_reservations, u64::MAX);
    assert_eq!(state.entire_balance_reservations, 2);
}

#[test]
fn a_refused_transaction_can_be_left_out() {
    let with = vec![
        withdraw(&[(A, amount(60))]),
        withdraw(&[(A, amount(40)), (B, amount(6))]),
        withdraw(&[(A, amount(40)), (B, Reservation::EntireBalance)]),
    ];
    let without = vec![with[0].clone(), with[2].clone()];
    let mut full = state_with(&[(A, 100), (B, 5)]);
    let mut rest = state_with(&[(A, 100), (B, 5)]);
    let mut statuses = full.schedule_transactions(&with, 3);
    assert_eq!(statuses.remove(1), ScheduleStatus::InsufficientBalance);
    assert_eq!(rest.schedule_transactions(&without, 2), statuses);
    assert_eq!(rest.account_states, full.account_states);
}
