use eager_scheduler::types::{
    BalanceSettlement, ObjectID, Reservation, ScheduleResult, ScheduleStatus, SequenceNumber,
    TransactionDigest, TxBalanceWithdraw, WithdrawReservations,
};
use eager_scheduler::{AccountBalanceRead, EagerBalanceWithdrawScheduler};
use std::collections::BTreeMap;
use std::sync::{Arc, Mutex};

const A: ObjectID = (0, 1);
const B: ObjectID = (0, 2);
const C: ObjectID = (0, 3);

/// Balances by account, and a record of what was read.
struct Balances {
    by_account: Mutex<BTreeMap<ObjectID, u64>>,
    reads: Mutex<Vec<(ObjectID, u64)>>,
}

impl Balances {
    fn new(balances: &[(ObjectID, u64)]) -> Arc<Balances> {
        Arc::new(Balances {
            by_account: Mutex::new(balances.iter().copied().collect()),
            reads: Mutex::new(Vec::new()),
        })
    }

    fn set(&self, id: ObjectID, balance: u64) {
        self.by_account.lock().unwrap().insert(id, balance);
    }

    fn take_reads(&self) -> Vec<(ObjectID, u64)> {
        std::mem::take(&mut *self.reads.lock().unwrap())
    }
}

impl AccountBalanceRead for Balances {
    fn get_account_balance(&self, account_id: &ObjectID, version: SequenceNumber) -> u64 {
        self.reads.lock().unwrap().push((*account_id, version.value()));
        self.by_account.lock().unwrap().get(account_id).copied().unwrap_or(0)
    }
}

fn version(value: u64) -> SequenceNumber {
    SequenceNumber::from_u64(value)
}

fn amount(value: u64) -> Reservation {
    Reservation::MaxAmountU64(value)
}

fn withdraw(name: u8, reservations: &[(ObjectID, Reservation)]) -> TxBalanceWithdraw {
    TxBalanceWithdraw {
        tx_digest: TransactionDigest([name; 32]),
        reservations: reservations.iter().copied().collect(),
    }
}

fn batch(at: u64, withdraws: Vec<TxBalanceWithdraw>) -> WithdrawReservations<usize> {
    let senders = (0..withdraws.len()).collect();
    WithdrawReservations { accumulator_version: version(at), withdraws, senders }
}

fn statuses(results: Vec<(usize, ScheduleResult)>) -> Vec<ScheduleStatus> {
    results.into_iter().map(|(_, result)| result.status).collect()
}

fn settlement(at: u64, changes: &[(ObjectID, i128)]) -> BalanceSettlement {
    BalanceSettlement {
        accumulator_version: version(at),
        balance_changes: changes.iter().copied().collect(),
    }
}

use ScheduleStatus::{AlreadyScheduled, InsufficientBalance, SufficientBalance};

#[test]
fn withdrawals_are_scheduled_while_the_balance_lasts() {
    let balances = Balances::new(&[(A, 100)]);
    let mut scheduler = EagerBalanceWithdrawScheduler::new(balances.clone(), version(0));
    let results = scheduler.schedule_withdraws(batch(
        1,
        vec![
            withdraw(1, &[(A, amount(60))]),
            withdraw(2, &[(A, amount(50))]),
            withdraw(3, &[(A, amount(40))]),
        ],
    ));
    assert_eq!(
        results,
        vec![
            (0, ScheduleResult { tx_digest: TransactionDigest([1; 32]), status: SufficientBalance }),
            (1, ScheduleResult { tx_digest: TransactionDigest([2; 32]), status: InsufficientBalance }),
            (2, ScheduleResult { tx_digest: TransactionDigest([3; 32]), status: SufficientBalance }),
        ]
    );
    assert_eq!(balances.take_reads(), vec![(A, 1)]);
}

#[test]
fn reservations_last_from_batch_to_batch() {
    let balances = Balances::new(&[(A, 100)]);
    let mut scheduler = EagerBalanceWithdrawScheduler::new(balances.clone(), version(0));
    let first = scheduler.schedule_withdraws(batch(1, vec![withdraw(1, &[(A, amount(80))])]));
    assert_eq!(statuses(first), vec![SufficientBalance]);
    // What the store says by now does not matter: the account is tracked.
    balances.set(A, 1000);
    let second = scheduler.schedule_withdraws(batch(
        2,
        vec![withdraw(2, &[(A, amount(30))]), withdraw(3, &[(A, amount(20))])],
    ));
    assert_eq!(statuses(second), vec![InsufficientBalance, SufficientBalance]);
    assert_eq!(balances.take_reads(), vec![(A, 1)]);
}

#[test]
fn a_transaction_is_all_or_nothing() {
    let balances = Balances::new(&[(A, 100), (B, 10)]);
    let mut scheduler = EagerBalanceWithdrawScheduler::new(balances, version(0));
    let results = scheduler.schedule_withdraws(batch(
        1,
        vec![
            withdraw(1, &[(A, amount(100)), (B, amount(11))]),
            withdraw(2, &[(A, amount(100)), (B, amount(10))]),
        ],
    ));
    assert_eq!(statuses(results), vec![InsufficientBalance, SufficientBalance]);
}

#[test]
fn a_batch_is_scheduled_once() {
    let balances = Balances::new(&[(A, 100)]);
    let mut scheduler = EagerBalanceWithdrawScheduler::new(balances.clone(), version(0));
    scheduler.schedule_withdraws(batch(3, vec![withdraw(1, &[(A, amount(60))])]));
    balances.take_reads();
    let again = scheduler.schedule_withdraws(batch(
        3,
        vec![withdraw(1, &[(A, amount(60))]), withdraw(2, &[(B, amount(0))])],
    ));
    assert_eq!(statuses(again), vec![AlreadyScheduled, AlreadyScheduled]);
    assert!(balances.take_reads().is_empty());
    // Nothing more was reserved.
    let next = scheduler.schedule_withdraws(batch(4, vec![withdraw(3, &[(A, amount(40))])]));
    assert_eq!(statuses(next), vec![SufficientBalance]);
}

#[test]
fn an_empty_batch_is_marked_too() {
    let mut scheduler = EagerBalanceWithdrawScheduler::new(Balances::new(&[]), version(0));
    assert!(scheduler.schedule_withdraws(batch(1, vec![])).is_empty());
    assert!(scheduler.is_already_scheduled(version(1)));
    assert!(!scheduler.is_already_scheduled(version(2)));
    let again = scheduler.schedule_withdraws(batch(1, vec![withdraw(1, &[])]));
    assert_eq!(statuses(again), vec![AlreadyScheduled]);
}

#[test]
fn a_settlement_forgets_earlier_batches_and_no_others() {
    let mut scheduler = EagerBalanceWithdrawScheduler::new(Balances::new(&[(A, 1)]), version(0));
    for at in [1, 2, 3] {
        scheduler.schedule_withdraws(batch(at, vec![]));
    }
    scheduler.settle_balances(&settlement(2, &[]));
    let mut status_at = |at: u64| statuses(scheduler.schedule_withdraws(batch(at, vec![withdraw(1, &[])])));
    assert_eq!(status_at(1), vec![SufficientBalance]);
    assert_eq!(status_at(2), vec![AlreadyScheduled]);
    assert_eq!(status_at(3), vec![AlreadyScheduled]);
}

#[test]
fn the_entire_balance_excludes_others_until_settlement() {
    let balances = Balances::new(&[(A, 100)]);
    let mut scheduler = EagerBalanceWithdrawScheduler::new(balances, version(0));
    let first = scheduler.schedule_withdraws(batch(
        1,
        vec![
            withdraw(1, &[(A, Reservation::EntireBalance)]),
            withdraw(2, &[(A, amount(1))]),
            withdraw(3, &[(A, Reservation::EntireBalance)]),
        ],
    ));
    assert_eq!(
        statuses(first),
        vec![SufficientBalance, InsufficientBalance, InsufficientBalance]
    );
    let second = scheduler.schedule_withdraws(batch(2, vec![withdraw(4, &[(A, amount(1))])]));
    assert_eq!(statuses(second), vec![InsufficientBalance]);
    scheduler.settle_balances(&settlement(2, &[(A, -100)]));
    let third = scheduler.schedule_withdraws(batch(3, vec![withdraw(5, &[(A, amount(1))])]));
    assert_eq!(statuses(third), vec![SufficientBalance]);
}

#[test]
fn after_a_settlement_balances_are_read_anew() {
    let balances = Balances::new(&[(A, 100), (B, 50)]);
    let mut scheduler = EagerBalanceWithdrawScheduler::new(balances.clone(), version(0));
    scheduler.schedule_withdraws(batch(
        1,
        vec![withdraw(1, &[(A, amount(80))]), withdraw(2, &[(B, amount(50))])],
    ));
    assert_eq!(balances.take_reads(), vec![(A, 1), (B, 1)]);
    // The settlement names A alone, so B is read at the settled version.
    scheduler.settle_balances(&settlement(2, &[(A, -80)]));
    assert_eq!(balances.take_reads(), vec![(B, 2)]);
    balances.set(A, 20);
    balances.set(B, 0);
    let results = scheduler.schedule_withdraws(batch(
        3,
        vec![
            withdraw(3, &[(A, amount(20))]),
            withdraw(4, &[(B, Reservation::EntireBalance)]),
            withdraw(5, &[(B, amount(0))]),
        ],
    ));
    assert_eq!(
        statuses(results),
        vec![SufficientBalance, InsufficientBalance, SufficientBalance]
    );
    assert_eq!(balances.take_reads(), vec![(A, 3), (B, 3)]);
}

#[test]
fn accounts_without_reservations_are_not_kept() {
    let balances = Balances::new(&[(A, 10), (B, 10)]);
    let mut scheduler = EagerBalanceWithdrawScheduler::new(balances.clone(), version(0));
    let first = scheduler.schedule_withdraws(batch(
        1,
        vec![withdraw(1, &[(A, amount(11))]), withdraw(2, &[(B, amount(4))])],
    ));
    assert_eq!(statuses(first), vec![InsufficientBalance, SufficientBalance]);
    balances.take_reads();
    balances.set(A, 11);
    let second = scheduler.schedule_withdraws(batch(
        2,
        vec![withdraw(3, &[(A, amount(11))]), withdraw(4, &[(B, amount(7))])],
    ));
    assert_eq!(statuses(second), vec![SufficientBalance, InsufficientBalance]);
    assert_eq!(balances.take_reads(), vec![(A, 2)]);
}

#[test]
fn a_batch_leaves_other_accounts_alone() {
    let balances = Balances::new(&[(A, 10), (B, 10)]);
    let mut scheduler = EagerBalanceWithdrawScheduler::new(balances, version(0));
    scheduler.schedule_withdraws(batch(1, vec![withdraw(1, &[(A, amount(6))])]));
    scheduler.schedule_withdraws(batch(2, vec![withdraw(2, &[(B, amount(10))])]));
    let third = scheduler.schedule_withdraws(batch(
        3,
        vec![withdraw(3, &[(A, amount(5))]), withdraw(4, &[(A, amount(4))])],
    ));
    assert_eq!(statuses(third), vec![InsufficientBalance, SufficientBalance]);
}

#[test]
fn withdrawals_without_a_sender_are_not_decided() {
    let balances = Balances::new(&[(A, 10), (B, 10), (C, 10)]);
    let mut scheduler = EagerBalanceWithdrawScheduler::new(balances.clone(), version(0));
    let results = scheduler.schedule_withdraws(WithdrawReservations {
        accumulator_version: version(1),
        withdraws: vec![withdraw(1, &[(A, amount(10))]), withdraw(2, &[(B, amount(10))])],
        senders: vec!["only"],
    });
    assert_eq!(results.len(), 1);
    assert_eq!(results[0].0, "only");
    assert_eq!(results[0].1.tx_digest, TransactionDigest([1; 32]));
    assert_eq!(balances.take_reads(), vec![(A, 1)]);

    let results = scheduler.schedule_withdraws(WithdrawReservations {
        accumulator_version: version(2),
        withdraws: vec![withdraw(3, &[(C, amount(10))])],
        senders: vec!["first", "second"],
    });
    assert_eq!(results.len(), 1);
    assert_eq!(results[0].0, "first");
    assert_eq!(results[0].1.status, SufficientBalance);
}

#[test]
fn accounts_are_read_in_order_and_once() {
    let balances = Balances::new(&[]);
    let mut scheduler = EagerBalanceWithdrawScheduler::new(balances.clone(), version(0));
    scheduler.schedule_withdraws(batch(
        6,
        vec![
            withdraw(1, &[(C, amount(1)), (B, amount(1))]),
            withdraw(2, &[(C, amount(1)), (A, amount(1))]),
        ],
    ));
    assert_eq!(balances.take_reads(), vec![(B, 6), (C, 6), (A, 6)]);
}

#[test]
fn the_first_load_of_an_account_wins() {
    let balances = Balances::new(&[(A, 10)]);
    let mut scheduler = EagerBalanceWithdrawScheduler::new(balances.clone(), version(0));
    scheduler.schedule_withdraws(batch(1, vec![withdraw(1, &[(A, amount(1))])]));
    balances.set(A, 1000);
    let second = scheduler.schedule_withdraws(batch(
        5,
        vec![withdraw(2, &[(A, amount(10))]), withdraw(3, &[(A, amount(9))])],
    ));
    assert_eq!(statuses(second), vec![InsufficientBalance, SufficientBalance]);
    assert_eq!(balances.take_reads(), vec![(A, 1)]);
}

#[test]
fn a_settlement_asks_once_for_each_account_that_it_does_not_name() {
    let balances = Balances::new(&[(A, 10), (B, 10), (C, 10)]);
    let mut scheduler = EagerBalanceWithdrawScheduler::new(balances.clone(), version(0));
    scheduler.schedule_withdraws(batch(
        1,
        vec![
            withdraw(1, &[(C, amount(1)), (A, amount(1))]),
            withdraw(2, &[(B, amount(1))]),
            withdraw(3, &[(C, amount(1))]),
        ],
    ));
    balances.take_reads();
    scheduler.settle_balances(&settlement(4, &[(B, -1), ((7, 7), 5)]));
    assert_eq!(balances.take_reads(), vec![(A, 4), (C, 4)]);
}

#[test]
fn batches_together_never_take_more_than_the_balance() {
    let balances = Balances::new(&[(A, 100)]);
    let mut scheduler = EagerBalanceWithdrawScheduler::new(balances, version(0));
    let mut granted = 0;
    for at in 1..8 {
        let results = scheduler.schedule_withdraws(batch(at, vec![withdraw(1, &[(A, amount(30))])]));
        if statuses(results) == vec![SufficientBalance] {
            granted += 30;
        }
    }
    assert_eq!(granted, 90);
    let last = scheduler.schedule_withdraws(batch(
        9,
        vec![withdraw(2, &[(A, amount(11))]), withdraw(3, &[(A, amount(10))])],
    ));
    assert_eq!(statuses(last), vec![InsufficientBalance, SufficientBalance]);
}
