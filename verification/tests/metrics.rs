use eager_scheduler::families::Registrar;
use eager_scheduler::metrics::{
    gauge_value, outcome_label, registered, MetricFamily, RegistrationError,
};
use eager_scheduler::state::EagerSchedulerState;
use eager_scheduler::types::{
    BalanceSettlement, ObjectID, Reservation, ScheduleStatus, SequenceNumber, TransactionDigest,
    TxBalanceWithdraw, WithdrawReservations,
};
use eager_scheduler::{AccountBalanceRead, EagerBalanceWithdrawScheduler, EagerSchedulerMetrics};
use prometheus::Registry;
use std::collections::BTreeMap;
use std::sync::Arc;

const A: ObjectID = (0, 1);
const B: ObjectID = (0, 2);
const C: ObjectID = (0, 3);

struct Hundred;

impl AccountBalanceRead for Hundred {
    fn get_account_balance(&self, _account_id: &ObjectID, _version: SequenceNumber) -> u64 {
        100
    }
}

/// What the registry exports of a family, by label value.
fn exported(registry: &Registry, name: &str) -> BTreeMap<String, i64> {
    let mut values = BTreeMap::new();
    for family in registry.gather() {
        if family.get_name() != name {
            continue;
        }
        for metric in family.get_metric() {
            assert_eq!(metric.get_label().len(), 1);
            let label = metric.get_label()[0].get_value().to_string();
            let value = if metric.has_counter() {
                metric.get_counter().get_value()
            } else {
                metric.get_gauge().get_value()
            };
            values.insert(label, value as i64);
        }
    }
    values
}

fn values(expected: &[(&str, i64)]) -> BTreeMap<String, i64> {
    expected.iter().map(|(label, value)| (label.to_string(), *value)).collect()
}

fn batch(at: u64, reservations: &[(ObjectID, Reservation)]) -> WithdrawReservations<()> {
    WithdrawReservations {
        accumulator_version: SequenceNumber::from_u64(at),
        withdraws: reservations
            .iter()
            .map(|(id, reservation)| TxBalanceWithdraw {
                tx_digest: TransactionDigest([0; 32]),
                reservations: BTreeMap::from([(*id, *reservation)]),
            })
            .collect(),
        senders: vec![(); reservations.len()],
    }
}

#[test]
fn a_registry_takes_the_families_once() {
    let registry = Registry::new();
    assert!(EagerSchedulerMetrics::new(&registry).is_ok());
    let refused = EagerSchedulerMetrics::new(&registry).err();
    assert_eq!(refused, Some(RegistrationError { family: MetricFamily::ScheduleOutcome }));
    let again = EagerBalanceWithdrawScheduler::new_with_metrics(
        Arc::new(Hundred),
        SequenceNumber::from_u64(0),
        &registry,
    );
    assert!(again.is_err());
}

#[test]
fn the_refused_family_is_named() {
    let registry = Registry::new();
    let name = "eager_scheduler_active_reservations";
    let opts = prometheus::Opts::new(name, "Number of active reservations by type");
    let gauges = prometheus::IntGaugeVec::new(opts, &["type"]).unwrap();
    registry.register(Box::new(gauges)).unwrap();
    let refused = EagerSchedulerMetrics::new(&registry).err();
    assert_eq!(refused, Some(RegistrationError { family: MetricFamily::ActiveReservations }));
}

fn counters(name: &str, help: &str, label: &str) -> Box<prometheus::IntCounterVec> {
    let opts = prometheus::Opts::new(name, help);
    Box::new(prometheus::IntCounterVec::new(opts, &[label]).unwrap())
}

#[test]
fn families_are_offered_in_order_until_one_is_refused() {
    let registry = Registry::new();
    let name = "eager_scheduler_active_reservations";
    let opts = prometheus::Opts::new(name, "Number of active reservations by type");
    let gauges = prometheus::IntGaugeVec::new(opts, &["type"]).unwrap();
    registry.register(Box::new(gauges)).unwrap();
    let mut registrar = Registrar::new(&registry);
    let refused = EagerSchedulerMetrics::register_with(&mut registrar).err();
    assert_eq!(refused, Some(RegistrationError { family: MetricFamily::ActiveReservations }));
    // The first family was taken, and the last was never offered.
    let first = counters(
        "eager_scheduler_schedule_outcome",
        "Count of scheduling outcomes by status",
        "status",
    );
    assert!(registry.register(first).is_err());
    let last = counters(
        "eager_scheduler_settlements_processed",
        "Count of settlements processed",
        "type",
    );
    assert!(registry.register(last).is_ok());
}

#[test]
fn every_family_can_be_the_refused_one() {
    let error = || prometheus::Error::AlreadyReg;
    for family in [
        MetricFamily::ScheduleOutcome,
        MetricFamily::TrackedAccounts,
        MetricFamily::ActiveReservations,
        MetricFamily::SettlementsProcessed,
    ] {
        assert_eq!(registered::<u8>(family, Err(error())), Err(RegistrationError { family }));
        assert_eq!(registered(family, Ok(5)), Ok(5));
    }
}

#[test]
fn outcomes_are_counted_under_their_labels() {
    assert_eq!(outcome_label(ScheduleStatus::SufficientBalance), "sufficient_balance");
    assert_eq!(outcome_label(ScheduleStatus::InsufficientBalance), "insufficient_balance");
    assert_eq!(outcome_label(ScheduleStatus::AlreadyScheduled), "already_scheduled");

    let registry = Registry::new();
    let mut metrics = EagerSchedulerMetrics::new(&registry).unwrap();
    metrics.record_outcomes(&vec![
        ScheduleStatus::SufficientBalance,
        ScheduleStatus::AlreadyScheduled,
        ScheduleStatus::SufficientBalance,
    ]);
    assert_eq!(
        exported(&registry, "eager_scheduler_schedule_outcome"),
        values(&[("already_scheduled", 1), ("sufficient_balance", 2)])
    );
    metrics.record_outcomes(&vec![ScheduleStatus::InsufficientBalance]);
    assert_eq!(
        exported(&registry, "eager_scheduler_schedule_outcome"),
        values(&[("already_scheduled", 1), ("insufficient_balance", 1), ("sufficient_balance", 2)])
    );
}

#[test]
fn tracked_accounts_are_counted_by_kind() {
    let registry = Registry::new();
    let mut metrics = EagerSchedulerMetrics::new(&registry).unwrap();
    let mut state = EagerSchedulerState::new(SequenceNumber::from_u64(0));
    for id in [A, B, C] {
        state.load_account(&id, 10, SequenceNumber::from_u64(1));
    }
    assert!(state.try_reserve_all(&BTreeMap::from([
        (A, Reservation::MaxAmountU64(1)),
        (C, Reservation::EntireBalance),
    ])));
    metrics.record_accounts(&state);
    assert_eq!(
        exported(&registry, "eager_scheduler_tracked_accounts"),
        values(&[("entire_balance_reserved", 1), ("total", 3), ("with_reservations", 1)])
    );
}

#[test]
fn settlements_are_counted_with_and_without_changes() {
    let registry = Registry::new();
    let mut metrics = EagerSchedulerMetrics::new(&registry).unwrap();
    metrics.record_settlement(false);
    assert_eq!(
        exported(&registry, "eager_scheduler_settlements_processed"),
        values(&[("total", 1)])
    );
    metrics.record_settlement(true);
    assert_eq!(
        exported(&registry, "eager_scheduler_settlements_processed"),
        values(&[("total", 2), ("with_changes", 1)])
    );
}

#[test]
fn a_scheduler_reports_what_it_does() {
    let registry = Registry::new();
    let mut scheduler = EagerBalanceWithdrawScheduler::new_with_metrics(
        Arc::new(Hundred),
        SequenceNumber::from_u64(0),
        &registry,
    )
    .ok()
    .unwrap();
    let reservations = [
        (A, Reservation::MaxAmountU64(60)),
        (A, Reservation::MaxAmountU64(60)),
        (B, Reservation::EntireBalance),
        (C, Reservation::MaxAmountU64(101)),
    ];
    scheduler.schedule_withdraws(batch(1, &reservations));
    assert_eq!(
        exported(&registry, "eager_scheduler_schedule_outcome"),
        values(&[("insufficient_balance", 2), ("sufficient_balance", 2)])
    );
    assert_eq!(
        exported(&registry, "eager_scheduler_tracked_accounts"),
        values(&[("entire_balance_reserved", 1), ("total", 2), ("with_reservations", 1)])
    );

    scheduler.schedule_withdraws(batch(1, &reservations));
    assert_eq!(
        exported(&registry, "eager_scheduler_schedule_outcome"),
        values(&[("already_scheduled", 4), ("insufficient_balance", 2), ("sufficient_balance", 2)])
    );

    scheduler.settle_balances(&BalanceSettlement {
        accumulator_version: SequenceNumber::from_u64(1),
        balance_changes: BTreeMap::from([(A, -60)]),
    });
    assert_eq!(
        exported(&registry, "eager_scheduler_settlements_processed"),
        values(&[("total", 1), ("with_changes", 1)])
    );
    assert_eq!(
        exported(&registry, "eager_scheduler_tracked_accounts"),
        values(&[("entire_balance_reserved", 0), ("total", 0), ("with_reservations", 0)])
    );
    assert_eq!(
        exported(&registry, "eager_scheduler_active_reservations"),
        values(&[("entire_balance", 0), ("max_amount", 0)])
    );
}

fn scheduler_with_metrics(registry: &Registry) -> EagerBalanceWithdrawScheduler<Hundred> {
    EagerBalanceWithdrawScheduler::new_with_metrics(
        Arc::new(Hundred),
        SequenceNumber::from_u64(0),
        registry,
    )
    .ok()
    .unwrap()
}

#[test]
fn one_granted_reservation_is_one_active_reservation() {
    let registry = Registry::new();
    let mut scheduler = scheduler_with_metrics(&registry);
    assert!(exported(&registry, "eager_scheduler_active_reservations").is_empty());
    let results = scheduler.schedule_withdraws(batch(1, &[(A, Reservation::MaxAmountU64(60))]));
    assert_eq!(results[0].1.status, ScheduleStatus::SufficientBalance);
    let samples = exported(&registry, "eager_scheduler_active_reservations");
    assert_eq!(samples.values().sum::<i64>(), 1);
    assert_eq!(samples, values(&[("entire_balance", 0), ("max_amount", 1)]));
}

#[test]
fn active_reservations_are_those_granted_since_the_last_settlement() {
    let registry = Registry::new();
    let mut scheduler = scheduler_with_metrics(&registry);
    let active = || exported(&registry, "eager_scheduler_active_reservations");
    let first = [
        (A, Reservation::MaxAmountU64(60)),
        (A, Reservation::MaxAmountU64(60)),
        (B, Reservation::EntireBalance),
        (A, Reservation::MaxAmountU64(0)),
        (B, Reservation::EntireBalance),
    ];
    scheduler.schedule_withdraws(batch(1, &first));
    assert_eq!(active(), values(&[("entire_balance", 1), ("max_amount", 2)]));

    // The same batch once more reserves nothing.
    scheduler.schedule_withdraws(batch(1, &first));
    assert_eq!(active(), values(&[("entire_balance", 1), ("max_amount", 2)]));

    // A refused transaction adds none of its reservations, a granted one adds all.
    scheduler.schedule_withdraws(WithdrawReservations {
        accumulator_version: SequenceNumber::from_u64(2),
        withdraws: vec![
            TxBalanceWithdraw {
                tx_digest: TransactionDigest([1; 32]),
                reservations: BTreeMap::from([
                    (A, Reservation::MaxAmountU64(1)),
                    (B, Reservation::MaxAmountU64(1)),
                ]),
            },
            TxBalanceWithdraw {
                tx_digest: TransactionDigest([2; 32]),
                reservations: BTreeMap::from([
                    (A, Reservation::MaxAmountU64(40)),
                    (C, Reservation::EntireBalance),
                ]),
            },
        ],
        senders: vec![(), ()],
    });
    assert_eq!(active(), values(&[("entire_balance", 2), ("max_amount", 3)]));

    scheduler.settle_balances(&BalanceSettlement {
        accumulator_version: SequenceNumber::from_u64(2),
        balance_changes: BTreeMap::new(),
    });
    assert_eq!(active(), values(&[("entire_balance", 0), ("max_amount", 0)]));
    scheduler.schedule_withdraws(batch(3, &[(C, Reservation::MaxAmountU64(1))]));
    assert_eq!(active(), values(&[("entire_balance", 0), ("max_amount", 1)]));
}

#[test]
fn active_reservations_are_set_by_kind() {
    let registry = Registry::new();
    let mut metrics = EagerSchedulerMetrics::new(&registry).unwrap();
    metrics.record_active_reservations(7, 3);
    assert_eq!(
        exported(&registry, "eager_scheduler_active_reservations"),
        values(&[("entire_balance", 3), ("max_amount", 7)])
    );
}

#[test]
fn a_gauge_shows_counts_up_to_its_largest_value() {
    assert_eq!(gauge_value(0), 0);
    assert_eq!(gauge_value(i64::MAX as u64), i64::MAX);
    assert_eq!(gauge_value(i64::MAX as u64 + 1), i64::MAX);
    assert_eq!(gauge_value(u64::MAX), i64::MAX);
}
