//! Metrics for tracking scheduler performance and behavior.

use crate::account_state::AccountState;
use crate::families::{
    counter_desc, counter_values, counters_answered, gauge_desc, gauge_values, gauges_answered,
    inc_counter, increased, set_gauge, CounterFamily, GaugeFamily, Registrar,
};
use crate::model::{entire_balance_reserved, with_reservations};
use crate::state::{AccountCounts, EagerSchedulerState};
use crate::types::{ObjectID, ScheduleStatus};
use vstd::prelude::*;

verus! {

pub struct EagerSchedulerMetrics {
    /// Count of scheduling outcomes by status.
    pub schedule_outcome_counter: CounterFamily,
    /// Number of accounts currently being tracked.
    pub tracked_accounts_gauge: GaugeFamily,
    /// Number of active reservations by type: those granted since the last settlement.
    pub active_reservations_gauge: GaugeFamily,
    /// Count of settlements processed.
    pub settlements_processed_counter: CounterFamily,
}

/// The metric families of the scheduler.
#[derive(Clone, Copy, Debug, PartialEq, Eq, Structural)]
pub enum MetricFamily {
    ScheduleOutcome,
    TrackedAccounts,
    ActiveReservations,
    SettlementsProcessed,
}

/// A registry did not take a family.
#[derive(Clone, Copy, Debug, PartialEq, Eq, Structural)]
pub struct RegistrationError {
    pub family: MetricFamily,
}

/// What the metrics stand at, by label value.
#[verifier::ext_equal]
pub struct MetricsView {
    pub schedule_outcomes: Map<Seq<char>, u64>,
    pub tracked_accounts: Map<Seq<char>, i64>,
    pub active_reservations: Map<Seq<char>, i64>,
    pub settlements_processed: Map<Seq<char>, u64>,
}

/// The label value of an outcome.
pub open spec fn outcome_label_spec(status: ScheduleStatus) -> Seq<char> {
    match status {
        ScheduleStatus::SufficientBalance => "sufficient_balance"@,
        ScheduleStatus::InsufficientBalance => "insufficient_balance"@,
        ScheduleStatus::AlreadyScheduled => "already_scheduled"@,
    }
}

/// What a gauge shows of a count: the count itself, or the largest value that it can show.
pub open spec fn gauge_value_spec(count: u64) -> i64 {
    if count > i64::MAX {
        i64::MAX
    } else {
        count as i64
    }
}

/// What a gauge stands at. One that was never set stands at zero.
pub open spec fn gauge_at(values: Map<Seq<char>, i64>, label: Seq<char>) -> i64 {
    if values.contains_key(label) {
        values[label]
    } else {
        0
    }
}

impl MetricsView {
    /// Metrics of which nothing has been recorded.
    pub open spec fn fresh() -> MetricsView {
        MetricsView {
            schedule_outcomes: Map::empty(),
            tracked_accounts: Map::empty(),
            active_reservations: Map::empty(),
            settlements_processed: Map::empty(),
        }
    }

    /// The metrics once outcomes are counted.
    pub open spec fn with_outcomes(self, statuses: Seq<ScheduleStatus>) -> MetricsView
        decreases statuses.len(),
    {
        if statuses.len() == 0 {
            self
        } else {
            let earlier = self.with_outcomes(statuses.drop_last());
            MetricsView {
                schedule_outcomes: increased(
                    earlier.schedule_outcomes,
                    outcome_label_spec(statuses.last()),
                ),
                ..earlier
            }
        }
    }

    /// The metrics once the numbers of tracked accounts are set.
    pub open spec fn with_accounts(self, accounts: Map<ObjectID, AccountState>) -> MetricsView {
        MetricsView {
            tracked_accounts: self.tracked_accounts.insert(
                "total"@,
                accounts.len() as i64,
            ).insert(
                "with_reservations"@,
                with_reservations(accounts).len() as i64,
            ).insert("entire_balance_reserved"@, entire_balance_reserved(accounts).len() as i64),
            ..self
        }
    }

    /// The metrics once the numbers of active reservations are set.
    pub open spec fn with_active_reservations(self, amounts: u64, entire: u64) -> MetricsView {
        MetricsView {
            active_reservations: self.active_reservations.insert(
                "max_amount"@,
                gauge_value_spec(amounts),
            ).insert("entire_balance"@, gauge_value_spec(entire)),
            ..self
        }
    }

    /// The gauges of active reservations stand at these numbers, and there are no others.
    pub open spec fn shows_active_reservations(self, amounts: u64, entire: u64) -> bool {
        &&& gauge_at(self.active_reservations, "max_amount"@) == gauge_value_spec(amounts)
        &&& gauge_at(self.active_reservations, "entire_balance"@) == gauge_value_spec(entire)
        &&& forall|label: Seq<char>| #[trigger]
            self.active_reservations.contains_key(label) ==> label == "max_amount"@ || label
                == "entire_balance"@
    }

    /// The metrics once a settlement is counted.
    pub open spec fn with_settlement(self, has_changes: bool) -> MetricsView {
        let counted = increased(self.settlements_processed, "total"@);
        MetricsView {
            settlements_processed: if has_changes {
                increased(counted, "with_changes"@)
            } else {
                counted
            },
            ..self
        }
    }
}

/// The gauges of active reservations show what they are set to.
pub proof fn lemma_active_reservations_are_shown(metrics: MetricsView, amounts: u64, entire: u64)
    requires
        forall|label: Seq<char>| #[trigger]
            metrics.active_reservations.contains_key(label) ==> label == "max_amount"@ || label
                == "entire_balance"@,
    ensures
        metrics.with_active_reservations(amounts, entire).shows_active_reservations(
            amounts,
            entire,
        ),
{
    reveal_strlit("max_amount");
    reveal_strlit("entire_balance");
    assert("max_amount"@.len() != "entire_balance"@.len());
}

/// Counting outcomes changes no other metric.
pub proof fn lemma_outcomes_alone_change(metrics: MetricsView, statuses: Seq<ScheduleStatus>)
    ensures
        metrics.with_outcomes(statuses) == (MetricsView {
            schedule_outcomes: metrics.with_outcomes(statuses).schedule_outcomes,
            ..metrics
        }),
    decreases statuses.len(),
{
    if statuses.len() > 0 {
        lemma_outcomes_alone_change(metrics, statuses.drop_last());
    }
}

impl View for EagerSchedulerMetrics {
    type V = MetricsView;

    open spec fn view(&self) -> MetricsView {
        MetricsView {
            schedule_outcomes: counter_values(self.schedule_outcome_counter),
            tracked_accounts: gauge_values(self.tracked_accounts_gauge),
            active_reservations: gauge_values(self.active_reservations_gauge),
            settlements_processed: counter_values(self.settlements_processed_counter),
        }
    }
}

/// The label value of an outcome.
pub fn outcome_label(status: ScheduleStatus) -> (label: &'static str)
    ensures
        label@ == outcome_label_spec(status),
{
    match status {
        ScheduleStatus::SufficientBalance => "sufficient_balance",
        ScheduleStatus::InsufficientBalance => "insufficient_balance",
        ScheduleStatus::AlreadyScheduled => "already_scheduled",
    }
}

/// What a gauge shows of a count: the count itself, or the largest value that it can show.
pub fn gauge_value(count: u64) -> (value: i64)
    ensures
        value == gauge_value_spec(count),
{
    if count > i64::MAX as u64 {
        i64::MAX
    } else {
        count as i64
    }
}

/// A family that the registry has taken, or the error that says which one it has not.
pub fn registered<T>(family: MetricFamily, answer: Result<T, prometheus::Error>) -> (result: Result<
    T,
    RegistrationError,
>)
    ensures
        result == match answer {
            Ok(taken) => Ok(taken),
            Err(_) => Err(RegistrationError { family }),
        },
{
    match answer {
        Ok(taken) => Ok(taken),
        Err(_) => Err(RegistrationError { family }),
    }
}

/// The answer is one that the registry gave when it was asked to take the outcome counters.
pub open spec fn outcomes_answered(
    registry: &prometheus::Registry,
    answer: Result<CounterFamily, prometheus::Error>,
) -> bool {
    counters_answered(
        registry,
        "eager_scheduler_schedule_outcome",
        "Count of scheduling outcomes by status",
        "status",
        answer,
    )
}

/// The answer is one that the registry gave when it was asked to take the gauges of tracked
/// accounts.
pub open spec fn accounts_answered(
    registry: &prometheus::Registry,
    answer: Result<GaugeFamily, prometheus::Error>,
) -> bool {
    gauges_answered(
        registry,
        "eager_scheduler_tracked_accounts",
        "Number of accounts currently being tracked",
        "type",
        answer,
    )
}

/// The answer is one that the registry gave when it was asked to take the gauges of active
/// reservations.
pub open spec fn reservations_answered(
    registry: &prometheus::Registry,
    answer: Result<GaugeFamily, prometheus::Error>,
) -> bool {
    gauges_answered(
        registry,
        "eager_scheduler_active_reservations",
        "Number of active reservations by type",
        "type",
        answer,
    )
}

/// The answer is one that the registry gave when it was asked to take the settlement counters.
pub open spec fn settlements_answered(
    registry: &prometheus::Registry,
    answer: Result<CounterFamily, prometheus::Error>,
) -> bool {
    counters_answered(
        registry,
        "eager_scheduler_settlements_processed",
        "Count of settlements processed",
        "type",
        answer,
    )
}

/// The registry, when it was asked to, took the family.
pub open spec fn took(registry: &prometheus::Registry, family: MetricFamily) -> bool {
    match family {
        MetricFamily::ScheduleOutcome => exists|answer: Result<CounterFamily, prometheus::Error>|
            #[trigger] outcomes_answered(registry, answer) && answer is Ok,
        MetricFamily::TrackedAccounts => exists|answer: Result<GaugeFamily, prometheus::Error>|
            #[trigger] accounts_answered(registry, answer) && answer is Ok,
        MetricFamily::ActiveReservations => exists|answer: Result<GaugeFamily, prometheus::Error>|
            #[trigger] reservations_answered(registry, answer) && answer is Ok,
        MetricFamily::SettlementsProcessed => exists|
            answer: Result<CounterFamily, prometheus::Error>,
        | #[trigger]
            settlements_answered(registry, answer) && answer is Ok,
    }
}

/// The registry, when it was asked to, did not take the family.
pub open spec fn refused(registry: &prometheus::Registry, family: MetricFamily) -> bool {
    match family {
        MetricFamily::ScheduleOutcome => exists|answer: Result<CounterFamily, prometheus::Error>|
            #[trigger] outcomes_answered(registry, answer) && answer is Err,
        MetricFamily::TrackedAccounts => exists|answer: Result<GaugeFamily, prometheus::Error>|
            #[trigger] accounts_answered(registry, answer) && answer is Err,
        MetricFamily::ActiveReservations => exists|answer: Result<GaugeFamily, prometheus::Error>|
            #[trigger] reservations_answered(registry, answer) && answer is Err,
        MetricFamily::SettlementsProcessed => exists|
            answer: Result<CounterFamily, prometheus::Error>,
        | #[trigger]
            settlements_answered(registry, answer) && answer is Err,
    }
}

/// The names of the families, in the order in which they are registered.
pub open spec fn family_names() -> Seq<Seq<char>> {
    seq![
        "eager_scheduler_schedule_outcome"@,
        "eager_scheduler_tracked_accounts"@,
        "eager_scheduler_active_reservations"@,
        "eager_scheduler_settlements_processed"@,
    ]
}

/// The place of a family in the order of registration, counted from one.
pub open spec fn place(family: MetricFamily) -> int {
    match family {
        MetricFamily::ScheduleOutcome => 1,
        MetricFamily::TrackedAccounts => 2,
        MetricFamily::ActiveReservations => 3,
        MetricFamily::SettlementsProcessed => 4,
    }
}

/// The registry refused the family, having taken every one that is registered before it.
pub open spec fn refused_first(registry: &prometheus::Registry, family: MetricFamily) -> bool {
    &&& refused(registry, family)
    &&& family != MetricFamily::ScheduleOutcome ==> took(registry, MetricFamily::ScheduleOutcome)
    &&& family == MetricFamily::ActiveReservations || family == MetricFamily::SettlementsProcessed
        ==> took(registry, MetricFamily::TrackedAccounts)
    &&& family == MetricFamily::SettlementsProcessed ==> took(
        registry,
        MetricFamily::ActiveReservations,
    )
}

impl EagerSchedulerMetrics {
    /// Each family is the one that the registry took.
    pub open spec fn taken_by(self, registry: &prometheus::Registry) -> bool {
        &&& outcomes_answered(registry, Ok(self.schedule_outcome_counter))
        &&& accounts_answered(registry, Ok(self.tracked_accounts_gauge))
        &&& reservations_answered(registry, Ok(self.active_reservations_gauge))
        &&& settlements_answered(registry, Ok(self.settlements_processed_counter))
    }

    /// Each family has its name, its help text and its label.
    pub open spec fn wf(self) -> bool {
        &&& counter_desc(self.schedule_outcome_counter) == (
            "eager_scheduler_schedule_outcome"@,
            "Count of scheduling outcomes by status"@,
            seq!["status"@],
        )
        &&& gauge_desc(self.tracked_accounts_gauge) == (
            "eager_scheduler_tracked_accounts"@,
            "Number of accounts currently being tracked"@,
            seq!["type"@],
        )
        &&& gauge_desc(self.active_reservations_gauge) == (
            "eager_scheduler_active_reservations"@,
            "Number of active reservations by type"@,
            seq!["type"@],
        )
        &&& counter_desc(self.settlements_processed_counter) == (
            "eager_scheduler_settlements_processed"@,
            "Count of settlements processed"@,
            seq!["type"@],
        )
    }

    /// Make the families and register them with `registry`. It fails where the registry refuses
    /// one, and nowhere else: the error names that family.
    pub fn new(registry: &prometheus::Registry) -> (result: Result<
        EagerSchedulerMetrics,
        RegistrationError,
    >)
        ensures
            result matches Ok(metrics) ==> {
                &&& metrics.wf()
                &&& metrics@ == MetricsView::fresh()
                &&& metrics.taken_by(registry)
            },
            result matches Err(error) ==> refused_first(registry, error.family),
    {
        let mut registrar = Registrar::new(registry);
        EagerSchedulerMetrics::register_with(&mut registrar)
    }

    /// Make the families and offer them to the registry, each once and one after the other, until
    /// it refuses one. The error names that family.
    pub fn register_with(registrar: &mut Registrar) -> (result: Result<
        EagerSchedulerMetrics,
        RegistrationError,
    >)
        ensures
            final(registrar).registry() == old(registrar).registry(),
            final(registrar).offers() == old(registrar).offers() + family_names().take(
                match result {
                    Ok(_) => 4,
                    Err(error) => place(error.family),
                },
            ),
            result matches Ok(metrics) ==> {
                &&& metrics.wf()
                &&& metrics@ == MetricsView::fresh()
                &&& metrics.taken_by(old(registrar).registry())
            },
            result matches Err(error) ==> refused_first(
                old(registrar).registry(),
                error.family,
            ),
    {
        let ghost registry = registrar.registry();
        let ghost offers = registrar.offers();
        proof {
            reveal_strlit("status");
            reveal_strlit("type");
            reveal_strlit("eager_scheduler_schedule_outcome");
            reveal_strlit("Count of scheduling outcomes by status");
            reveal_strlit("eager_scheduler_tracked_accounts");
            reveal_strlit("Number of accounts currently being tracked");
            reveal_strlit("eager_scheduler_active_reservations");
            reveal_strlit("Number of active reservations by type");
            reveal_strlit("eager_scheduler_settlements_processed");
            reveal_strlit("Count of settlements processed");
        }
        let outcomes = registrar.offer_counters(
            "eager_scheduler_schedule_outcome",
            "Count of scheduling outcomes by status",
            "status",
        );
        assert(outcomes_answered(registry, outcomes));
        assert(registrar.offers() =~= offers + family_names().take(1));
        let schedule_outcome_counter = registered(MetricFamily::ScheduleOutcome, outcomes)?;
        let accounts = registrar.offer_gauges(
            "eager_scheduler_tracked_accounts",
            "Number of accounts currently being tracked",
            "type",
        );
        assert(accounts_answered(registry, accounts));
        assert(registrar.offers() =~= offers + family_names().take(2));
        let tracked_accounts_gauge = registered(MetricFamily::TrackedAccounts, accounts)?;
        let reservations = registrar.offer_gauges(
            "eager_scheduler_active_reservations",
            "Number of active reservations by type",
            "type",
        );
        assert(reservations_answered(registry, reservations));
        assert(registrar.offers() =~= offers + family_names().take(3));
        let active_reservations_gauge = registered(MetricFamily::ActiveReservations, reservations)?;
        let settlements = registrar.offer_counters(
            "eager_scheduler_settlements_processed",
            "Count of settlements processed",
            "type",
        );
        assert(settlements_answered(registry, settlements));
        assert(registrar.offers() =~= offers + family_names().take(4));
        let settlements_processed_counter = registered(
            MetricFamily::SettlementsProcessed,
            settlements,
        )?;
        Ok(
            EagerSchedulerMetrics {
                schedule_outcome_counter,
                tracked_accounts_gauge,
                active_reservations_gauge,
                settlements_processed_counter,
            },
        )
    }

    /// Count the outcomes of a batch.
    pub fn record_outcomes(&mut self, statuses: &Vec<ScheduleStatus>)
        requires
            old(self).wf(),
        ensures
            final(self).wf(),
            final(self)@ == old(self)@.with_outcomes(statuses@),
    {
        for k in 0..statuses.len()
            invariant
                self.wf(),
                self@ == old(self)@.with_outcomes(statuses@.take(k as int)),
        {
            assert(statuses@.take(k + 1).drop_last() =~= statuses@.take(k as int));
            inc_counter(&mut self.schedule_outcome_counter, outcome_label(statuses[k]));
        }
        assert(statuses@.take(statuses@.len() as int) =~= statuses@);
    }

    /// Set the numbers of tracked accounts.
    pub fn record_accounts(&mut self, state: &EagerSchedulerState)
        requires
            old(self).wf(),
        ensures
            final(self).wf(),
            final(self)@ == old(self)@.with_accounts(state@.accounts),
    {
        let counts: AccountCounts = state.count_accounts();
        set_gauge(&mut self.tracked_accounts_gauge, "total", counts.total as i64);
        set_gauge(
            &mut self.tracked_accounts_gauge,
            "with_reservations",
            counts.with_reservations as i64,
        );
        set_gauge(
            &mut self.tracked_accounts_gauge,
            "entire_balance_reserved",
            counts.entire_balance_reserved as i64,
        );
    }

    /// Set the numbers of active reservations: of amounts, and of entire balances.
    pub fn record_active_reservations(&mut self, amounts: u64, entire: u64)
        requires
            old(self).wf(),
        ensures
            final(self).wf(),
            final(self)@ == old(self)@.with_active_reservations(amounts, entire),
    {
        set_gauge(&mut self.active_reservations_gauge, "max_amount", gauge_value(amounts));
        set_gauge(&mut self.active_reservations_gauge, "entire_balance", gauge_value(entire));
    }

    /// Count a settlement, with or without balance changes.
    pub fn record_settlement(&mut self, has_changes: bool)
        requires
            old(self).wf(),
        ensures
            final(self).wf(),
            final(self)@ == old(self)@.with_settlement(has_changes),
    {
        inc_counter(&mut self.settlements_processed_counter, "total");
        if has_changes {
            inc_counter(&mut self.settlements_processed_counter, "with_changes");
        }
    }
}

} // verus!
