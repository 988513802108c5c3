//! What each metric stands at, said of labels, numbers and names.

use crate::account_state::AccountState;
use crate::families::{
    counter_desc, counter_values, counters_answered, gauge_desc, gauge_values, gauges_answered,
    increased, CounterFamily, GaugeFamily,
};
use crate::laws::{occurrences, outcome_count};
use crate::metrics::{
    accounts_answered, family_names, gauge_at, gauge_value_spec, outcome_label_spec,
    outcomes_answered, place, refused, refused_first, reservations_answered, settlements_answered,
    took, EagerSchedulerMetrics, MetricFamily, MetricsView,
};
use crate::types::{ObjectID, ScheduleStatus};
use vstd::prelude::*;

verus! {

/// The label under which each outcome is counted.
pub proof fn law_outcome_labels(status: ScheduleStatus)
    ensures
        status is SufficientBalance ==> outcome_label_spec(status) == "sufficient_balance"@,
        status is InsufficientBalance ==> outcome_label_spec(status) == "insufficient_balance"@,
        status is AlreadyScheduled ==> outcome_label_spec(status) == "already_scheduled"@,
{
}

/// Increasing a counter adds one to it, or makes it with one, or wraps it to zero at 2^64. The
/// other counters of the family stay as they are.
pub proof fn law_increase_adds_one(values: Map<Seq<char>, u64>, label: Seq<char>)
    ensures
        increased(values, label).dom() == values.dom().insert(label),
        !values.contains_key(label) ==> increased(values, label)[label] == 1,
        values.contains_key(label) && values[label] < u64::MAX ==> increased(values, label)[label]
            == values[label] + 1,
        values.contains_key(label) && values[label] == u64::MAX ==> increased(values, label)[label]
            == 0,
        forall|other: Seq<char>|
            other != label && #[trigger] values.contains_key(other) ==> increased(
                values,
                label,
            )[other] == values[other],
{
    assert(increased(values, label).dom() =~= values.dom().insert(label));
}

/// No outcome changes no metric, and each further outcome adds one to the counter under its label
/// and changes nothing else.
pub proof fn law_each_outcome_is_counted_once(
    metrics: MetricsView,
    statuses: Seq<ScheduleStatus>,
    status: ScheduleStatus,
)
    ensures
        metrics.with_outcomes(Seq::empty()) == metrics,
        metrics.with_outcomes(statuses.push(status)) == (MetricsView {
            schedule_outcomes: increased(
                metrics.with_outcomes(statuses).schedule_outcomes,
                outcome_label_spec(status),
            ),
            ..metrics.with_outcomes(statuses)
        }),
{
    assert(statuses.push(status).drop_last() =~= statuses);
}

/// How often an outcome occurs grows by one with each that is equal to it, and the count of an
/// outcome is the number under its label.
pub proof fn law_occurrences_and_counts(
    metrics: MetricsView,
    statuses: Seq<ScheduleStatus>,
    last: ScheduleStatus,
    status: ScheduleStatus,
)
    ensures
        occurrences(Seq::empty(), status) == 0,
        last == status ==> occurrences(statuses.push(last), status) == occurrences(statuses, status)
            + 1,
        last != status ==> occurrences(statuses.push(last), status) == occurrences(
            statuses,
            status,
        ),
        metrics.schedule_outcomes.contains_key(outcome_label_spec(status)) ==> outcome_count(
            metrics,
            status,
        ) == metrics.schedule_outcomes[outcome_label_spec(status)],
        !metrics.schedule_outcomes.contains_key(outcome_label_spec(status)) ==> outcome_count(
            metrics,
            status,
        ) == 0,
{
    assert(statuses.push(last).drop_last() =~= statuses);
}

/// The gauges of tracked accounts are set to the number of all of them, of those with reserved
/// amounts and of those whose entire balance is reserved. Nothing else changes.
pub proof fn law_tracked_accounts_are_shown(
    metrics: MetricsView,
    accounts: Map<ObjectID, AccountState>,
)
    ensures
        ({
            let shown = metrics.with_accounts(accounts);
            let with_amounts = accounts.dom().filter(
                |id: ObjectID| accounts[id].cumulative_reservations > 0,
            );
            let in_full = accounts.dom().filter(
                |id: ObjectID| accounts[id].entire_balance_reserved,
            );
            &&& shown.tracked_accounts["total"@] == accounts.dom().len() as i64
            &&& shown.tracked_accounts["with_reservations"@] == with_amounts.len() as i64
            &&& shown.tracked_accounts["entire_balance_reserved"@] == in_full.len() as i64
            &&& shown.tracked_accounts.dom() == metrics.tracked_accounts.dom().insert(
                "total"@,
            ).insert("with_reservations"@).insert("entire_balance_reserved"@)
            &&& forall|label: Seq<char>| #[trigger]
                metrics.tracked_accounts.contains_key(label) && label != "total"@ && label
                    != "with_reservations"@ && label != "entire_balance_reserved"@
                    ==> shown.tracked_accounts[label] == metrics.tracked_accounts[label]
            &&& shown.schedule_outcomes == metrics.schedule_outcomes
            &&& shown.active_reservations == metrics.active_reservations
            &&& shown.settlements_processed == metrics.settlements_processed
        }),
{
    reveal_strlit("total");
    reveal_strlit("with_reservations");
    reveal_strlit("entire_balance_reserved");
    assert("total"@.len() != "with_reservations"@.len());
    assert("total"@.len() != "entire_balance_reserved"@.len());
    assert("with_reservations"@.len() != "entire_balance_reserved"@.len());
    let with_amounts = accounts.dom().filter(
        |id: ObjectID| accounts[id].cumulative_reservations > 0,
    );
    let in_full = accounts.dom().filter(|id: ObjectID| accounts[id].entire_balance_reserved);
    assert(with_amounts =~= crate::model::with_reservations(accounts));
    assert(in_full =~= crate::model::entire_balance_reserved(accounts));
    assert(metrics.with_accounts(accounts).tracked_accounts.dom()
        =~= metrics.tracked_accounts.dom().insert("total"@).insert("with_reservations"@).insert(
        "entire_balance_reserved"@,
    ));
}

/// A gauge shows a count as it is, as far as it can.
pub proof fn law_gauges_show_counts(count: u64, values: Map<Seq<char>, i64>, label: Seq<char>)
    ensures
        count <= i64::MAX ==> gauge_value_spec(count) == count,
        count >= i64::MAX ==> gauge_value_spec(count) == i64::MAX,
        values.contains_key(label) ==> gauge_at(values, label) == values[label],
        !values.contains_key(label) ==> gauge_at(values, label) == 0,
{
}

/// The gauges of active reservations are set to the number of reserved amounts and to that of
/// reserved entire balances. Nothing else changes.
pub proof fn law_active_reservations_are_shown(metrics: MetricsView, amounts: u64, entire: u64)
    requires
        amounts <= i64::MAX,
        entire <= i64::MAX,
    ensures
        ({
            let shown = metrics.with_active_reservations(amounts, entire);
            &&& shown.active_reservations["max_amount"@] == amounts
            &&& shown.active_reservations["entire_balance"@] == entire
            &&& shown.active_reservations.dom() == metrics.active_reservations.dom().insert(
                "max_amount"@,
            ).insert("entire_balance"@)
            &&& forall|label: Seq<char>| #[trigger]
                metrics.active_reservations.contains_key(label) && label != "max_amount"@ && label
                    != "entire_balance"@ ==> shown.active_reservations[label]
                    == metrics.active_reservations[label]
            &&& shown.schedule_outcomes == metrics.schedule_outcomes
            &&& shown.tracked_accounts == metrics.tracked_accounts
            &&& shown.settlements_processed == metrics.settlements_processed
        }),
        metrics.shows_active_reservations(amounts, entire) ==> {
            &&& metrics.active_reservations.contains_key("max_amount"@)
                ==> metrics.active_reservations["max_amount"@] == amounts
            &&& !metrics.active_reservations.contains_key("max_amount"@) ==> amounts == 0
            &&& metrics.active_reservations.contains_key("entire_balance"@)
                ==> metrics.active_reservations["entire_balance"@] == entire
            &&& !metrics.active_reservations.contains_key("entire_balance"@) ==> entire == 0
            &&& metrics.active_reservations.dom().subset_of(
                set!["max_amount"@, "entire_balance"@],
            )
        },
{
    reveal_strlit("max_amount");
    reveal_strlit("entire_balance");
    assert("max_amount"@.len() != "entire_balance"@.len());
    assert(metrics.with_active_reservations(amounts, entire).active_reservations.dom()
        =~= metrics.active_reservations.dom().insert("max_amount"@).insert("entire_balance"@));
}

/// Each settlement adds one to the total, and one with changes adds one to their number. Nothing
/// else changes.
pub proof fn law_settlements_are_counted(metrics: MetricsView, has_changes: bool)
    ensures
        ({
            let counted = metrics.with_settlement(has_changes);
            &&& counted.settlements_processed["total"@] == increased(
                metrics.settlements_processed,
                "total"@,
            )["total"@]
            &&& has_changes ==> counted.settlements_processed["with_changes"@] == increased(
                metrics.settlements_processed,
                "with_changes"@,
            )["with_changes"@]
            &&& !has_changes ==> counted.settlements_processed == increased(
                metrics.settlements_processed,
                "total"@,
            )
            &&& forall|label: Seq<char>|
                label != "total"@ && label != "with_changes"@ ==> (
                #[trigger] counted.settlements_processed.contains_key(label)
                    <==> metrics.settlements_processed.contains_key(label))
                    && counted.settlements_processed[label] == metrics.settlements_processed[label]
            &&& counted.schedule_outcomes == metrics.schedule_outcomes
            &&& counted.tracked_accounts == metrics.tracked_accounts
            &&& counted.active_reservations == metrics.active_reservations
        }),
{
    reveal_strlit("total");
    reveal_strlit("with_changes");
    assert("total"@.len() != "with_changes"@.len());
}

/// Metrics start without any number.
pub proof fn law_metrics_start_empty(label: Seq<char>)
    ensures
        !MetricsView::fresh().schedule_outcomes.contains_key(label),
        !MetricsView::fresh().tracked_accounts.contains_key(label),
        !MetricsView::fresh().active_reservations.contains_key(label),
        !MetricsView::fresh().settlements_processed.contains_key(label),
{
}

/// The name, the help text and the label of each family, and where its numbers are.
pub proof fn law_families_are_described(metrics: EagerSchedulerMetrics)
    requires
        metrics.wf(),
    ensures
        counter_desc(metrics.schedule_outcome_counter).0 == "eager_scheduler_schedule_outcome"@,
        counter_desc(metrics.schedule_outcome_counter).1
            == "Count of scheduling outcomes by status"@,
        counter_desc(metrics.schedule_outcome_counter).2 == seq!["status"@],
        gauge_desc(metrics.tracked_accounts_gauge).0 == "eager_scheduler_tracked_accounts"@,
        gauge_desc(metrics.tracked_accounts_gauge).1
            == "Number of accounts currently being tracked"@,
        gauge_desc(metrics.tracked_accounts_gauge).2 == seq!["type"@],
        gauge_desc(metrics.active_reservations_gauge).0 == "eager_scheduler_active_reservations"@,
        gauge_desc(metrics.active_reservations_gauge).1 == "Number of active reservations by type"@,
        gauge_desc(metrics.active_reservations_gauge).2 == seq!["type"@],
        counter_desc(metrics.settlements_processed_counter).0
            == "eager_scheduler_settlements_processed"@,
        counter_desc(metrics.settlements_processed_counter).1 == "Count of settlements processed"@,
        counter_desc(metrics.settlements_processed_counter).2 == seq!["type"@],
        metrics@.schedule_outcomes == counter_values(metrics.schedule_outcome_counter),
        metrics@.tracked_accounts == gauge_values(metrics.tracked_accounts_gauge),
        metrics@.active_reservations == gauge_values(metrics.active_reservations_gauge),
        metrics@.settlements_processed == counter_values(metrics.settlements_processed_counter),
{
}

/// What the registry is asked to take, for each family.
pub proof fn law_families_are_offered_as_described(
    registry: &prometheus::Registry,
    counters: Result<CounterFamily, prometheus::Error>,
    gauges: Result<GaugeFamily, prometheus::Error>,
)
    ensures
        outcomes_answered(registry, counters) <==> counters_answered(
            registry,
            "eager_scheduler_schedule_outcome",
            "Count of scheduling outcomes by status",
            "status",
            counters,
        ),
        accounts_answered(registry, gauges) <==> gauges_answered(
            registry,
            "eager_scheduler_tracked_accounts",
            "Number of accounts currently being tracked",
            "type",
            gauges,
        ),
        reservations_answered(registry, gauges) <==> gauges_answered(
            registry,
            "eager_scheduler_active_reservations",
            "Number of active reservations by type",
            "type",
            gauges,
        ),
        settlements_answered(registry, counters) <==> counters_answered(
            registry,
            "eager_scheduler_settlements_processed",
            "Count of settlements processed",
            "type",
            counters,
        ),
{
}

/// A family that was refused got an error for an answer, and a family that was taken did not.
pub proof fn law_refusals_are_errors(registry: &prometheus::Registry)
    ensures
        refused(registry, MetricFamily::ScheduleOutcome) ==> exists|
            answer: Result<CounterFamily, prometheus::Error>,
        | #[trigger]
            outcomes_answered(registry, answer) && answer is Err,
        refused(registry, MetricFamily::TrackedAccounts) ==> exists|
            answer: Result<GaugeFamily, prometheus::Error>,
        | #[trigger]
            accounts_answered(registry, answer) && answer is Err,
        refused(registry, MetricFamily::ActiveReservations) ==> exists|
            answer: Result<GaugeFamily, prometheus::Error>,
        | #[trigger]
            reservations_answered(registry, answer) && answer is Err,
        refused(registry, MetricFamily::SettlementsProcessed) ==> exists|
            answer: Result<CounterFamily, prometheus::Error>,
        | #[trigger]
            settlements_answered(registry, answer) && answer is Err,
        took(registry, MetricFamily::ScheduleOutcome) ==> exists|
            answer: Result<CounterFamily, prometheus::Error>,
        | #[trigger]
            outcomes_answered(registry, answer) && answer is Ok,
        took(registry, MetricFamily::TrackedAccounts) ==> exists|
            answer: Result<GaugeFamily, prometheus::Error>,
        | #[trigger]
            accounts_answered(registry, answer) && answer is Ok,
        took(registry, MetricFamily::ActiveReservations) ==> exists|
            answer: Result<GaugeFamily, prometheus::Error>,
        | #[trigger]
            reservations_answered(registry, answer) && answer is Ok,
        took(registry, MetricFamily::SettlementsProcessed) ==> exists|
            answer: Result<CounterFamily, prometheus::Error>,
        | #[trigger]
            settlements_answered(registry, answer) && answer is Ok,
{
}

/// A family is offered only once those before it are taken, and each stands at its place.
pub proof fn law_families_are_offered_in_order(
    registry: &prometheus::Registry,
    family: MetricFamily,
    earlier: MetricFamily,
)
    ensures
        refused_first(registry, family) ==> refused(registry, family),
        refused_first(registry, family) && place(earlier) < place(family) ==> took(
            registry,
            earlier,
        ),
        family_names().len() == 4,
        1 <= place(family) <= 4,
        family is ScheduleOutcome ==> family_names()[place(family) - 1]
            == "eager_scheduler_schedule_outcome"@ && place(family) == 1,
        family is TrackedAccounts ==> family_names()[place(family) - 1]
            == "eager_scheduler_tracked_accounts"@ && place(family) == 2,
        family is ActiveReservations ==> family_names()[place(family) - 1]
            == "eager_scheduler_active_reservations"@ && place(family) == 3,
        family is SettlementsProcessed ==> family_names()[place(family) - 1]
            == "eager_scheduler_settlements_processed"@ && place(family) == 4,
{
}

/// Metrics that the registry took hold the very families that it answered with.
pub proof fn law_taken_families_are_the_answers(
    metrics: EagerSchedulerMetrics,
    registry: &prometheus::Registry,
)
    requires
        metrics.taken_by(registry),
    ensures
        outcomes_answered(registry, Ok(metrics.schedule_outcome_counter)),
        accounts_answered(registry, Ok(metrics.tracked_accounts_gauge)),
        reservations_answered(registry, Ok(metrics.active_reservations_gauge)),
        settlements_answered(registry, Ok(metrics.settlements_processed_counter)),
{
}

} // verus!
