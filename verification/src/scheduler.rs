//! The eager balance withdrawal scheduler.

use crate::balance_read::AccountBalanceRead;
use crate::metrics::{
    lemma_active_reservations_are_shown, lemma_outcomes_alone_change, refused_first,
    EagerSchedulerMetrics, MetricsView, RegistrationError,
};
use crate::model::{
    ascending, comes_before, id_before, in_batch_order, lemma_after_batch_wf, lemma_comes_before,
    lemma_mentioned_step, mentioned, reserved_only, statuses_of, with_loaded, with_refreshed,
    SchedulerView,
};
use crate::reader::{
    asked_once, lemma_asked_nothing, lemma_asked_one_more, newly_asked, reads_after_load,
    BalanceReader,
};
use crate::state::{lemma_keys_ascend, EagerSchedulerState};
use crate::types::{
    BalanceSettlement, ObjectID, ScheduleResult, ScheduleStatus, SequenceNumber, TxBalanceWithdraw,
    WithdrawReservations,
};
use std::sync::Arc;
use vstd::prelude::*;
use vstd::std_specs::iter::IteratorSpec;

verus! {

/// The eager balance withdrawal scheduler that optimistically schedules withdrawals without waiting
/// for settlements when sufficient balance can be guaranteed.
pub struct EagerBalanceWithdrawScheduler<B> {
    balance_read: BalanceReader<B>,
    /// State that tracks account balances and reservations.
    state: EagerSchedulerState,
    /// Metrics for monitoring.
    metrics: Option<EagerSchedulerMetrics>,
}

/// Each balance is one that the reader gave for its account at `version`.
pub open spec fn answered_by<B: AccountBalanceRead>(
    reader: B,
    version: SequenceNumber,
    balances: Map<ObjectID, u64>,
) -> bool {
    forall|id: ObjectID| #[trigger]
        balances.contains_key(id) ==> call_ensures(
            B::get_account_balance,
            (&reader, &id, version),
            balances[id],
        )
}

/// The decisions among results.
pub open spec fn decisions<S>(results: Seq<(S, ScheduleResult)>) -> Seq<ScheduleStatus> {
    results.map_values(|result: (S, ScheduleResult)| result.1.status)
}

/// Each result is that of its withdrawal, and stands beside the sender to which it is owed.
pub open spec fn answers_batch<S>(
    results: Seq<(S, ScheduleResult)>,
    withdraws: WithdrawReservations<S>,
) -> bool {
    &&& results.len() == withdraws.paired()
    &&& forall|i: int|
        0 <= i < results.len() ==> (#[trigger] results[i]).0 == withdraws.senders@[i]
            && results[i].1.tx_digest == withdraws.withdraws@[i].tx_digest
}

/// The decisions on the `n` withdrawals of a batch that was scheduled before.
pub open spec fn already_scheduled_statuses(n: nat) -> Seq<ScheduleStatus> {
    Seq::new(n, |i: int| ScheduleStatus::AlreadyScheduled)
}

/// A batch was scheduled, and `balances` is what was read for the accounts that were not tracked.
pub open spec fn scheduled_with<S>(
    before: SchedulerView,
    after: SchedulerView,
    batch: WithdrawReservations<S>,
    statuses: Seq<ScheduleStatus>,
    balances: Map<ObjectID, u64>,
) -> bool {
    let version = batch.accumulator_version;
    let withdraws = batch.withdraws@;
    let n = batch.paired();
    &&& balances.dom() == before.untracked(withdraws, n)
    &&& after == before.after_batch(version, withdraws, n, balances)
    &&& statuses == statuses_of(before.loaded(version, withdraws, n, balances), withdraws, n)
}

/// A batch was scheduled on answers of the reader.
pub open spec fn scheduled_on_answers<B: AccountBalanceRead, S>(
    reader: B,
    before: SchedulerView,
    after: SchedulerView,
    batch: WithdrawReservations<S>,
    statuses: Seq<ScheduleStatus>,
) -> bool {
    exists|balances: Map<ObjectID, u64>|
        {
            &&& answered_by(reader, batch.accumulator_version, balances)
            &&& #[trigger] scheduled_with(before, after, batch, statuses, balances)
        }
}

/// The reader was asked, at the settled version, for every tracked account that the settlement does
/// not name.
pub open spec fn refreshed_on_answers<B: AccountBalanceRead>(
    reader: B,
    before: SchedulerView,
    settlement: BalanceSettlement,
) -> bool {
    exists|balances: Map<ObjectID, u64>|
        {
            &&& balances.dom() == before.accounts.dom().difference(
                settlement.balance_changes@.dom(),
            )
            &&& #[trigger] answered_by(reader, settlement.accumulator_version, balances)
        }
}

impl<B> EagerBalanceWithdrawScheduler<B> {
    /// What the scheduler remembers.
    pub closed spec fn view(&self) -> SchedulerView {
        self.state@
    }

    /// Where balances are read from.
    pub closed spec fn reader(&self) -> B {
        self.balance_read.source()
    }

    /// The accounts that the reader was asked for, each with the version, in order.
    pub closed spec fn reads(&self) -> Seq<(ObjectID, SequenceNumber)> {
        self.balance_read.reads()
    }

    /// What the metrics stand at, where there are any.
    pub closed spec fn metrics_view(&self) -> Option<MetricsView> {
        match self.metrics {
            Some(metrics) => Some(metrics@),
            None => None,
        }
    }

    /// The scheduler has metrics, and their families are those that the registry took.
    pub closed spec fn metrics_taken_by(&self, registry: &prometheus::Registry) -> bool {
        self.metrics matches Some(metrics) && metrics.taken_by(registry)
    }

    /// The gauges of active reservations, where there are metrics, stand at what was granted since
    /// the last settlement.
    pub open spec fn shows_active_reservations(&self) -> bool {
        self.metrics_view() matches Some(metrics) ==> metrics.shows_active_reservations(
            self@.amount_reservations,
            self@.entire_balance_reservations,
        )
    }

    /// The state is well formed, so are the metrics, and they show the active reservations.
    pub closed spec fn wf(&self) -> bool {
        &&& self@.wf()
        &&& self.metrics matches Some(metrics) ==> metrics.wf()
        &&& self.shows_active_reservations()
    }
}

impl<B: AccountBalanceRead> EagerBalanceWithdrawScheduler<B> {
    pub fn new(
        balance_read: Arc<B>,
        starting_accumulator_version: SequenceNumber,
    ) -> (scheduler: EagerBalanceWithdrawScheduler<B>)
        ensures
            scheduler.wf(),
            scheduler@ == SchedulerView::starting_at(starting_accumulator_version),
            scheduler.reader() == *balance_read,
            scheduler.reads() == Seq::<(ObjectID, SequenceNumber)>::empty(),
            scheduler.metrics_view() is None,
    {
        EagerBalanceWithdrawScheduler {
            balance_read: BalanceReader::new(balance_read),
            state: EagerSchedulerState::new(starting_accumulator_version),
            metrics: None,
        }
    }

    /// A scheduler whose metrics are registered with `registry`, or the family that the registry
    /// did not take.
    pub fn new_with_metrics(
        balance_read: Arc<B>,
        starting_accumulator_version: SequenceNumber,
        registry: &prometheus::Registry,
    ) -> (result: Result<EagerBalanceWithdrawScheduler<B>, RegistrationError>)
        ensures
            result matches Ok(scheduler) ==> {
                &&& scheduler.wf()
                &&& scheduler@ == SchedulerView::starting_at(starting_accumulator_version)
                &&& scheduler.reader() == *balance_read
                &&& scheduler.reads() == Seq::<(ObjectID, SequenceNumber)>::empty()
                &&& scheduler.metrics_view() == Some(MetricsView::fresh())
                &&& scheduler.metrics_taken_by(registry)
            },
            result matches Err(error) ==> refused_first(registry, error.family),
    {
        let metrics = EagerSchedulerMetrics::new(registry)?;
        Ok(
            EagerBalanceWithdrawScheduler {
                balance_read: BalanceReader::new(balance_read),
                state: EagerSchedulerState::new(starting_accumulator_version),
                metrics: Some(metrics),
            },
        )
    }

    /// Check if a batch has already been scheduled.
    pub fn is_already_scheduled(&self, version: SequenceNumber) -> (scheduled: bool)
        ensures
            scheduled == self@.already_scheduled(version),
    {
        self.state.scheduled_batches.is_already_scheduled(version)
    }

    /// Load balance for an account if not already tracked.
    fn ensure_account_loaded(
        &mut self,
        account_id: &ObjectID,
        accumulator_version: SequenceNumber,
    ) -> (loaded: Ghost<Map<ObjectID, u64>>)
        ensures
            final(self).reader() == old(self).reader(),
            final(self).metrics == old(self).metrics,
            loaded@.dom() == set![*account_id].difference(old(self)@.accounts.dom()),
            answered_by(old(self).reader(), accumulator_version, loaded@),
            final(self).reads() == reads_after_load(
                old(self).reads(),
                *account_id,
                old(self)@.accounts.dom(),
                accumulator_version,
            ),
            final(self)@ == (SchedulerView {
                accounts: with_loaded(
                    old(self)@.accounts,
                    set![*account_id],
                    loaded@,
                    accumulator_version,
                ),
                ..old(self)@
            }),
    {
        let ghost mut loaded: Map<ObjectID, u64> = Map::empty();
        if !self.state.account_states.contains_key(account_id) {
            let balance: u64 = self.balance_read.read(account_id, accumulator_version);
            self.state.load_account(account_id, balance, accumulator_version);
            proof {
                loaded = loaded.insert(*account_id, balance);
            }
        }
        assert(loaded.dom() =~= set![*account_id].difference(old(self)@.accounts.dom()));
        assert(self@.accounts =~= with_loaded(
            old(self)@.accounts,
            set![*account_id],
            loaded,
            accumulator_version,
        ));
        Ghost(loaded)
    }

    /// Load the balances of the accounts of the first `count` withdrawals.
    fn load_accounts(
        &mut self,
        withdraws: &Vec<TxBalanceWithdraw>,
        count: usize,
        accumulator_version: SequenceNumber,
    ) -> (loaded: Ghost<Map<ObjectID, u64>>)
        requires
            count <= withdraws@.len(),
        ensures
            final(self).reader() == old(self).reader(),
            final(self).metrics == old(self).metrics,
            loaded@.dom() == old(self)@.untracked(withdraws@, count as nat),
            answered_by(old(self).reader(), accumulator_version, loaded@),
            asked_once(
                old(self).reads(),
                final(self).reads(),
                old(self)@.untracked(withdraws@, count as nat),
                accumulator_version,
            ),
            in_batch_order(
                newly_asked(old(self).reads(), final(self).reads()),
                withdraws@,
                count as nat,
            ),
            final(self)@ == (SchedulerView {
                accounts: old(self)@.loaded(
                    accumulator_version,
                    withdraws@,
                    count as nat,
                    loaded@,
                ),
                ..old(self)@
            }),
    {
        let ghost before = self@;
        let ghost mut loaded: Map<ObjectID, u64> = Map::empty();
        proof {
            assert(loaded.dom() =~= before.untracked(withdraws@, 0));
            assert(loaded.dom() =~= Set::empty());
            lemma_asked_nothing(self.reads(), accumulator_version);
        }
        assert(self@.accounts =~= before.loaded(accumulator_version, withdraws@, 0, loaded));
        for k in 0..count
            invariant
                count <= withdraws@.len(),
                before == old(self)@,
                self.reader() == old(self).reader(),
                self.metrics == old(self).metrics,
                loaded.dom() == before.untracked(withdraws@, k as nat),
                answered_by(old(self).reader(), accumulator_version, loaded),
                asked_once(old(self).reads(), self.reads(), loaded.dom(), accumulator_version),
                in_batch_order(
                    newly_asked(old(self).reads(), self.reads()),
                    withdraws@,
                    count as nat,
                ),
                self@ == (SchedulerView {
                    accounts: before.loaded(accumulator_version, withdraws@, k as nat, loaded),
                    ..before
                }),
        {
            let ghost earlier = mentioned(withdraws@, k as nat);
            let reservations = &withdraws[k].reservations;
            let keys = reservations.keys();
            let ghost mut ids: Set<ObjectID> = earlier;
            proof {
                lemma_keys_ascend(IteratorSpec::remaining(&keys));
            }
            for account_id in it: keys
                invariant
                    it.seq().unref().to_set() == reservations@.dom(),
                    ascending(it.seq().unref()),
                    k < count <= withdraws@.len(),
                    reservations == withdraws@[k as int].reservations,
                    earlier == mentioned(withdraws@, k as nat),
                    before == old(self)@,
                    self.reader() == old(self).reader(),
                    self.metrics == old(self).metrics,
                    earlier.subset_of(ids) && ids.subset_of(earlier.union(reservations@.dom())),
                    forall|i: int|
                        0 <= i < it.index() ==> ids.contains(#[trigger] it.seq().unref()[i]),
                    forall|id: ObjectID| #[trigger]
                        ids.contains(id) && !earlier.contains(id) ==> exists|i: int|
                            0 <= i < it.index() && #[trigger] it.seq().unref()[i] == id,
                    loaded.dom() == ids.difference(before.accounts.dom()),
                    answered_by(old(self).reader(), accumulator_version, loaded),
                    asked_once(old(self).reads(), self.reads(), loaded.dom(), accumulator_version),
                    in_batch_order(
                        newly_asked(old(self).reads(), self.reads()),
                        withdraws@,
                        count as nat,
                    ),
                    self@ == (SchedulerView {
                        accounts: with_loaded(before.accounts, ids, loaded, accumulator_version),
                        ..before
                    }),
            {
                assert(it.seq().unref()[it.index()] == *account_id);
                assert(it.seq().unref().to_set().contains(*account_id));
                let ghost earlier_reads = self.reads();
                let ghost earlier_ids = loaded.dom();
                let Ghost(read) = self.ensure_account_loaded(account_id, accumulator_version);
                proof {
                    ids = ids.insert(*account_id);
                    loaded = loaded.union_prefer_right(read);
                    if read.contains_key(*account_id) {
                        lemma_asked_one_more(
                            old(self).reads(),
                            earlier_reads,
                            earlier_ids,
                            accumulator_version,
                            *account_id,
                        );
                        let asked = newly_asked(old(self).reads(), earlier_reads);
                        assert forall|i: int| 0 <= i < asked.len() implies comes_before(
                            withdraws@,
                            count as nat,
                            #[trigger] asked[i],
                            *account_id,
                        ) by {
                            let record = earlier_reads.skip(old(self).reads().len() as int);
                            assert(record[i].0 == asked[i]);
                            assert(earlier_ids.contains(asked[i]));
                            if !earlier.contains(asked[i]) {
                                let p = choose|p: int|
                                    0 <= p < it.index() && #[trigger] it.seq().unref()[p]
                                        == asked[i];
                                assert(id_before(
                                    it.seq().unref()[p],
                                    it.seq().unref()[it.index()],
                                ));
                                assert(it.seq().unref().to_set().contains(asked[i]));
                            }
                            lemma_comes_before(
                                withdraws@,
                                count as nat,
                                k as nat,
                                asked[i],
                                *account_id,
                            );
                        }
                        assert(loaded.dom() =~= earlier_ids.insert(*account_id));
                    } else {
                        assert(loaded.dom() =~= earlier_ids);
                    }
                    assert(loaded.dom() =~= ids.difference(before.accounts.dom()));
                    assert(self@.accounts =~= with_loaded(
                        before.accounts,
                        ids,
                        loaded,
                        accumulator_version,
                    ));
                }
            }
            proof {
                assert(ids =~= earlier.union(reservations@.dom()));
                lemma_mentioned_step(withdraws@, k as nat);
            }
        }
        Ghost(loaded)
    }

    /// Clean up accounts that no longer need tracking.
    fn cleanup_accounts(&mut self)
        requires
            old(self).metrics matches Some(metrics) ==> metrics.wf(),
        ensures
            final(self).metrics matches Some(metrics) ==> metrics.wf(),
            final(self).reader() == old(self).reader(),
            final(self).reads() == old(self).reads(),
            final(self)@ == (SchedulerView {
                accounts: reserved_only(old(self)@.accounts),
                ..old(self)@
            }),
            final(self).metrics_view() == match old(self).metrics_view() {
                Some(metrics) => Some(metrics.with_accounts(final(self)@.accounts)),
                None => None,
            },
    {
        self.state.cleanup_accounts();
        if let Some(metrics) = &mut self.metrics {
            metrics.record_accounts(&self.state);
        }
    }

    /// Count the outcomes of a batch.
    fn record_outcomes(&mut self, statuses: &Vec<ScheduleStatus>)
        requires
            old(self).metrics matches Some(metrics) ==> metrics.wf(),
        ensures
            final(self).metrics matches Some(metrics) ==> metrics.wf(),
            final(self).reader() == old(self).reader(),
            final(self).reads() == old(self).reads(),
            final(self)@ == old(self)@,
            final(self).metrics_view() == match old(self).metrics_view() {
                Some(metrics) => Some(metrics.with_outcomes(statuses@)),
                None => None,
            },
    {
        if let Some(metrics) = &mut self.metrics {
            metrics.record_outcomes(statuses);
        }
    }

    /// Set the numbers of active reservations.
    fn record_active_reservations(&mut self)
        requires
            old(self).metrics matches Some(metrics) ==> metrics.wf(),
        ensures
            final(self).metrics matches Some(metrics) ==> metrics.wf(),
            final(self).reader() == old(self).reader(),
            final(self).reads() == old(self).reads(),
            final(self)@ == old(self)@,
            final(self).metrics_view() == match old(self).metrics_view() {
                Some(metrics) => Some(
                    metrics.with_active_reservations(
                        old(self)@.amount_reservations,
                        old(self)@.entire_balance_reservations,
                    ),
                ),
                None => None,
            },
    {
        if let Some(metrics) = &mut self.metrics {
            metrics.record_active_reservations(
                self.state.amount_reservations,
                self.state.entire_balance_reservations,
            );
        }
    }

    /// Schedule the withdrawals of a batch and hand back the result that is owed to each sender.
    ///
    /// A batch that was scheduled before changes nothing but the count of outcomes. Otherwise the
    /// accounts that are not tracked yet are loaded at the version of the batch, and the
    /// transactions are decided one after the other. The reader is asked once for each account that
    /// is loaded, and for nothing else: in the order of the first transactions that name them, and
    /// of their ids within one.
    pub fn schedule_withdraws<S>(&mut self, withdraws: WithdrawReservations<S>) -> (results: Vec<
        (S, ScheduleResult),
    >)
        requires
            old(self).wf(),
        ensures
            final(self).wf(),
            final(self)@.wf(),
            final(self).reader() == old(self).reader(),
            answers_batch(results@, withdraws),
            results@.len() <= withdraws.withdraws@.len(),
            results@.len() <= withdraws.senders@.len(),
            results@.len() == withdraws.withdraws@.len() || results@.len()
                == withdraws.senders@.len(),
            forall|i: int|
                0 <= i < results@.len() ==> ((#[trigger] results@[i]).1.status is AlreadyScheduled
                    <==> old(self)@.already_scheduled(withdraws.accumulator_version)),
            final(self).shows_active_reservations(),
            old(self)@.already_scheduled(withdraws.accumulator_version) ==> {
                &&& final(self)@ == old(self)@
                &&& final(self).reads() == old(self).reads()
                &&& decisions(results@) == already_scheduled_statuses(withdraws.paired())
                &&& final(self).metrics_view() == match old(self).metrics_view() {
                    Some(metrics) => Some(metrics.with_outcomes(decisions(results@))),
                    None => None,
                }
            },
            !old(self)@.already_scheduled(withdraws.accumulator_version) ==> {
                &&& scheduled_on_answers(
                    old(self).reader(),
                    old(self)@,
                    final(self)@,
                    withdraws,
                    decisions(results@),
                )
                &&& asked_once(
                    old(self).reads(),
                    final(self).reads(),
                    old(self)@.untracked(withdraws.withdraws@, withdraws.paired()),
                    withdraws.accumulator_version,
                )
                &&& in_batch_order(
                    newly_asked(old(self).reads(), final(self).reads()),
                    withdraws.withdraws@,
                    withdraws.paired(),
                )
                &&& final(self).metrics_view() == match old(self).metrics_view() {
                    Some(metrics) => Some(
                        metrics.with_outcomes(decisions(results@)).with_accounts(
                            final(self)@.accounts,
                        ).with_active_reservations(
                            final(self)@.amount_reservations,
                            final(self)@.entire_balance_reservations,
                        ),
                    ),
                    None => None,
                }
            },
    {
        let ghost before = self@;
        let ghost batch = withdraws;
        let WithdrawReservations { accumulator_version, withdraws, senders } = withdraws;
        let count: usize = if withdraws.len() <= senders.len() {
            withdraws.len()
        } else {
            senders.len()
        };

        // Check if this batch has already been scheduled
        if self.state.scheduled_batches.is_already_scheduled(accumulator_version) {
            let mut statuses: Vec<ScheduleStatus> = Vec::new();
            for k in 0..count
                invariant
                    statuses@ == already_scheduled_statuses(k as nat),
            {
                statuses.push(ScheduleStatus::AlreadyScheduled);
                assert(statuses@ =~= already_scheduled_statuses((k + 1) as nat));
            }
            self.record_outcomes(&statuses);
            proof {
                if let Some(metrics) = old(self).metrics_view() {
                    lemma_outcomes_alone_change(metrics, statuses@);
                }
            }
            let results: Vec<(S, ScheduleResult)> = pair_results(senders, &withdraws, statuses);
            assert(forall|i: int|
                0 <= i < results@.len() ==> decisions(results@)[i] == (
                #[trigger] results@[i]).1.status);
            return results;
        }

        // Mark this batch as scheduled
        self.state.mark_batch(accumulator_version);

        // First ensure all accounts of the batch are loaded
        let Ghost(balances) = self.load_accounts(&withdraws, count, accumulator_version);

        // Process each transaction's withdrawals sequentially
        let statuses: Vec<ScheduleStatus> = self.state.schedule_transactions(&withdraws, count);
        self.state.count_reservations(&withdraws, &statuses);
        self.record_outcomes(&statuses);

        // Clean up accounts that no longer need tracking
        self.cleanup_accounts();
        let ghost unshown = self.metrics_view();
        self.record_active_reservations();
        proof {
            if let Some(metrics) = old(self).metrics_view() {
                lemma_outcomes_alone_change(metrics, statuses@);
                lemma_active_reservations_are_shown(
                    unshown->0,
                    self@.amount_reservations,
                    self@.entire_balance_reservations,
                );
            }
            lemma_after_batch_wf(before, accumulator_version, withdraws@, count as nat, balances);
            assert(scheduled_with(before, self@, batch, statuses@, balances));
        }
        let results: Vec<(S, ScheduleResult)> = pair_results(senders, &withdraws, statuses);
        assert(forall|i: int|
            0 <= i < results@.len() ==> decisions(results@)[i] == (
            #[trigger] results@[i]).1.status);
        results
    }

    /// Settle balances at a version.
    ///
    /// Tracked accounts take the changes that the settlement names, and the others are read anew.
    /// The reader is asked once for each of those others, in the order of their ids, and for
    /// nothing else. Either way nothing stays reserved, so no account stays tracked. Batches before
    /// the settled version are forgotten.
    pub fn settle_balances(&mut self, settlement: &BalanceSettlement)
        requires
            old(self).wf(),
        ensures
            final(self).wf(),
            final(self)@.wf(),
            final(self).reader() == old(self).reader(),
            final(self)@ == old(self)@.after_settlement(settlement.accumulator_version),
            refreshed_on_answers(old(self).reader(), old(self)@, *settlement),
            asked_once(
                old(self).reads(),
                final(self).reads(),
                old(self)@.accounts.dom().difference(settlement.balance_changes@.dom()),
                settlement.accumulator_version,
            ),
            ascending(newly_asked(old(self).reads(), final(self).reads())),
            final(self).shows_active_reservations(),
            final(self).metrics_view() == match old(self).metrics_view() {
                Some(metrics) => Some(
                    metrics.with_settlement(
                        !settlement.balance_changes@.is_empty(),
                    ).with_accounts(Map::empty()).with_active_reservations(0, 0),
                ),
                None => None,
            },
    {
        let version: SequenceNumber = settlement.accumulator_version;
        if let Some(metrics) = &mut self.metrics {
            metrics.record_settlement(!settlement.balance_changes.is_empty());
        }

        // Update the last settled version
        self.state.last_settled_version = version;
        self.state.amount_reservations = 0;
        self.state.entire_balance_reservations = 0;

        // Apply balance changes to tracked accounts
        self.state.apply_balance_changes(settlement);

        // For any tracked accounts not in the settlement, we need to update their version and fetch
        // the latest balance
        let accounts_to_update = self.state.accounts_to_update(settlement);
        assert(self@.accounts.dom() =~= old(self)@.accounts.dom());
        let Ghost(balances) = self.refresh_accounts(&accounts_to_update, version);
        assert forall|id: ObjectID| #[trigger] self@.accounts.contains_key(id) implies
            !self@.accounts[id].is_reserved() by {
            if !settlement.balance_changes@.contains_key(id) {
                assert(accounts_to_update@.to_set().contains(id));
            }
        }

        // Clean up old scheduled batch entries
        self.state.scheduled_batches.cleanup_before(version);

        // Clean up accounts that no longer need tracking
        self.cleanup_accounts();
        assert(self@.accounts =~= Map::empty());
        let ghost unshown = self.metrics_view();
        self.record_active_reservations();
        proof {
            if let Some(metrics) = unshown {
                lemma_active_reservations_are_shown(metrics, 0, 0);
            }
        }
    }

    /// Settle tracked accounts at `version` with the balances that the reader gives.
    fn refresh_accounts(&mut self, ids: &Vec<ObjectID>, version: SequenceNumber) -> (read: Ghost<
        Map<ObjectID, u64>,
    >)
        requires
            ascending(ids@),
        ensures
            final(self).reader() == old(self).reader(),
            final(self).metrics == old(self).metrics,
            read@.dom() == ids@.to_set(),
            asked_once(old(self).reads(), final(self).reads(), ids@.to_set(), version),
            newly_asked(old(self).reads(), final(self).reads()) == ids@,
            answered_by(old(self).reader(), version, read@),
            final(self)@ == (SchedulerView {
                accounts: with_refreshed(old(self)@.accounts, read@, version),
                ..old(self)@
            }),
    {
        let ghost mut read: Map<ObjectID, u64> = Map::empty();
        proof {
            assert(self@.accounts =~= with_refreshed(old(self)@.accounts, read, version));
            lemma_asked_nothing(self.reads(), version);
            assert(read.dom() =~= Set::empty());
        }
        for k in 0..ids.len()
            invariant
                self.reader() == old(self).reader(),
                self.metrics == old(self).metrics,
                ascending(ids@),
                read.dom() == ids@.take(k as int).to_set(),
                asked_once(old(self).reads(), self.reads(), read.dom(), version),
                newly_asked(old(self).reads(), self.reads()) == ids@.take(k as int),
                answered_by(old(self).reader(), version, read),
                self@ == (SchedulerView {
                    accounts: with_refreshed(old(self)@.accounts, read, version),
                    ..old(self)@
                }),
        {
            let account_id: ObjectID = ids[k];
            let ghost earlier_reads = self.reads();
            let new_balance: u64 = self.balance_read.read(&account_id, version);
            self.state.refresh_account(&account_id, new_balance, version);
            proof {
                assert(!read.contains_key(account_id));
                lemma_asked_one_more(
                    old(self).reads(),
                    earlier_reads,
                    read.dom(),
                    version,
                    account_id,
                );
                assert(read.insert(account_id, new_balance).dom() =~= read.dom().insert(
                    account_id,
                ));
                read = read.insert(account_id, new_balance);
                assert(ids@.take(k + 1) =~= ids@.take(k as int).push(account_id));
                assert(ids@.take(k + 1)[k as int] == account_id);
                assert forall|id: ObjectID| read.contains_key(id) == ids@.take(
                    k + 1,
                ).to_set().contains(id) by {
                    if ids@.take(k as int).contains(id) {
                        let i = choose|i: int| 0 <= i < k && ids@.take(k as int)[i] == id;
                        assert(ids@.take(k + 1)[i] == id);
                    }
                }
                assert(read.dom() =~= ids@.take(k + 1).to_set());
                assert(self@.accounts =~= with_refreshed(old(self)@.accounts, read, version));
            }
        }
        assert(ids@.take(ids@.len() as int) =~= ids@);
        Ghost(read)
    }
}

/// Put each decision beside the sender to which it is owed.
fn pair_results<S>(
    senders: Vec<S>,
    withdraws: &Vec<TxBalanceWithdraw>,
    statuses: Vec<ScheduleStatus>,
) -> (results: Vec<(S, ScheduleResult)>)
    requires
        statuses@.len() <= withdraws@.len(),
        statuses@.len() <= senders@.len(),
    ensures
        decisions(results@) == statuses@,
        results@.len() == statuses@.len(),
        forall|i: int|
            0 <= i < results@.len() ==> (#[trigger] results@[i]).0 == senders@[i]
                && results@[i].1.tx_digest == withdraws@[i].tx_digest,
{
    let ghost all_senders = senders@;
    let mut results: Vec<(S, ScheduleResult)> = Vec::new();
    let mut k: usize = 0;
    for sender in it: senders
        invariant
            it.seq() == all_senders,
            statuses@.len() <= withdraws@.len(),
            statuses@.len() <= all_senders.len(),
            k == results@.len(),
            k <= statuses@.len(),
            k == it.index() || k == statuses@.len(),
            forall|i: int|
                0 <= i < results@.len() ==> (#[trigger] results@[i]).0 == all_senders[i]
                    && results@[i].1.tx_digest == withdraws@[i].tx_digest && results@[i].1.status
                    == statuses@[i],
    {
        if k < statuses.len() {
            results.push(
                (
                    sender,
                    ScheduleResult { tx_digest: withdraws[k].tx_digest, status: statuses[k] },
                ),
            );
            k = k + 1;
        }
    }
    assert(decisions(results@) =~= statuses@);
    results
}

} // verus!
