//! What each operation does, said of fields, entries and lengths.

use crate::account_state::AccountState;
use crate::balance_read::AccountBalanceRead;
use crate::model::{
    accounts_after, all_covered, ascending, changed_balance, comes_before, decide,
    entire_balance_reserved, grown, id_before, in_batch_order, mentioned, reservations_made,
    reserve_each, reserved_by_kind, reserved_only, status_of, statuses_of, with_changes,
    with_loaded, with_refreshed, with_reservations, SchedulerView,
};
use crate::reader::{asked_once, newly_asked, reads_after_load};
use crate::scheduled_batches::{entries_from, ScheduledBatches};
use crate::scheduler::{
    already_scheduled_statuses, answered_by, answers_batch, decisions, refreshed_on_answers,
    scheduled_on_answers, scheduled_with,
};
use crate::state::EagerSchedulerState;
use crate::types::{
    BalanceSettlement, ObjectID, Reservation, ScheduleResult, ScheduleStatus, SequenceNumber,
    TxBalanceWithdraw, WithdrawReservations,
};
use vstd::prelude::*;

verus! {

/// An amount is granted just when it fits: whatever the numbers are, it is granted where it can be
/// added to what is reserved without exceeding the balance, and it is refused where it cannot. To
/// reserve nothing is granted in any case but after the entire balance has been reserved.
pub proof fn law_amount_is_granted_where_it_fits(account: AccountState, amount: u64)
    ensures
        !account.entire_balance_reserved && account.cumulative_reservations + amount
            <= account.settled_balance ==> account.covers(Reservation::MaxAmountU64(amount)),
        account.covers(Reservation::MaxAmountU64(amount)) && amount > 0
            ==> account.cumulative_reservations + amount <= account.settled_balance,
        account.covers(Reservation::MaxAmountU64(amount)) ==> !account.entire_balance_reserved,
        account.covers(Reservation::MaxAmountU64(0)) <==> !account.entire_balance_reserved,
{
}

/// The entire balance is granted just when nothing is reserved and there is a balance, however
/// small or large.
pub proof fn law_entire_balance_is_granted_where_nothing_is_reserved(account: AccountState)
    ensures
        account.covers(Reservation::EntireBalance) <==> !account.entire_balance_reserved
            && account.cumulative_reservations == 0 && account.settled_balance > 0,
{
}

/// What is granted once is granted again wherever at least as much is free: with a larger balance,
/// with less reserved, or for a smaller amount.
pub proof fn law_more_room_grants_as_much(
    account: AccountState,
    roomier: AccountState,
    amount: u64,
    smaller: u64,
)
    requires
        account.covers(Reservation::MaxAmountU64(amount)),
        !roomier.entire_balance_reserved,
        roomier.settled_balance >= account.settled_balance,
        roomier.cumulative_reservations <= account.cumulative_reservations,
        smaller <= amount,
    ensures
        roomier.covers(Reservation::MaxAmountU64(smaller)),
{
}

/// A granted amount is added to what is reserved, and a granted entire balance is marked as such.
/// Nothing else of the account changes.
pub proof fn law_granted_reservation_is_recorded(account: AccountState, reservation: Reservation)
    requires
        account.covers(reservation),
    ensures
        ({
            let after = account.reserve(reservation);
            &&& after.settled_balance == account.settled_balance
            &&& after.last_settled_version == account.last_settled_version
            &&& match reservation {
                Reservation::MaxAmountU64(amount) => {
                    &&& after.cumulative_reservations == account.cumulative_reservations + amount
                    &&& !after.entire_balance_reserved
                },
                Reservation::EntireBalance => {
                    &&& after.cumulative_reservations == 0
                    &&& after.entire_balance_reserved
                },
            }
        }),
{
}

/// What is guaranteed and what is reserved make up the balance, unless the entire balance is
/// reserved or more is reserved than there is: then nothing is guaranteed.
pub proof fn law_guaranteed_balance_is_what_is_left(account: AccountState)
    ensures
        !account.entire_balance_reserved && account.cumulative_reservations
            <= account.settled_balance ==> account.guaranteed() + account.cumulative_reservations
            == account.settled_balance,
        account.entire_balance_reserved || account.cumulative_reservations
            >= account.settled_balance ==> account.guaranteed() == 0,
{
}

/// The guaranteed balance is the largest amount that is granted.
pub proof fn law_guaranteed_balance_is_the_largest_grant(account: AccountState, amount: u64)
    requires
        !account.entire_balance_reserved,
    ensures
        account.covers(Reservation::MaxAmountU64(amount)) <==> amount <= account.guaranteed(),
{
}

/// A settled account holds the balance and the version that it was settled with, and nothing is
/// reserved from it.
pub proof fn law_settled_account_starts_over(balance: u64, version: SequenceNumber)
    ensures
        AccountState::settled(balance, version).settled_balance == balance,
        AccountState::settled(balance, version).last_settled_version == version,
        AccountState::settled(balance, version).cumulative_reservations == 0,
        !AccountState::settled(balance, version).entire_balance_reserved,
{
}

/// An account is reserved from with the smallest amount on, or with its entire balance. It is well
/// formed just when its balance covers the amounts, and when an entire balance that is reserved is
/// not zero and has no amounts beside it.
pub proof fn law_reserved_and_well_formed_accounts(account: AccountState)
    ensures
        account.is_reserved() <==> account.cumulative_reservations != 0
            || account.entire_balance_reserved,
        account.wf() <==> account.cumulative_reservations <= account.settled_balance && (
        account.entire_balance_reserved ==> account.cumulative_reservations == 0
            && account.settled_balance != 0),
{
}

/// A transaction is granted if and only if each of its accounts, taken on its own, grants its
/// reservation, however many there are and of whatever kinds.
pub proof fn law_transaction_is_granted_where_each_account_grants(
    accounts: Map<ObjectID, AccountState>,
    withdraws: Seq<TxBalanceWithdraw>,
    i: nat,
)
    ensures
        (forall|id: ObjectID| #[trigger]
            withdraws[i as int].reservations@.contains_key(id) ==> accounts_after(
                accounts,
                withdraws,
                i,
            )[id].covers(withdraws[i as int].reservations@[id])) ==> status_of(
            accounts,
            withdraws,
            i as int,
        ) is SufficientBalance,
        forall|id: ObjectID| #[trigger]
            withdraws[i as int].reservations@.contains_key(id) && !accounts_after(
                accounts,
                withdraws,
                i,
            )[id].covers(withdraws[i as int].reservations@[id]) ==> status_of(
                accounts,
                withdraws,
                i as int,
            ) is InsufficientBalance,
        status_of(accounts, withdraws, i as int) is SufficientBalance || status_of(
            accounts,
            withdraws,
            i as int,
        ) is InsufficientBalance,
{
    let here = accounts_after(accounts, withdraws, i);
    let reservations = withdraws[i as int].reservations@;
    assert((forall|id: ObjectID| #[trigger]
        reservations.contains_key(id) ==> here[id].covers(reservations[id])) ==> all_covered(
        here,
        reservations,
    ));
}

/// Reservations are all made where each is covered by its account, and otherwise none is. The
/// accounts that are not named stay as they were.
pub proof fn law_all_reservations_or_none(
    accounts: Map<ObjectID, AccountState>,
    reservations: Map<ObjectID, Reservation>,
)
    ensures
        all_covered(accounts, reservations) <==> (forall|id: ObjectID| #[trigger]
            reservations.contains_key(id) ==> accounts[id].covers(reservations[id])),
        decide(accounts, reservations).dom() == accounts.dom(),
        forall|id: ObjectID| #[trigger]
            accounts.contains_key(id) && !reservations.contains_key(id) ==> decide(
                accounts,
                reservations,
            )[id] == accounts[id],
        (forall|id: ObjectID| #[trigger]
            reservations.contains_key(id) ==> accounts[id].covers(reservations[id])) ==> (forall|
            id: ObjectID,
        | #[trigger]
            accounts.contains_key(id) && reservations.contains_key(id) ==> decide(
                accounts,
                reservations,
            )[id] == accounts[id].reserve(reservations[id])),
        forall|refusing: ObjectID| #[trigger]
            reservations.contains_key(refusing) && !accounts[refusing].covers(
                reservations[refusing],
            ) ==> decide(accounts, reservations) == accounts,
        reserve_each(accounts, reservations).dom() == accounts.dom(),
        forall|id: ObjectID| #[trigger]
            accounts.contains_key(id) ==> reserve_each(accounts, reservations)[id]
                == if reservations.contains_key(id) {
                accounts[id].reserve(reservations[id])
            } else {
                accounts[id]
            },
{
    assert(reserve_each(accounts, reservations).dom() =~= accounts.dom());
    assert((forall|id: ObjectID| #[trigger]
        reservations.contains_key(id) ==> accounts[id].covers(reservations[id])) ==> all_covered(
        accounts,
        reservations,
    ));
}

/// Before the first withdrawal the accounts are those that there were, and each withdrawal is
/// decided on what the ones before it left.
pub proof fn law_withdrawals_are_decided_in_turn(
    accounts: Map<ObjectID, AccountState>,
    withdraws: Seq<TxBalanceWithdraw>,
    n: nat,
)
    ensures
        accounts_after(accounts, withdraws, 0) == accounts,
        accounts_after(accounts, withdraws, n + 1) == decide(
            accounts_after(accounts, withdraws, n),
            withdraws[n as int].reservations@,
        ),
        statuses_of(accounts, withdraws, n).len() == n,
        forall|i: int|
            0 <= i < n ==> #[trigger] statuses_of(accounts, withdraws, n)[i] == status_of(
                accounts,
                withdraws,
                i,
            ),
{
}

/// Deciding withdrawals tracks the same accounts.
proof fn lemma_same_accounts(
    accounts: Map<ObjectID, AccountState>,
    withdraws: Seq<TxBalanceWithdraw>,
    n: nat,
)
    ensures
        accounts_after(accounts, withdraws, n).dom() == accounts.dom(),
    decreases n,
{
    if n > 0 {
        lemma_same_accounts(accounts, withdraws, (n - 1) as nat);
        law_all_reservations_or_none(
            accounts_after(accounts, withdraws, (n - 1) as nat),
            withdraws[n - 1].reservations@,
        );
    }
}

/// Every withdrawal that has a sender counts, and no other: their number is the smaller of the two.
pub proof fn law_every_withdrawal_with_a_sender_is_decided<S>(batch: WithdrawReservations<S>)
    ensures
        batch.paired() <= batch.withdraws@.len(),
        batch.paired() <= batch.senders@.len(),
        batch.paired() == batch.withdraws@.len() || batch.paired() == batch.senders@.len(),
        batch.withdraws@.len() == batch.senders@.len() ==> batch.paired() == batch.senders@.len(),
{
}

/// Every withdrawal that has a sender is answered, to that sender and under its own digest, and
/// nothing else is.
pub proof fn law_every_sender_is_answered<S>(
    results: Seq<(S, ScheduleResult)>,
    batch: WithdrawReservations<S>,
)
    requires
        answers_batch(results, batch),
    ensures
        results.len() <= batch.withdraws@.len(),
        results.len() <= batch.senders@.len(),
        results.len() == batch.withdraws@.len() || results.len() == batch.senders@.len(),
        forall|i: int|
            0 <= i < batch.withdraws@.len() && i < batch.senders@.len() ==> {
                &&& (#[trigger] results[i]).0 == batch.senders@[i]
                &&& results[i].1.tx_digest == batch.withdraws@[i].tx_digest
            },
        decisions(results).len() == results.len(),
        forall|i: int|
            0 <= i < results.len() ==> #[trigger] decisions(results)[i] == results[i].1.status,
{
}

/// Every withdrawal of a batch that was scheduled before is answered so, however many there are.
pub proof fn law_repeated_batch_is_answered_already_scheduled<S>(
    results: Seq<(S, ScheduleResult)>,
    batch: WithdrawReservations<S>,
)
    requires
        answers_batch(results, batch),
        decisions(results) == already_scheduled_statuses(batch.paired()),
    ensures
        forall|i: int|
            0 <= i < batch.withdraws@.len() && i < batch.senders@.len() ==> (
            #[trigger] results[i]).1.status is AlreadyScheduled,
        forall|n: nat| #[trigger] already_scheduled_statuses(n).len() == n,
        forall|n: nat, i: int|
            0 <= i < n ==> #[trigger] already_scheduled_statuses(n)[i] is AlreadyScheduled,
{
    assert forall|i: int| 0 <= i < batch.withdraws@.len() && i < batch.senders@.len() implies (
    #[trigger] results[i]).1.status is AlreadyScheduled by {
        assert(decisions(results)[i] == results[i].1.status);
        assert(already_scheduled_statuses(batch.paired())[i] is AlreadyScheduled);
    }
}

/// An account is among those of the first `n` withdrawals just when one of them reserves from it.
pub proof fn law_mentioned_accounts_are_those_named(
    withdraws: Seq<TxBalanceWithdraw>,
    n: nat,
    i: nat,
    id: ObjectID,
)
    ensures
        i < n && withdraws[i as int].reservations@.contains_key(id) ==> mentioned(
            withdraws,
            n,
        ).contains(id),
        mentioned(withdraws, 0) == Set::<ObjectID>::empty(),
        mentioned(withdraws, n + 1).contains(id) ==> mentioned(withdraws, n).contains(id)
            || withdraws[n as int].reservations@.contains_key(id),
{
    assert(mentioned(withdraws, 0) =~= Set::<ObjectID>::empty());
}

/// Loading tracks the given accounts besides those that were. What was tracked stays as it was;
/// what was not holds the balance that was read, at the version, with nothing reserved.
pub proof fn law_loading_adds_untracked_accounts(
    accounts: Map<ObjectID, AccountState>,
    ids: Set<ObjectID>,
    balances: Map<ObjectID, u64>,
    version: SequenceNumber,
)
    ensures
        with_loaded(accounts, ids, balances, version).dom() == accounts.dom().union(ids),
        forall|id: ObjectID| #[trigger]
            accounts.contains_key(id) ==> with_loaded(accounts, ids, balances, version)[id]
                == accounts[id],
        forall|id: ObjectID| #[trigger]
            ids.contains(id) && !accounts.contains_key(id) ==> {
                let account = with_loaded(accounts, ids, balances, version)[id];
                &&& account.settled_balance == balances[id]
                &&& account.cumulative_reservations == 0
                &&& account.last_settled_version == version
                &&& !account.entire_balance_reserved
            },
{
    assert(with_loaded(accounts, ids, balances, version).dom() =~= accounts.dom().union(ids));
}

/// Cleaning up keeps the accounts from which something is reserved, be it the smallest amount, as
/// they are, and drops the others.
pub proof fn law_cleanup_keeps_accounts_in_use(accounts: Map<ObjectID, AccountState>)
    ensures
        forall|id: ObjectID| #[trigger]
            reserved_only(accounts).contains_key(id) <==> accounts.contains_key(id) && (
            accounts[id].cumulative_reservations != 0 || accounts[id].entire_balance_reserved),
        forall|id: ObjectID| #[trigger]
            reserved_only(accounts).contains_key(id) ==> reserved_only(accounts)[id]
                == accounts[id],
{
}

/// The accounts that are counted as having reserved amounts, and those whose entire balance is
/// reserved.
pub proof fn law_counted_accounts(accounts: Map<ObjectID, AccountState>, id: ObjectID)
    ensures
        with_reservations(accounts).contains(id) <==> accounts.contains_key(id)
            && accounts[id].cumulative_reservations != 0,
        entire_balance_reserved(accounts).contains(id) <==> accounts.contains_key(id)
            && accounts[id].entire_balance_reserved,
{
}

/// Each reservation of a transaction is of one kind or the other, and is counted as that.
pub proof fn law_reservations_are_of_one_kind(
    reservations: Map<ObjectID, Reservation>,
    id: ObjectID,
)
    ensures
        reserved_by_kind(reservations, true).contains(id) <==> reservations.contains_key(id)
            && reservations[id] == Reservation::EntireBalance,
        reserved_by_kind(reservations, false).contains(id) <==> reservations.contains_key(id)
            && reservations[id] != Reservation::EntireBalance,
        reserved_by_kind(reservations, true).disjoint(reserved_by_kind(reservations, false)),
        reserved_by_kind(reservations, true).union(reserved_by_kind(reservations, false))
            == reservations.dom(),
{
    assert(reserved_by_kind(reservations, true).union(reserved_by_kind(reservations, false))
        =~= reservations.dom());
}

/// The count of reservations starts at none, and what it grows to is the sum, or the largest 64-bit
/// value where the sum is larger.
pub proof fn law_reservation_counts_add_up(
    statuses: Seq<ScheduleStatus>,
    withdraws: Seq<TxBalanceWithdraw>,
    n: nat,
    entire: bool,
    count: u64,
    more: nat,
)
    ensures
        reservations_made(statuses, withdraws, 0, entire) == 0,
        statuses[n as int] is SufficientBalance ==> reservations_made(
            statuses,
            withdraws,
            n + 1,
            entire,
        ) == reservations_made(statuses, withdraws, n, entire) + reserved_by_kind(
            withdraws[n as int].reservations@,
            entire,
        ).len(),
        statuses[n as int] !is SufficientBalance ==> reservations_made(
            statuses,
            withdraws,
            n + 1,
            entire,
        ) == reservations_made(statuses, withdraws, n, entire),
        grown(count, more) <= count + more,
        grown(count, more) != count + more ==> grown(count, more) == u64::MAX,
{
}

/// A scheduler starts with nothing tracked, nothing scheduled and nothing counted, at the version
/// that it is given.
pub proof fn law_scheduler_starts_empty(
    version: SequenceNumber,
    id: ObjectID,
    batch: SequenceNumber,
)
    ensures
        ({
            let start = SchedulerView::starting_at(version);
            &&& !start.accounts.contains_key(id)
            &&& !start.already_scheduled(batch)
            &&& start.highest_processed_version == version
            &&& start.last_settled_version == version
            &&& start.amount_reservations == 0
            &&& start.entire_balance_reservations == 0
        }),
{
}

/// A batch counts as scheduled just when its version is among those recorded.
pub proof fn law_scheduled_batches_are_those_recorded(
    view: SchedulerView,
    version: SequenceNumber,
)
    ensures
        view.already_scheduled(version) <==> view.scheduled.dom().contains(version.0),
        ({
            let marked = view.marked(version);
            &&& marked.scheduled == view.scheduled.insert(version.0, true)
            &&& marked.highest_processed_version.0 >= version.0
            &&& marked.highest_processed_version.0 >= view.highest_processed_version.0
            &&& marked.highest_processed_version == version || marked.highest_processed_version
                == view.highest_processed_version
            &&& marked.accounts == view.accounts
            &&& marked.last_settled_version == view.last_settled_version
            &&& marked.amount_reservations == view.amount_reservations
            &&& marked.entire_balance_reservations == view.entire_balance_reservations
        }),
{
}

/// A well-formed scheduler tracks only accounts with something reserved that their balance covers.
pub proof fn law_tracked_accounts_are_in_use_and_covered(view: SchedulerView)
    ensures
        view.wf() <==> (forall|id: ObjectID| #[trigger]
            view.accounts.contains_key(id) ==> {
                let account = view.accounts[id];
                &&& account.cumulative_reservations <= account.settled_balance
                &&& account.cumulative_reservations != 0 || account.entire_balance_reserved
                &&& account.entire_balance_reserved ==> account.cumulative_reservations == 0
                    && account.settled_balance != 0
            }),
{
    if forall|id: ObjectID| #[trigger]
        view.accounts.contains_key(id) ==> {
            let account = view.accounts[id];
            &&& account.cumulative_reservations <= account.settled_balance
            &&& account.cumulative_reservations != 0 || account.entire_balance_reserved
            &&& account.entire_balance_reserved ==> account.cumulative_reservations == 0
                && account.settled_balance != 0
        } {
        assert(view.wf());
    }
}

/// What scheduling a batch comes to, from the balances that were read to the accounts that stay
/// tracked.
///
/// The balances are answers of the reader, one for each account that some withdrawal names and that
/// was not tracked. The stages are the accounts before the first withdrawal, between each two and
/// after the last. A withdrawal is granted just when each account that it names has the amount
/// free, or has its entire balance free; then each of them records its reservation. Otherwise
/// nothing changes. In the end the accounts with something reserved stay.
#[verifier::spinoff_prover]
#[verifier::rlimit(40)]
pub proof fn law_batch_from_reads_to_results<B: AccountBalanceRead, S>(
    reader: B,
    before: SchedulerView,
    after: SchedulerView,
    batch: WithdrawReservations<S>,
    statuses: Seq<ScheduleStatus>,
) -> (run: (Map<ObjectID, u64>, Seq<Map<ObjectID, AccountState>>))
    requires
        scheduled_on_answers(reader, before, after, batch, statuses),
    ensures
        statuses.len() <= batch.withdraws@.len(),
        statuses.len() <= batch.senders@.len(),
        statuses.len() == batch.withdraws@.len() || statuses.len() == batch.senders@.len(),
        forall|id: ObjectID| #[trigger]
            run.0.contains_key(id) <==> !before.accounts.contains_key(id) && (exists|i: int|
                0 <= i < statuses.len()
                    && #[trigger] batch.withdraws@[i].reservations@.contains_key(id)),
        forall|id: ObjectID| #[trigger]
            run.0.contains_key(id) ==> call_ensures(
                B::get_account_balance,
                (&reader, &id, batch.accumulator_version),
                run.0[id],
            ),
        run.1.len() == statuses.len() + 1,
        run.1[0].dom() == before.accounts.dom().union(run.0.dom()),
        forall|id: ObjectID| #[trigger]
            before.accounts.contains_key(id) ==> run.1[0][id] == before.accounts[id],
        forall|id: ObjectID| #[trigger]
            run.0.contains_key(id) ==> {
                &&& run.1[0][id].settled_balance == run.0[id]
                &&& run.1[0][id].cumulative_reservations == 0
                &&& run.1[0][id].last_settled_version == batch.accumulator_version
                &&& !run.1[0][id].entire_balance_reserved
            },
        forall|i: int|
            0 <= i < statuses.len() ==> (#[trigger] statuses[i] is SufficientBalance <==> (forall|
                id: ObjectID,
            | #[trigger]
                batch.withdraws@[i].reservations@.contains_key(id) ==> {
                    let account = run.1[i][id];
                    &&& !account.entire_balance_reserved
                    &&& match batch.withdraws@[i].reservations@[id] {
                        Reservation::MaxAmountU64(amount) => amount == 0
                            || account.cumulative_reservations + amount <= account.settled_balance,
                        Reservation::EntireBalance => account.cumulative_reservations == 0
                            && account.settled_balance > 0,
                    }
                })),
        forall|i: int|
            0 <= i < statuses.len() && #[trigger] statuses[i] !is SufficientBalance ==> {
                &&& statuses[i] is InsufficientBalance
                &&& run.1[i + 1] == run.1[i]
            },
        forall|i: int|
            0 <= i < statuses.len() && #[trigger] statuses[i] is SufficientBalance ==> {
                &&& run.1[i + 1].dom() == run.1[i].dom()
                &&& forall|id: ObjectID| #[trigger]
                    batch.withdraws@[i].reservations@.contains_key(id) ==> {
                        let earlier = run.1[i][id];
                        let later = run.1[i + 1][id];
                        &&& run.1[i].contains_key(id)
                        &&& later.settled_balance == earlier.settled_balance
                        &&& later.last_settled_version == earlier.last_settled_version
                        &&& match batch.withdraws@[i].reservations@[id] {
                            Reservation::MaxAmountU64(amount) => {
                                &&& later.cumulative_reservations
                                    == earlier.cumulative_reservations + amount
                                &&& !later.entire_balance_reserved
                            },
                            Reservation::EntireBalance => {
                                &&& later.cumulative_reservations == 0
                                &&& later.entire_balance_reserved
                            },
                        }
                    }
                &&& forall|id: ObjectID| #[trigger]
                    run.1[i].contains_key(id)
                        && !batch.withdraws@[i].reservations@.contains_key(id) ==> run.1[i + 1][id]
                        == run.1[i][id]
            },
        forall|id: ObjectID| #[trigger]
            after.accounts.contains_key(id) <==> run.1[statuses.len() as int].contains_key(id) && (
            run.1[statuses.len() as int][id].cumulative_reservations != 0
                || run.1[statuses.len() as int][id].entire_balance_reserved),
        forall|id: ObjectID| #[trigger]
            after.accounts.contains_key(id) ==> after.accounts[id]
                == run.1[statuses.len() as int][id],
        after.scheduled == before.scheduled.insert(batch.accumulator_version.0, true),
        after.highest_processed_version.0 >= batch.accumulator_version.0,
        after.highest_processed_version.0 >= before.highest_processed_version.0,
        after.highest_processed_version == batch.accumulator_version
            || after.highest_processed_version == before.highest_processed_version,
        after.last_settled_version == before.last_settled_version,
        after.amount_reservations == grown(
            before.amount_reservations,
            reservations_made(statuses, batch.withdraws@, statuses.len(), false),
        ),
        after.entire_balance_reservations == grown(
            before.entire_balance_reservations,
            reservations_made(statuses, batch.withdraws@, statuses.len(), true),
        ),
{
    let version = batch.accumulator_version;
    let withdraws = batch.withdraws@;
    let n = batch.paired();
    let balances = choose|balances: Map<ObjectID, u64>|
        {
            &&& answered_by(reader, version, balances)
            &&& #[trigger] scheduled_with(before, after, batch, statuses, balances)
        };
    let loaded = before.loaded(version, withdraws, n, balances);
    let stages = Seq::new(n + 1, |i: int| accounts_after(loaded, withdraws, i as nat));
    assert forall|id: ObjectID| #[trigger] balances.contains_key(id) <==> (
    !before.accounts.contains_key(id) && (exists|i: int|
        0 <= i < n && #[trigger] withdraws[i].reservations@.contains_key(id))) by {
        assert(balances.contains_key(id) == before.untracked(withdraws, n).contains(id));
    }
    assert(stages[0] == loaded);
    assert(loaded.dom() =~= before.accounts.dom().union(balances.dom()));
    assert forall|i: int| 0 <= i < n implies {
        &&& #[trigger] statuses[i] == status_of(loaded, withdraws, i)
        &&& stages[i + 1] == decide(stages[i], withdraws[i].reservations@)
        &&& stages[i].dom() == loaded.dom()
        &&& forall|id: ObjectID| #[trigger]
            withdraws[i].reservations@.contains_key(id) ==> stages[i].contains_key(id)
    } by {
        lemma_same_accounts(loaded, withdraws, i as nat);
        law_withdrawals_are_decided_in_turn(loaded, withdraws, i as nat);
        assert(stages[i] == accounts_after(loaded, withdraws, i as nat));
        assert(stages[i + 1] == accounts_after(loaded, withdraws, (i + 1) as nat));
        assert forall|id: ObjectID| #[trigger]
            withdraws[i].reservations@.contains_key(id) implies stages[i].contains_key(id) by {
            assert(mentioned(withdraws, n).contains(id));
        }
    }
    assert forall|i: int| 0 <= i < n implies (#[trigger] statuses[i] is SufficientBalance <==> (
    forall|id: ObjectID| #[trigger]
        withdraws[i].reservations@.contains_key(id) ==> stages[i][id].covers(
            withdraws[i].reservations@[id],
        ))) by {
        law_transaction_is_granted_where_each_account_grants(loaded, withdraws, i as nat);
        assert(stages[i] == accounts_after(loaded, withdraws, i as nat));
    }
    assert forall|i: int| 0 <= i < n implies (#[trigger] statuses[i] is SufficientBalance <==> (
    forall|id: ObjectID| #[trigger]
        withdraws[i].reservations@.contains_key(id) ==> {
            let account = stages[i][id];
            &&& !account.entire_balance_reserved
            &&& match withdraws[i].reservations@[id] {
                Reservation::MaxAmountU64(amount) => amount == 0 || account.cumulative_reservations
                    + amount <= account.settled_balance,
                Reservation::EntireBalance => account.cumulative_reservations == 0
                    && account.settled_balance > 0,
            }
        })) by {
        assert forall|id: ObjectID| #[trigger]
            withdraws[i].reservations@.contains_key(id) implies ({
            let account = stages[i][id];
            &&& !account.entire_balance_reserved
            &&& match withdraws[i].reservations@[id] {
                Reservation::MaxAmountU64(amount) => amount == 0 || account.cumulative_reservations
                    + amount <= account.settled_balance,
                Reservation::EntireBalance => account.cumulative_reservations == 0
                    && account.settled_balance > 0,
            }
        } <==> stages[i][id].covers(withdraws[i].reservations@[id])) by {
            match withdraws[i].reservations@[id] {
                Reservation::MaxAmountU64(amount) => {
                    law_amount_is_granted_where_it_fits(stages[i][id], amount);
                },
                Reservation::EntireBalance => {
                    law_entire_balance_is_granted_where_nothing_is_reserved(stages[i][id]);
                },
            }
        }
    }
    assert forall|i: int|
        0 <= i < n && #[trigger] statuses[i] is SufficientBalance implies stages[i + 1].dom()
        == stages[i].dom() by {
        law_all_reservations_or_none(stages[i], withdraws[i].reservations@);
    }
    law_cleanup_keeps_accounts_in_use(stages[n as int]);
    (balances, stages)
}

/// A settlement leaves no account tracked and nothing counted. It keeps the batches from its
/// version on, forgets those before it, sets the last settled version, and changes nothing else.
pub proof fn law_settlement_starts_over(before: SchedulerView, version: SequenceNumber)
    ensures
        ({
            let after = before.after_settlement(version);
            &&& forall|id: ObjectID| !#[trigger] after.accounts.contains_key(id)
            &&& forall|v: u64| #[trigger]
                after.scheduled.contains_key(v) <==> before.scheduled.contains_key(v) && v
                    >= version.0
            &&& forall|v: u64| #[trigger]
                after.scheduled.contains_key(v) ==> after.scheduled[v] == before.scheduled[v]
            &&& after.last_settled_version == version
            &&& after.highest_processed_version == before.highest_processed_version
            &&& after.amount_reservations == 0
            &&& after.entire_balance_reservations == 0
        }),
        forall|v: u64| #[trigger]
            entries_from(before.scheduled, version).contains_key(v)
                <==> before.scheduled.contains_key(v) && v >= version.0,
{
}

/// A settlement rests on answers of the reader, one for each tracked account that it does not name.
pub proof fn law_settlement_reads_what_it_does_not_name<B: AccountBalanceRead>(
    reader: B,
    before: SchedulerView,
    settlement: BalanceSettlement,
) -> (balances: Map<ObjectID, u64>)
    requires
        refreshed_on_answers(reader, before, settlement),
    ensures
        forall|id: ObjectID| #[trigger]
            balances.contains_key(id) <==> before.accounts.contains_key(id)
                && !settlement.balance_changes@.contains_key(id),
        forall|id: ObjectID| #[trigger]
            balances.contains_key(id) ==> call_ensures(
                B::get_account_balance,
                (&reader, &id, settlement.accumulator_version),
                balances[id],
            ),
{
    choose|balances: Map<ObjectID, u64>|
        {
            &&& balances.dom() == before.accounts.dom().difference(
                settlement.balance_changes@.dom(),
            )
            &&& #[trigger] answered_by(reader, settlement.accumulator_version, balances)
        }
}

/// A change of less than 2^64 either way is added to the balance, which stops at zero and at the
/// largest 64-bit value. One that is larger does what it does without 2^64 of it.
pub proof fn law_balance_changes_add_up(balance: u64, change: i128)
    ensures
        -0x1_0000_0000_0000_0000 < change < 0x1_0000_0000_0000_0000 && 0 <= balance + change
            <= u64::MAX ==> changed_balance(balance, change) == balance + change,
        -0x1_0000_0000_0000_0000 < change && balance + change < 0 ==> changed_balance(
            balance,
            change,
        ) == 0,
        change < 0x1_0000_0000_0000_0000 && balance + change > u64::MAX ==> changed_balance(
            balance,
            change,
        ) == u64::MAX,
        change >= 0x1_0000_0000_0000_0000 ==> changed_balance(balance, change) == changed_balance(
            balance,
            (change - 0x1_0000_0000_0000_0000) as i128,
        ),
        change == -0x1_0000_0000_0000_0000 ==> changed_balance(balance, change) == balance,
        change < -0x1_0000_0000_0000_0000 ==> changed_balance(balance, change) == changed_balance(
            balance,
            (change + 0x1_0000_0000_0000_0000) as i128,
        ),
{
    let modulus = 0x1_0000_0000_0000_0000int;
    let size = if change >= 0 {
        change as int
    } else {
        -(change as int)
    };
    if size < modulus {
        vstd::arithmetic::div_mod::lemma_small_mod(size as nat, modulus as nat);
    } else {
        vstd::arithmetic::div_mod::lemma_mod_sub_multiples_vanish(size, modulus);
        assert((size - modulus) % modulus == size % modulus);
        vstd::arithmetic::div_mod::lemma_mod_self_0(modulus);
    }
}

/// The accounts that a settlement names are settled with their changed balances, and the others
/// stay as they were.
pub proof fn law_changes_settle_named_accounts(
    accounts: Map<ObjectID, AccountState>,
    changes: Map<ObjectID, i128>,
    version: SequenceNumber,
)
    ensures
        with_changes(accounts, changes, version).dom() == accounts.dom(),
        forall|id: ObjectID| #[trigger]
            accounts.contains_key(id) && !changes.contains_key(id) ==> with_changes(
                accounts,
                changes,
                version,
            )[id] == accounts[id],
        forall|id: ObjectID| #[trigger]
            accounts.contains_key(id) && changes.contains_key(id) ==> {
                let account = with_changes(accounts, changes, version)[id];
                &&& account.settled_balance == changed_balance(
                    accounts[id].settled_balance,
                    changes[id],
                )
                &&& account.cumulative_reservations == 0
                &&& account.last_settled_version == version
                &&& !account.entire_balance_reserved
            },
{
    assert(with_changes(accounts, changes, version).dom() =~= accounts.dom());
}

/// The accounts for which a balance is given are settled with it, and the others stay as they were.
pub proof fn law_refreshing_settles_given_accounts(
    accounts: Map<ObjectID, AccountState>,
    balances: Map<ObjectID, u64>,
    version: SequenceNumber,
)
    ensures
        with_refreshed(accounts, balances, version).dom() == accounts.dom(),
        forall|id: ObjectID| #[trigger]
            accounts.contains_key(id) && !balances.contains_key(id) ==> with_refreshed(
                accounts,
                balances,
                version,
            )[id] == accounts[id],
        forall|id: ObjectID| #[trigger]
            accounts.contains_key(id) && balances.contains_key(id) ==> {
                let account = with_refreshed(accounts, balances, version)[id];
                &&& account.settled_balance == balances[id]
                &&& account.cumulative_reservations == 0
                &&& account.last_settled_version == version
                &&& !account.entire_balance_reserved
            },
{
    assert(with_refreshed(accounts, balances, version).dom() =~= accounts.dom());
}

/// Ids are ordered by their first halves, and by their second halves where those are equal. Of two
/// different ids just one comes before the other.
pub proof fn law_ids_are_ordered(a: ObjectID, b: ObjectID, c: ObjectID)
    ensures
        a.0 < b.0 ==> id_before(a, b),
        a.0 == b.0 ==> (id_before(a, b) <==> a.1 < b.1),
        a != b ==> id_before(a, b) != id_before(b, a),
        !id_before(a, a),
        id_before(a, b) && id_before(b, c) ==> id_before(a, c),
{
}

/// Ids ascend just when each comes before every later one.
pub proof fn law_ascending_ids(ids: Seq<ObjectID>)
    ensures
        ascending(ids) <==> (forall|i: int, j: int|
            0 <= i < j < ids.len() ==> {
                let (a, b) = (#[trigger] ids[i], #[trigger] ids[j]);
                a.0 < b.0 || (a.0 == b.0 && a.1 < b.1)
            }),
{
    if forall|i: int, j: int|
        0 <= i < j < ids.len() ==> {
            let (a, b) = (#[trigger] ids[i], #[trigger] ids[j]);
            a.0 < b.0 || (a.0 == b.0 && a.1 < b.1)
        } {
        assert(ascending(ids));
    }
}

/// A batch goes through its accounts in the order of the first withdrawals that name them, and of
/// their ids where that is the same one.
pub proof fn law_batch_order(
    ids: Seq<ObjectID>,
    withdraws: Seq<TxBalanceWithdraw>,
    n: nat,
    i: int,
    j: int,
    first_i: int,
    first_j: int,
)
    requires
        in_batch_order(ids, withdraws, n),
        0 <= i < j < ids.len(),
        0 <= first_i < n && withdraws[first_i].reservations@.contains_key(ids[i]),
        0 <= first_j < n && withdraws[first_j].reservations@.contains_key(ids[j]),
        forall|k: int|
            0 <= k < first_i ==> !#[trigger] withdraws[k].reservations@.contains_key(ids[i]),
        forall|k: int|
            0 <= k < first_j ==> !#[trigger] withdraws[k].reservations@.contains_key(ids[j]),
    ensures
        first_i <= first_j,
        first_i == first_j ==> id_before(ids[i], ids[j]),
{
    let (a, b) = (ids[i], ids[j]);
    assert(comes_before(withdraws, n, a, b));
    assert forall|k: nat| k <= n implies (#[trigger] mentioned(withdraws, k).contains(a) <==> k
        > first_i) by {
        if k > first_i {
            assert(withdraws[first_i].reservations@.contains_key(a));
        }
    }
    assert forall|k: nat| k <= n implies (#[trigger] mentioned(withdraws, k).contains(b) <==> k
        > first_j) by {
        if k > first_j {
            assert(withdraws[first_j].reservations@.contains_key(b));
        }
    }
    if first_j < first_i {
        let k = (first_j + 1) as nat;
        assert(mentioned(withdraws, k).contains(b) && !mentioned(withdraws, k).contains(a));
    }
}

/// The record of reads goes on with a question at the version for each of the accounts, once, and
/// with no other.
pub proof fn law_each_account_is_asked_for_once(
    before: Seq<(ObjectID, SequenceNumber)>,
    after: Seq<(ObjectID, SequenceNumber)>,
    ids: Set<ObjectID>,
    version: SequenceNumber,
)
    requires
        asked_once(before, after, ids, version),
    ensures
        before.len() <= after.len(),
        forall|i: int| 0 <= i < before.len() ==> #[trigger] after[i] == before[i],
        forall|i: int|
            before.len() <= i < after.len() ==> ids.contains((#[trigger] after[i]).0) && after[i].1
                == version,
        forall|i: int, j: int|
            before.len() <= i < j < after.len() ==> (#[trigger] after[i]).0 != (
            #[trigger] after[j]).0,
        forall|id: ObjectID| #[trigger]
            ids.contains(id) ==> exists|i: int|
                before.len() <= i < after.len() && #[trigger] after[i] == (id, version),
        newly_asked(before, after).len() == after.len() - before.len(),
        forall|i: int|
            0 <= i < after.len() - before.len() ==> #[trigger] newly_asked(before, after)[i]
                == after[before.len() + i].0,
{
    let asked = after.skip(before.len() as int);
    assert forall|i: int| before.len() <= i < after.len() implies ids.contains(
        (#[trigger] after[i]).0,
    ) && after[i].1 == version by {
        assert(asked[i - before.len()] == after[i]);
    }
    assert forall|i: int, j: int| before.len() <= i < j < after.len() implies (
    #[trigger] after[i]).0 != (#[trigger] after[j]).0 by {
        assert(asked[i - before.len()] == after[i]);
        assert(asked[j - before.len()] == after[j]);
        assert(asked[i - before.len()] != asked[j - before.len()]);
    }
    assert forall|id: ObjectID| #[trigger] ids.contains(id) implies exists|i: int|
        before.len() <= i < after.len() && #[trigger] after[i] == (id, version) by {
        assert(asked.contains((id, version)));
        let i = choose|i: int| 0 <= i < asked.len() && asked[i] == (id, version);
        assert(after[before.len() + i] == (id, version));
    }
}

/// Loading an account asks for it, at the version, just when it is not tracked.
pub proof fn law_loading_asks_for_untracked_accounts(
    reads: Seq<(ObjectID, SequenceNumber)>,
    id: ObjectID,
    accounts: Map<ObjectID, AccountState>,
    version: SequenceNumber,
)
    ensures
        accounts.contains_key(id) ==> reads_after_load(reads, id, accounts.dom(), version) == reads,
        !accounts.contains_key(id) ==> {
            let after = reads_after_load(reads, id, accounts.dom(), version);
            &&& after.len() == reads.len() + 1
            &&& after.last() == (id, version)
            &&& after.drop_last() == reads
        },
{
    assert(reads.push((id, version)).drop_last() =~= reads);
}

/// What is said of the state is said of its fields.
pub proof fn law_state_is_seen_as_it_is(state: EagerSchedulerState, batches: ScheduledBatches)
    ensures
        state@.accounts == state.account_states@,
        state@.scheduled == state.scheduled_batches.scheduled_versions@,
        state@.highest_processed_version == state.highest_processed_version,
        state@.last_settled_version == state.last_settled_version,
        state@.amount_reservations == state.amount_reservations,
        state@.entire_balance_reservations == state.entire_balance_reservations,
        batches@ == batches.scheduled_versions@,
{
}

} // verus!
