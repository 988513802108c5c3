//! What holds of the scheduler whatever it is given.

use crate::account_state::AccountState;
use crate::families::increased;
use crate::metrics::{outcome_label_spec, MetricsView};
use crate::model::{
    accounts_after, all_covered, decide, entire_balance_reserved, grown, lemma_accounts_after_wf,
    lemma_after_batch_wf, lemma_mentioned_step, mentioned, reservations_made, reserved_by_kind,
    status_of, statuses_of, with_loaded, SchedulerView,
};
use crate::reader::reads_after_load;
use crate::types::{ObjectID, Reservation, ScheduleStatus, SequenceNumber, TxBalanceWithdraw};
use vstd::prelude::*;

verus! {

/// A granted amount lowers the guaranteed balance by just that amount.
pub proof fn law_reservation_lowers_guaranteed_balance(account: AccountState, amount: u64)
    requires
        account.wf(),
        account.covers(Reservation::MaxAmountU64(amount)),
    ensures
        account.reserve(Reservation::MaxAmountU64(amount)).guaranteed() == account.guaranteed()
            - amount,
{
}

/// Once the entire balance is reserved, no further reservation is covered.
pub proof fn law_entire_balance_excludes_others(account: AccountState, reservation: Reservation)
    requires
        account.entire_balance_reserved,
    ensures
        !account.covers(reservation),
        account.guaranteed() == 0,
{
}

/// Once an amount is reserved, the entire balance can no longer be.
pub proof fn law_amount_excludes_entire_balance(account: AccountState, amount: u64)
    requires
        amount > 0,
    ensures
        !account.reserve(Reservation::MaxAmountU64(amount)).covers(Reservation::EntireBalance),
{
}

/// A settlement frees everything that was reserved.
pub proof fn law_settlement_frees_balance(balance: u64, version: SequenceNumber)
    ensures
        AccountState::settled(balance, version).guaranteed() == balance,
        !AccountState::settled(balance, version).is_reserved(),
{
}

/// An account after reservations are tried on it one after the other.
pub open spec fn reserve_in_turn(
    account: AccountState,
    reservations: Seq<Reservation>,
) -> AccountState
    decreases reservations.len(),
{
    if reservations.len() == 0 {
        account
    } else {
        let earlier = reserve_in_turn(account, reservations.drop_last());
        if earlier.covers(reservations.last()) {
            earlier.reserve(reservations.last())
        } else {
            earlier
        }
    }
}

/// The amount that a reservation names.
pub open spec fn amount_of(reservation: Reservation) -> nat {
    match reservation {
        Reservation::MaxAmountU64(amount) => amount as nat,
        Reservation::EntireBalance => 0,
    }
}

/// The sum of the amounts that are granted when reservations are tried one after the other.
pub open spec fn granted_in_turn(account: AccountState, reservations: Seq<Reservation>) -> nat
    decreases reservations.len(),
{
    if reservations.len() == 0 {
        0
    } else {
        let earlier = reservations.drop_last();
        granted_in_turn(account, earlier) + if reserve_in_turn(account, earlier).covers(
            reservations.last(),
        ) {
            amount_of(reservations.last())
        } else {
            0
        }
    }
}

/// Between two settlements an account keeps its balance, and what it grants never exceeds it.
pub proof fn law_account_is_never_overdrawn(account: AccountState, reservations: Seq<Reservation>)
    requires
        account.wf(),
    ensures
        reserve_in_turn(account, reservations).wf(),
        reserve_in_turn(account, reservations).settled_balance == account.settled_balance,
        reserve_in_turn(account, reservations).last_settled_version == account.last_settled_version,
        reserve_in_turn(account, reservations).cumulative_reservations
            == account.cumulative_reservations + granted_in_turn(account, reservations),
        account.cumulative_reservations + granted_in_turn(account, reservations)
            <= account.settled_balance,
    decreases reservations.len(),
{
    if reservations.len() > 0 {
        law_account_is_never_overdrawn(account, reservations.drop_last());
    }
}

/// A transaction gets all of its reservations or none: where it is decided against, every account
/// stays as it was; where it is decided for, every reservation was covered and is made, and the
/// other accounts stay as they were.
pub proof fn law_transactions_are_atomic(
    accounts: Map<ObjectID, AccountState>,
    withdraws: Seq<TxBalanceWithdraw>,
    i: nat,
)
    ensures
        status_of(accounts, withdraws, i as int) is InsufficientBalance ==> accounts_after(
            accounts,
            withdraws,
            i + 1,
        ) == accounts_after(accounts, withdraws, i),
        status_of(accounts, withdraws, i as int) is SufficientBalance ==> {
            let before = accounts_after(accounts, withdraws, i);
            let after = accounts_after(accounts, withdraws, i + 1);
            let reservations = withdraws[i as int].reservations@;
            &&& after.dom() == before.dom()
            &&& forall|id: ObjectID| #[trigger]
                before.contains_key(id) ==> if reservations.contains_key(id) {
                    before[id].covers(reservations[id]) && after[id] == before[id].reserve(
                        reservations[id],
                    )
                } else {
                    after[id] == before[id]
                }
        },
{
    let before = accounts_after(accounts, withdraws, i);
    let reservations = withdraws[i as int].reservations@;
    assert(decide(before, reservations).dom() =~= before.dom());
}

/// The sum of the amounts that the first `n` withdrawals are granted from an account.
pub open spec fn granted_in_batch(
    accounts: Map<ObjectID, AccountState>,
    withdraws: Seq<TxBalanceWithdraw>,
    n: nat,
    id: ObjectID,
) -> nat
    decreases n,
{
    if n == 0 {
        0
    } else {
        let reservations = withdraws[n - 1].reservations@;
        granted_in_batch(accounts, withdraws, (n - 1) as nat, id) + if status_of(
            accounts,
            withdraws,
            n - 1,
        ) is SufficientBalance && reservations.contains_key(id) {
            amount_of(reservations[id])
        } else {
            0
        }
    }
}

/// What a batch is granted from an account, with what was reserved before, never exceeds the
/// balance of the account.
pub proof fn law_batch_never_overdraws(
    accounts: Map<ObjectID, AccountState>,
    withdraws: Seq<TxBalanceWithdraw>,
    n: nat,
    id: ObjectID,
)
    requires
        forall|other: ObjectID| #[trigger] accounts.contains_key(other) ==> accounts[other].wf(),
        accounts.contains_key(id),
    ensures
        accounts_after(accounts, withdraws, n)[id].settled_balance == accounts[id].settled_balance,
        accounts_after(accounts, withdraws, n)[id].cumulative_reservations
            == accounts[id].cumulative_reservations + granted_in_batch(
            accounts,
            withdraws,
            n,
            id,
        ),
        accounts[id].cumulative_reservations + granted_in_batch(accounts, withdraws, n, id)
            <= accounts[id].settled_balance,
    decreases n,
{
    lemma_accounts_after_wf(accounts, withdraws, n);
    if n > 0 {
        law_batch_never_overdraws(accounts, withdraws, (n - 1) as nat, id);
        lemma_accounts_after_wf(accounts, withdraws, (n - 1) as nat);
    }
}

/// An account whose entire balance is reserved stays so, and as it is, for the rest of a batch.
proof fn lemma_entire_balance_stays(
    accounts: Map<ObjectID, AccountState>,
    withdraws: Seq<TxBalanceWithdraw>,
    from: nat,
    to: nat,
    id: ObjectID,
)
    requires
        from <= to,
        accounts_after(accounts, withdraws, from).contains_key(id),
        accounts_after(accounts, withdraws, from)[id].entire_balance_reserved,
    ensures
        accounts_after(accounts, withdraws, to).contains_key(id),
        accounts_after(accounts, withdraws, to)[id] == accounts_after(
            accounts,
            withdraws,
            from,
        )[id],
    decreases to,
{
    if from < to {
        lemma_entire_balance_stays(accounts, withdraws, from, (to - 1) as nat, id);
    }
}

/// Once a transaction of a batch has reserved the entire balance of an account, every later one
/// that reserves from that account is decided against.
pub proof fn law_entire_balance_is_exclusive_in_batch(
    accounts: Map<ObjectID, AccountState>,
    withdraws: Seq<TxBalanceWithdraw>,
    i: nat,
    j: nat,
    id: ObjectID,
)
    requires
        i < j,
        accounts_after(accounts, withdraws, i).contains_key(id),
        withdraws[i as int].reservations@.contains_key(id),
        withdraws[i as int].reservations@[id] is EntireBalance,
        status_of(accounts, withdraws, i as int) is SufficientBalance,
        withdraws[j as int].reservations@.contains_key(id),
    ensures
        status_of(accounts, withdraws, j as int) is InsufficientBalance,
{
    lemma_entire_balance_stays(accounts, withdraws, i + 1, j, id);
}

/// While the entire balance of an account stays reserved from an earlier batch, every transaction
/// that reserves from the account is decided against.
pub proof fn law_entire_balance_blocks_until_settlement(
    before: SchedulerView,
    version: SequenceNumber,
    withdraws: Seq<TxBalanceWithdraw>,
    n: nat,
    balances: Map<ObjectID, u64>,
    i: nat,
    id: ObjectID,
)
    requires
        before.accounts.contains_key(id),
        before.accounts[id].entire_balance_reserved,
        i < n,
        withdraws[i as int].reservations@.contains_key(id),
    ensures
        status_of(
            before.loaded(version, withdraws, n, balances),
            withdraws,
            i as int,
        ) is InsufficientBalance,
        before.after_batch(version, withdraws, n, balances).accounts.contains_key(id),
        before.after_batch(version, withdraws, n, balances).accounts[id] == before.accounts[id],
{
    let accounts = before.loaded(version, withdraws, n, balances);
    lemma_entire_balance_stays(accounts, withdraws, 0, i, id);
    lemma_entire_balance_stays(accounts, withdraws, 0, n, id);
}

/// What an account that stays in use has reserved is what it had before the batch and what the
/// batch was granted, and its balance covers both. The balance is the one it was tracked with, or
/// the one that was read for the batch.
pub proof fn law_scheduler_never_overdraws(
    before: SchedulerView,
    version: SequenceNumber,
    withdraws: Seq<TxBalanceWithdraw>,
    n: nat,
    balances: Map<ObjectID, u64>,
    id: ObjectID,
)
    requires
        before.wf(),
        before.after_batch(version, withdraws, n, balances).accounts.contains_key(id),
    ensures
        ({
            let loaded = before.loaded(version, withdraws, n, balances);
            let account = before.after_batch(version, withdraws, n, balances).accounts[id];
            let reserved_before = if before.accounts.contains_key(id) {
                before.accounts[id].cumulative_reservations as nat
            } else {
                0
            };
            &&& account.cumulative_reservations == reserved_before + granted_in_batch(
                loaded,
                withdraws,
                n,
                id,
            )
            &&& account.cumulative_reservations <= account.settled_balance
            &&& account.settled_balance == if before.accounts.contains_key(id) {
                before.accounts[id].settled_balance
            } else {
                balances[id]
            }
        }),
{
    let loaded = before.loaded(version, withdraws, n, balances);
    lemma_accounts_after_wf(loaded, withdraws, n);
    law_batch_never_overdraws(loaded, withdraws, n, id);
}

/// A batch of which the first `n` withdrawals are scheduled, and what was read for it.
pub struct ReadBatch {
    pub version: SequenceNumber,
    pub withdraws: Seq<TxBalanceWithdraw>,
    pub n: nat,
    pub balances: Map<ObjectID, u64>,
}

/// The scheduler once batches are scheduled one after the other.
pub open spec fn after_batches(before: SchedulerView, batches: Seq<ReadBatch>) -> SchedulerView
    decreases batches.len(),
{
    if batches.len() == 0 {
        before
    } else {
        let batch = batches.last();
        after_batches(before, batches.drop_last()).after_batch(
            batch.version,
            batch.withdraws,
            batch.n,
            batch.balances,
        )
    }
}

/// The sum of the amounts that batches are granted from an account.
pub open spec fn granted_in_batches(
    before: SchedulerView,
    batches: Seq<ReadBatch>,
    id: ObjectID,
) -> nat
    decreases batches.len(),
{
    if batches.len() == 0 {
        0
    } else {
        let batch = batches.last();
        let loaded = after_batches(before, batches.drop_last()).loaded(
            batch.version,
            batch.withdraws,
            batch.n,
            batch.balances,
        );
        granted_in_batches(before, batches.drop_last(), id) + granted_in_batch(
            loaded,
            batch.withdraws,
            batch.n,
            id,
        )
    }
}

/// What is reserved from an account: nothing where it is not tracked.
pub open spec fn reserved_amount(view: SchedulerView, id: ObjectID) -> nat {
    if view.accounts.contains_key(id) {
        view.accounts[id].cumulative_reservations as nat
    } else {
        0
    }
}

/// Nothing is granted from an account that no transaction names.
proof fn lemma_nothing_granted_unmentioned(
    accounts: Map<ObjectID, AccountState>,
    withdraws: Seq<TxBalanceWithdraw>,
    n: nat,
    id: ObjectID,
)
    requires
        !mentioned(withdraws, n).contains(id),
    ensures
        granted_in_batch(accounts, withdraws, n, id) == 0,
    decreases n,
{
    if n > 0 {
        lemma_mentioned_step(withdraws, (n - 1) as nat);
        lemma_nothing_granted_unmentioned(accounts, withdraws, (n - 1) as nat, id);
    }
}

/// Over any number of batches without a settlement, what is reserved from an account is what was
/// before and all that the batches were granted, and the balance of the account covers it.
pub proof fn law_batches_never_overdraw(
    before: SchedulerView,
    batches: Seq<ReadBatch>,
    id: ObjectID,
)
    requires
        before.wf(),
    ensures
        after_batches(before, batches).wf(),
        reserved_amount(after_batches(before, batches), id) == reserved_amount(before, id)
            + granted_in_batches(before, batches, id),
        after_batches(before, batches).accounts.contains_key(id) ==> reserved_amount(before, id)
            + granted_in_batches(before, batches, id) <= after_batches(
            before,
            batches,
        ).accounts[id].settled_balance,
    decreases batches.len(),
{
    if batches.len() > 0 {
        let batch = batches.last();
        let earlier = after_batches(before, batches.drop_last());
        let loaded = earlier.loaded(batch.version, batch.withdraws, batch.n, batch.balances);
        law_batches_never_overdraw(before, batches.drop_last(), id);
        lemma_after_batch_wf(earlier, batch.version, batch.withdraws, batch.n, batch.balances);
        lemma_accounts_after_wf(loaded, batch.withdraws, batch.n);
        if loaded.contains_key(id) {
            law_batch_never_overdraws(loaded, batch.withdraws, batch.n, id);
        } else {
            lemma_nothing_granted_unmentioned(loaded, batch.withdraws, batch.n, id);
        }
    }
}

/// A transaction that is decided against might as well not be in its batch: without it the others
/// are decided alike and leave the same accounts.
pub proof fn law_refused_transaction_can_be_left_out(
    accounts: Map<ObjectID, AccountState>,
    withdraws: Seq<TxBalanceWithdraw>,
    refused: nat,
    n: nat,
)
    requires
        refused < n <= withdraws.len(),
        status_of(accounts, withdraws, refused as int) is InsufficientBalance,
    ensures
        accounts_after(accounts, withdraws.remove(refused as int), (n - 1) as nat)
            == accounts_after(accounts, withdraws, n),
        statuses_of(accounts, withdraws.remove(refused as int), (n - 1) as nat) == statuses_of(
            accounts,
            withdraws,
            n,
        ).remove(refused as int),
    decreases n,
{
    let rest = withdraws.remove(refused as int);
    lemma_same_before(accounts, withdraws, rest, refused);
    if n > refused + 1 {
        law_refused_transaction_can_be_left_out(accounts, withdraws, refused, (n - 1) as nat);
        assert(rest[n - 2] == withdraws[n - 1]);
    }
    assert forall|i: int| 0 <= i < n - 1 implies status_of(accounts, rest, i) == status_of(
        accounts,
        withdraws,
        if i < refused {
            i
        } else {
            i + 1
        },
    ) by {
        if i < refused {
            lemma_same_before(accounts, withdraws, rest, i as nat);
        } else if i == n - 2 {
            assert(rest[i] == withdraws[i + 1]);
        } else {
            let shorter = statuses_of(accounts, rest, (n - 2) as nat);
            assert(shorter[i] == status_of(accounts, rest, i));
            assert(statuses_of(accounts, withdraws, (n - 1) as nat).remove(refused as int)[i]
                == status_of(accounts, withdraws, i + 1));
        }
    }
    assert(statuses_of(accounts, rest, (n - 1) as nat) =~= statuses_of(
        accounts,
        withdraws,
        n,
    ).remove(refused as int));
}

/// The accounts after `n` withdrawals rest on those withdrawals alone.
proof fn lemma_same_before(
    accounts: Map<ObjectID, AccountState>,
    withdraws: Seq<TxBalanceWithdraw>,
    others: Seq<TxBalanceWithdraw>,
    n: nat,
)
    requires
        forall|i: int| 0 <= i < n ==> #[trigger] others[i] == withdraws[i],
    ensures
        accounts_after(accounts, others, n) == accounts_after(accounts, withdraws, n),
    decreases n,
{
    if n > 0 {
        lemma_same_before(accounts, withdraws, others, (n - 1) as nat);
        assert(others[n - 1] == withdraws[n - 1]);
    }
}

/// A batch that is scheduled counts as scheduled from then on.
pub proof fn law_batch_is_scheduled_once(
    before: SchedulerView,
    version: SequenceNumber,
    withdraws: Seq<TxBalanceWithdraw>,
    n: nat,
    balances: Map<ObjectID, u64>,
)
    ensures
        before.after_batch(version, withdraws, n, balances).already_scheduled(version),
{
}

/// Scheduling a batch changes nothing of whether others are scheduled.
pub proof fn law_other_batches_stay_scheduled(
    before: SchedulerView,
    version: SequenceNumber,
    withdraws: Seq<TxBalanceWithdraw>,
    n: nat,
    balances: Map<ObjectID, u64>,
    other: SequenceNumber,
)
    requires
        other != version,
    ensures
        before.after_batch(version, withdraws, n, balances).already_scheduled(other)
            == before.already_scheduled(other),
{
}

/// A settlement forgets the batches before it and no others.
pub proof fn law_settlement_forgets_earlier_batches(
    before: SchedulerView,
    settled: SequenceNumber,
    version: SequenceNumber,
)
    ensures
        before.after_settlement(settled).already_scheduled(version) <==> before.already_scheduled(
            version,
        ) && version.0 >= settled.0,
{
}

/// The highest processed version never falls: a batch raises it to its own version where that is
/// higher. A settlement leaves it alone and sets the last settled version.
pub proof fn law_highest_processed_version(
    before: SchedulerView,
    version: SequenceNumber,
    withdraws: Seq<TxBalanceWithdraw>,
    n: nat,
    balances: Map<ObjectID, u64>,
)
    ensures
        ({
            let highest = before.after_batch(
                version,
                withdraws,
                n,
                balances,
            ).highest_processed_version;
            &&& highest.0 >= before.highest_processed_version.0
            &&& highest.0 >= version.0
            &&& highest == version || highest == before.highest_processed_version
        }),
        before.after_settlement(version).highest_processed_version
            == before.highest_processed_version,
        before.after_settlement(version).last_settled_version == version,
{
}

/// Only accounts with pending withdrawals are tracked, whatever batch is scheduled and whatever is
/// settled, and what they have reserved is covered.
pub proof fn law_only_pending_accounts_are_tracked(
    before: SchedulerView,
    version: SequenceNumber,
    withdraws: Seq<TxBalanceWithdraw>,
    n: nat,
    balances: Map<ObjectID, u64>,
)
    requires
        before.wf(),
    ensures
        before.after_batch(version, withdraws, n, balances).wf(),
        before.after_settlement(version).wf(),
{
    lemma_after_batch_wf(before, version, withdraws, n, balances);
}

/// An account that no transaction names is not touched.
proof fn lemma_unmentioned_account_stays(
    accounts: Map<ObjectID, AccountState>,
    withdraws: Seq<TxBalanceWithdraw>,
    n: nat,
    id: ObjectID,
)
    requires
        !mentioned(withdraws, n).contains(id),
    ensures
        accounts_after(accounts, withdraws, n).contains_key(id) == accounts.contains_key(id),
        accounts.contains_key(id) ==> accounts_after(accounts, withdraws, n)[id] == accounts[id],
    decreases n,
{
    if n > 0 {
        assert(!mentioned(withdraws, (n - 1) as nat).contains(id)) by {
            lemma_mentioned_step(withdraws, (n - 1) as nat);
        }
        assert(!withdraws[n - 1].reservations@.contains_key(id));
        lemma_unmentioned_account_stays(accounts, withdraws, (n - 1) as nat, id);
    }
}

/// A batch leaves the accounts alone that none of its transactions reserves from.
pub proof fn law_batch_leaves_other_accounts_alone(
    before: SchedulerView,
    version: SequenceNumber,
    withdraws: Seq<TxBalanceWithdraw>,
    n: nat,
    balances: Map<ObjectID, u64>,
    id: ObjectID,
)
    requires
        before.wf(),
        !mentioned(withdraws, n).contains(id),
    ensures
        before.after_batch(version, withdraws, n, balances).accounts.contains_key(id)
            == before.accounts.contains_key(id),
        before.accounts.contains_key(id) ==> before.after_batch(
            version,
            withdraws,
            n,
            balances,
        ).accounts[id] == before.accounts[id],
{
    let accounts = before.loaded(version, withdraws, n, balances);
    lemma_unmentioned_account_stays(accounts, withdraws, n, id);
}

/// After a settlement, a batch is decided on balances read for it and on nothing older.
pub proof fn law_batch_after_settlement_starts_afresh(
    before: SchedulerView,
    settled: SequenceNumber,
    version: SequenceNumber,
    withdraws: Seq<TxBalanceWithdraw>,
    n: nat,
    balances: Map<ObjectID, u64>,
)
    ensures
        before.after_settlement(settled).untracked(withdraws, n) == mentioned(withdraws, n),
        before.after_settlement(settled).loaded(version, withdraws, n, balances).dom() == mentioned(
            withdraws,
            n,
        ),
        forall|id: ObjectID| #[trigger]
            mentioned(withdraws, n).contains(id) ==> before.after_settlement(settled).loaded(
                version,
                withdraws,
                n,
                balances,
            )[id] == AccountState::settled(balances[id], version),
{
    assert(before.after_settlement(settled).untracked(withdraws, n) =~= mentioned(withdraws, n));
    assert(before.after_settlement(settled).loaded(version, withdraws, n, balances).dom()
        =~= mentioned(withdraws, n));
}

/// Accounts that no transaction names do not matter to the decisions.
proof fn lemma_decisions_rest_on_mentioned_accounts(
    fewer: Map<ObjectID, AccountState>,
    more: Map<ObjectID, AccountState>,
    withdraws: Seq<TxBalanceWithdraw>,
    n: nat,
    k: nat,
)
    requires
        k <= n,
        mentioned(withdraws, n).subset_of(fewer.dom()),
        fewer.submap_of(more),
    ensures
        accounts_after(fewer, withdraws, k).dom() == fewer.dom(),
        accounts_after(fewer, withdraws, k).submap_of(accounts_after(more, withdraws, k)),
    decreases k,
{
    if k > 0 {
        lemma_decisions_rest_on_mentioned_accounts(fewer, more, withdraws, n, (k - 1) as nat);
        lemma_same_decision(fewer, more, withdraws, n, (k - 1) as nat);
        let a = accounts_after(fewer, withdraws, (k - 1) as nat);
        let reservations = withdraws[k - 1].reservations@;
        assert(decide(a, reservations).dom() =~= a.dom());
    }
}

/// Two sets of accounts that agree on those of a transaction give the same decision.
proof fn lemma_same_decision(
    fewer: Map<ObjectID, AccountState>,
    more: Map<ObjectID, AccountState>,
    withdraws: Seq<TxBalanceWithdraw>,
    n: nat,
    i: nat,
)
    requires
        i < n,
        mentioned(withdraws, n).subset_of(fewer.dom()),
        accounts_after(fewer, withdraws, i).dom() == fewer.dom(),
        accounts_after(fewer, withdraws, i).submap_of(accounts_after(more, withdraws, i)),
    ensures
        status_of(fewer, withdraws, i as int) == status_of(more, withdraws, i as int),
{
    let a = accounts_after(fewer, withdraws, i);
    let b = accounts_after(more, withdraws, i);
    let reservations = withdraws[i as int].reservations@;
    assert forall|id: ObjectID| #[trigger] reservations.contains_key(id) implies a[id] == b[id] by {
        assert(withdraws[i as int].reservations@.contains_key(id));
        assert(mentioned(withdraws, n).contains(id));
        assert(a.dom().contains(id) && b.dom().contains(id));
    }
    assert(all_covered(a, reservations) == all_covered(b, reservations));
}

/// The transactions of a batch are decided in their order: what comes later in the batch changes
/// nothing of the decisions before it.
pub proof fn law_later_transactions_do_not_matter(
    before: SchedulerView,
    version: SequenceNumber,
    withdraws: Seq<TxBalanceWithdraw>,
    n: nat,
    m: nat,
    balances: Map<ObjectID, u64>,
    i: nat,
)
    requires
        i < n <= m,
    ensures
        status_of(before.loaded(version, withdraws, n, balances), withdraws, i as int) == status_of(
            before.loaded(version, withdraws, m, balances),
            withdraws,
            i as int,
        ),
{
    let fewer = before.loaded(version, withdraws, n, balances);
    let more = before.loaded(version, withdraws, m, balances);
    assert(mentioned(withdraws, n).subset_of(mentioned(withdraws, m)));
    assert(fewer.submap_of(more));
    lemma_decisions_rest_on_mentioned_accounts(fewer, more, withdraws, n, i);
    lemma_same_decision(fewer, more, withdraws, n, i);
}

/// The first load of an account wins: a second one, whatever its version and whatever it would
/// read, changes nothing and asks for nothing.
pub proof fn law_first_load_wins(
    accounts: Map<ObjectID, AccountState>,
    reads: Seq<(ObjectID, SequenceNumber)>,
    id: ObjectID,
    first: SequenceNumber,
    first_balances: Map<ObjectID, u64>,
    second: SequenceNumber,
    second_balances: Map<ObjectID, u64>,
)
    ensures
        ({
            let loaded = with_loaded(accounts, set![id], first_balances, first);
            let asked = reads_after_load(reads, id, accounts.dom(), first);
            &&& with_loaded(loaded, set![id], second_balances, second) == loaded
            &&& reads_after_load(asked, id, loaded.dom(), second) == asked
        }),
{
    let loaded = with_loaded(accounts, set![id], first_balances, first);
    assert(with_loaded(loaded, set![id], second_balances, second) =~= loaded);
}

/// Deciding withdrawals adds to the accounts whose entire balance is reserved one for each
/// reservation of an entire balance that is granted.
proof fn lemma_entire_balances_add_up(
    accounts: Map<ObjectID, AccountState>,
    withdraws: Seq<TxBalanceWithdraw>,
    n: nat,
    k: nat,
)
    requires
        k <= n,
        mentioned(withdraws, n).subset_of(accounts.dom()),
        entire_balance_reserved(accounts).finite(),
    ensures
        accounts_after(accounts, withdraws, k).dom() == accounts.dom(),
        entire_balance_reserved(accounts_after(accounts, withdraws, k)).finite(),
        entire_balance_reserved(accounts_after(accounts, withdraws, k)).len()
            == entire_balance_reserved(accounts).len() + reservations_made(
            statuses_of(accounts, withdraws, n),
            withdraws,
            k,
            true,
        ),
    decreases k,
{
    if k > 0 {
        lemma_entire_balances_add_up(accounts, withdraws, n, (k - 1) as nat);
        let earlier = accounts_after(accounts, withdraws, (k - 1) as nat);
        let later = accounts_after(accounts, withdraws, k);
        let reservations = withdraws[k - 1].reservations@;
        assert(later.dom() =~= earlier.dom());
        assert(statuses_of(accounts, withdraws, n)[k - 1] == status_of(accounts, withdraws, k - 1));
        if all_covered(earlier, reservations) {
            let old_ids = entire_balance_reserved(earlier);
            let new_ids = reserved_by_kind(reservations, true);
            assert(reservations.dom().finite());
            assert forall|id: ObjectID| #[trigger] reservations.contains_key(id) implies
                earlier.contains_key(id) && !old_ids.contains(id) by {
                assert(withdraws[k - 1].reservations@.contains_key(id));
                assert(mentioned(withdraws, n).contains(id));
                assert(earlier[id].covers(reservations[id]));
            }
            assert(entire_balance_reserved(later) =~= old_ids.union(new_ids));
            assert(old_ids.disjoint(new_ids));
            vstd::set_lib::lemma_set_disjoint_lens(old_ids, new_ids);
        }
    }
}

/// The active reservations of entire balances are as many as the tracked accounts whose entire
/// balance is reserved, and a batch and a settlement keep it so, up to the largest 64-bit value.
pub proof fn law_entire_balance_reservations_match_accounts(
    before: SchedulerView,
    version: SequenceNumber,
    withdraws: Seq<TxBalanceWithdraw>,
    n: nat,
    balances: Map<ObjectID, u64>,
)
    requires
        before.accounts.dom().finite(),
        before.entire_balance_reservations == grown(
            0,
            entire_balance_reserved(before.accounts).len(),
        ),
    ensures
        ({
            let after = before.after_batch(version, withdraws, n, balances);
            after.entire_balance_reservations == grown(
                0,
                entire_balance_reserved(after.accounts).len(),
            )
        }),
        ({
            let after = before.after_settlement(version);
            after.entire_balance_reservations == grown(
                0,
                entire_balance_reserved(after.accounts).len(),
            )
        }),
{
    let loaded = before.loaded(version, withdraws, n, balances);
    let decided = accounts_after(loaded, withdraws, n);
    let after = before.after_batch(version, withdraws, n, balances);
    assert(entire_balance_reserved(loaded) =~= entire_balance_reserved(before.accounts));
    lemma_entire_balances_add_up(loaded, withdraws, n, n);
    assert(entire_balance_reserved(after.accounts) =~= entire_balance_reserved(decided));
    assert(entire_balance_reserved(before.after_settlement(version).accounts) =~= Set::empty());
}

/// A settlement leaves no reservation active, and after it the active ones are those that were
/// granted since.
pub proof fn law_active_reservations_are_those_since_settlement(
    before: SchedulerView,
    settled: SequenceNumber,
    version: SequenceNumber,
    withdraws: Seq<TxBalanceWithdraw>,
    n: nat,
    balances: Map<ObjectID, u64>,
)
    ensures
        ({
            let settled_view = before.after_settlement(settled);
            let statuses = statuses_of(
                settled_view.loaded(version, withdraws, n, balances),
                withdraws,
                n,
            );
            let after = settled_view.after_batch(version, withdraws, n, balances);
            &&& settled_view.amount_reservations == 0
            &&& settled_view.entire_balance_reservations == 0
            &&& after.amount_reservations == grown(
                0,
                reservations_made(statuses, withdraws, n, false),
            )
            &&& after.entire_balance_reservations == grown(
                0,
                reservations_made(statuses, withdraws, n, true),
            )
        }),
{
}

/// A transaction that is decided against adds nothing to the reservations that are made, and one
/// that is decided for adds all of its own.
pub proof fn law_reservations_made_by_transaction(
    accounts: Map<ObjectID, AccountState>,
    withdraws: Seq<TxBalanceWithdraw>,
    n: nat,
    i: nat,
    entire: bool,
)
    requires
        i < n,
    ensures
        ({
            let statuses = statuses_of(accounts, withdraws, n);
            let own = reserved_by_kind(withdraws[i as int].reservations@, entire).len();
            reservations_made(statuses, withdraws, i + 1, entire) == reservations_made(
                statuses,
                withdraws,
                i,
                entire,
            ) + if status_of(accounts, withdraws, i as int) is SufficientBalance {
                own
            } else {
                0
            }
        }),
{
}

/// How often a decision occurs.
pub open spec fn occurrences(statuses: Seq<ScheduleStatus>, status: ScheduleStatus) -> nat
    decreases statuses.len(),
{
    if statuses.len() == 0 {
        0
    } else {
        occurrences(statuses.drop_last(), status) + if statuses.last() == status {
            1nat
        } else {
            0
        }
    }
}

/// What the outcome counter of a decision stands at.
pub open spec fn outcome_count(metrics: MetricsView, status: ScheduleStatus) -> nat {
    let label = outcome_label_spec(status);
    if metrics.schedule_outcomes.contains_key(label) {
        metrics.schedule_outcomes[label] as nat
    } else {
        0
    }
}

/// Each outcome counter grows by the number of decisions of its kind, modulo 2^64, and the other
/// metrics stay as they are.
pub proof fn law_outcomes_are_counted(
    metrics: MetricsView,
    statuses: Seq<ScheduleStatus>,
    status: ScheduleStatus,
)
    ensures
        outcome_count(metrics.with_outcomes(statuses), status) == (outcome_count(metrics, status)
            + occurrences(statuses, status)) % 0x1_0000_0000_0000_0000,
        metrics.with_outcomes(statuses) == (MetricsView {
            schedule_outcomes: metrics.with_outcomes(statuses).schedule_outcomes,
            ..metrics
        }),
    decreases statuses.len(),
{
    if statuses.len() > 0 {
        law_outcomes_are_counted(metrics, statuses.drop_last(), status);
        reveal_strlit("sufficient_balance");
        reveal_strlit("insufficient_balance");
        reveal_strlit("already_scheduled");
        let before = metrics.with_outcomes(statuses.drop_last()).schedule_outcomes;
        let after = increased(before, outcome_label_spec(statuses.last()));
        assert(metrics.with_outcomes(statuses).schedule_outcomes == after);
        assert("sufficient_balance"@.len() != "insufficient_balance"@.len());
        assert("sufficient_balance"@.len() != "already_scheduled"@.len());
        assert("insufficient_balance"@.len() != "already_scheduled"@.len());
    }
}

} // verus!
