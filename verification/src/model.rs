//! The scheduler as mathematics: how a batch and a settlement change the tracked accounts.

use crate::account_state::AccountState;
use crate::scheduled_batches::entries_from;
use crate::types::{ObjectID, Reservation, ScheduleStatus, SequenceNumber, TxBalanceWithdraw};
use vstd::prelude::*;

verus! {

/// The order of account ids.
pub open spec fn id_before(a: ObjectID, b: ObjectID) -> bool {
    a.0 < b.0 || (a.0 == b.0 && a.1 < b.1)
}

/// The ids come in ascending order.
pub open spec fn ascending(ids: Seq<ObjectID>) -> bool {
    forall|i: int, j: int|
        0 <= i < j < ids.len() ==> id_before(#[trigger] ids[i], #[trigger] ids[j])
}

/// The tracked accounts once every account of `ids` is loaded. One that is tracked stays as it is;
/// the others hold what `balances` says at `version`.
pub open spec fn with_loaded(
    accounts: Map<ObjectID, AccountState>,
    ids: Set<ObjectID>,
    balances: Map<ObjectID, u64>,
    version: SequenceNumber,
) -> Map<ObjectID, AccountState> {
    Map::new(
        |id: ObjectID| accounts.contains_key(id) || ids.contains(id),
        |id: ObjectID|
            if accounts.contains_key(id) {
                accounts[id]
            } else {
                AccountState::settled(balances[id], version)
            },
    )
}

/// The accounts that the first `n` withdrawals reserve from.
pub open spec fn mentioned(withdraws: Seq<TxBalanceWithdraw>, n: nat) -> Set<ObjectID> {
    Set::new(
        |id: ObjectID|
            exists|i: int|
                0 <= i < n && #[trigger] withdraws[i].reservations@.contains_key(id),
    )
}

/// One more withdrawal adds its own accounts.
pub proof fn lemma_mentioned_step(withdraws: Seq<TxBalanceWithdraw>, n: nat)
    ensures
        mentioned(withdraws, n + 1) == mentioned(withdraws, n).union(
            withdraws[n as int].reservations@.dom(),
        ),
{
    assert forall|id: ObjectID| mentioned(withdraws, n + 1).contains(id) == mentioned(
        withdraws,
        n,
    ).union(withdraws[n as int].reservations@.dom()).contains(id) by {
        if withdraws[n as int].reservations@.contains_key(id) {
            assert(mentioned(withdraws, n + 1).contains(id));
        }
    }
    assert(mentioned(withdraws, n + 1) =~= mentioned(withdraws, n).union(
        withdraws[n as int].reservations@.dom(),
    ));
}

/// Some of the first `n` withdrawals names `a`, with no withdrawal up to it naming `b`.
pub open spec fn named_earlier(
    withdraws: Seq<TxBalanceWithdraw>,
    n: nat,
    a: ObjectID,
    b: ObjectID,
) -> bool {
    exists|k: nat|
        k <= n && #[trigger] mentioned(withdraws, k).contains(a) && !mentioned(
            withdraws,
            k,
        ).contains(b)
}

/// The order in which a batch goes through its accounts: by the first withdrawal that names them,
/// and by id where that is the same one.
pub open spec fn comes_before(
    withdraws: Seq<TxBalanceWithdraw>,
    n: nat,
    a: ObjectID,
    b: ObjectID,
) -> bool {
    named_earlier(withdraws, n, a, b) || (!named_earlier(withdraws, n, b, a) && id_before(a, b))
}

/// The ids come in the order in which a batch goes through its accounts.
pub open spec fn in_batch_order(
    ids: Seq<ObjectID>,
    withdraws: Seq<TxBalanceWithdraw>,
    n: nat,
) -> bool {
    forall|i: int, j: int|
        0 <= i < j < ids.len() ==> comes_before(
            withdraws,
            n,
            #[trigger] ids[i],
            #[trigger] ids[j],
        )
}

/// An account that the withdrawal at `k` is the first to name comes after those of earlier
/// withdrawals, and after those of smaller id that the same withdrawal names.
pub proof fn lemma_comes_before(
    withdraws: Seq<TxBalanceWithdraw>,
    n: nat,
    k: nat,
    a: ObjectID,
    b: ObjectID,
)
    requires
        k < n,
        !mentioned(withdraws, k).contains(b),
        mentioned(withdraws, k).contains(a) || (withdraws[k as int].reservations@.contains_key(a)
            && id_before(a, b)),
    ensures
        comes_before(withdraws, n, a, b),
{
    if !mentioned(withdraws, k).contains(a) {
        assert forall|m: nat| m <= n && mentioned(withdraws, m).contains(b) implies mentioned(
            withdraws,
            m,
        ).contains(a) by {
            let i = choose|i: int|
                0 <= i < m && #[trigger] withdraws[i].reservations@.contains_key(b);
            if i < k {
                assert(mentioned(withdraws, k).contains(b));
            }
            assert(withdraws[k as int].reservations@.contains_key(a));
        }
    }
}

/// Every reservation is covered by its account.
pub open spec fn all_covered(
    accounts: Map<ObjectID, AccountState>,
    reservations: Map<ObjectID, Reservation>,
) -> bool {
    forall|id: ObjectID| #[trigger]
        reservations.contains_key(id) ==> accounts[id].covers(reservations[id])
}

/// The accounts once every reservation is made.
pub open spec fn reserve_each(
    accounts: Map<ObjectID, AccountState>,
    reservations: Map<ObjectID, Reservation>,
) -> Map<ObjectID, AccountState> {
    accounts.map_entries(
        |id: ObjectID, account: AccountState|
            if reservations.contains_key(id) {
                account.reserve(reservations[id])
            } else {
                account
            },
    )
}

/// The accounts once a transaction is decided: all of its reservations are made, or none.
pub open spec fn decide(
    accounts: Map<ObjectID, AccountState>,
    reservations: Map<ObjectID, Reservation>,
) -> Map<ObjectID, AccountState> {
    if all_covered(accounts, reservations) {
        reserve_each(accounts, reservations)
    } else {
        accounts
    }
}

/// The accounts once the first `n` withdrawals are decided, one after the other.
pub open spec fn accounts_after(
    accounts: Map<ObjectID, AccountState>,
    withdraws: Seq<TxBalanceWithdraw>,
    n: nat,
) -> Map<ObjectID, AccountState>
    decreases n,
{
    if n == 0 {
        accounts
    } else {
        decide(
            accounts_after(accounts, withdraws, (n - 1) as nat),
            withdraws[n - 1].reservations@,
        )
    }
}

/// The decision on the `i`-th withdrawal.
pub open spec fn status_of(
    accounts: Map<ObjectID, AccountState>,
    withdraws: Seq<TxBalanceWithdraw>,
    i: int,
) -> ScheduleStatus {
    if all_covered(accounts_after(accounts, withdraws, i as nat), withdraws[i].reservations@) {
        ScheduleStatus::SufficientBalance
    } else {
        ScheduleStatus::InsufficientBalance
    }
}

/// The decisions on the first `n` withdrawals.
pub open spec fn statuses_of(
    accounts: Map<ObjectID, AccountState>,
    withdraws: Seq<TxBalanceWithdraw>,
    n: nat,
) -> Seq<ScheduleStatus> {
    Seq::new(n, |i: int| status_of(accounts, withdraws, i))
}

/// The accounts from which a transaction reserves the entire balance, or else an amount.
pub open spec fn reserved_by_kind(reservations: Map<ObjectID, Reservation>, entire: bool) -> Set<
    ObjectID,
> {
    reservations.dom().filter(|id: ObjectID| (reservations[id] is EntireBalance) == entire)
}

/// How many reservations of entire balances, or else of amounts, are in those of the first `n`
/// withdrawals that `statuses` grants.
pub open spec fn reservations_made(
    statuses: Seq<ScheduleStatus>,
    withdraws: Seq<TxBalanceWithdraw>,
    n: nat,
    entire: bool,
) -> nat
    decreases n,
{
    if n == 0 {
        0
    } else {
        let earlier = reservations_made(statuses, withdraws, (n - 1) as nat, entire);
        if statuses[n - 1] is SufficientBalance {
            earlier + reserved_by_kind(withdraws[n - 1].reservations@, entire).len()
        } else {
            earlier
        }
    }
}

/// A count that grows by `more` and stops at the largest 64-bit value.
pub open spec fn grown(count: u64, more: nat) -> u64 {
    if count + more > u64::MAX {
        u64::MAX
    } else {
        (count + more) as u64
    }
}

/// The accounts that something is reserved from.
pub open spec fn reserved_only(accounts: Map<ObjectID, AccountState>) -> Map<
    ObjectID,
    AccountState,
> {
    accounts.filter_keys(|id: ObjectID| accounts[id].is_reserved())
}

/// The accounts with reserved amounts.
pub open spec fn with_reservations(accounts: Map<ObjectID, AccountState>) -> Set<ObjectID> {
    accounts.dom().filter(|id: ObjectID| accounts[id].cumulative_reservations > 0)
}

/// The accounts whose entire balance is reserved.
pub open spec fn entire_balance_reserved(accounts: Map<ObjectID, AccountState>) -> Set<ObjectID> {
    accounts.dom().filter(|id: ObjectID| accounts[id].entire_balance_reserved)
}

/// A balance after a change. Of the size of the change only the low 64 bits count, and the result
/// is held between 0 and the largest 64-bit value.
pub open spec fn changed_balance(balance: u64, change: i128) -> u64 {
    let modulus = 0x1_0000_0000_0000_0000int;
    if change >= 0 {
        let sum = balance + change as int % modulus;
        if sum > u64::MAX {
            u64::MAX
        } else {
            sum as u64
        }
    } else {
        let difference = balance - (-(change as int)) % modulus;
        if difference < 0 {
            0
        } else {
            difference as u64
        }
    }
}

/// The accounts once those that `changes` names are settled at `version`.
pub open spec fn with_changes(
    accounts: Map<ObjectID, AccountState>,
    changes: Map<ObjectID, i128>,
    version: SequenceNumber,
) -> Map<ObjectID, AccountState> {
    accounts.map_entries(
        |id: ObjectID, account: AccountState|
            if changes.contains_key(id) {
                AccountState::settled(
                    changed_balance(account.settled_balance, changes[id]),
                    version,
                )
            } else {
                account
            },
    )
}

/// The accounts once those of `balances` are settled at `version` with the balance given there.
pub open spec fn with_refreshed(
    accounts: Map<ObjectID, AccountState>,
    balances: Map<ObjectID, u64>,
    version: SequenceNumber,
) -> Map<ObjectID, AccountState> {
    accounts.map_entries(
        |id: ObjectID, account: AccountState|
            if balances.contains_key(id) {
                AccountState::settled(balances[id], version)
            } else {
                account
            },
    )
}

/// What the scheduler remembers.
#[verifier::ext_equal]
pub struct SchedulerView {
    /// The accounts with pending withdrawals.
    pub accounts: Map<ObjectID, AccountState>,
    /// The batches that have been scheduled, by accumulator version.
    pub scheduled: Map<u64, bool>,
    /// The highest accumulator version of a scheduled batch.
    pub highest_processed_version: SequenceNumber,
    /// The accumulator version of the last settlement.
    pub last_settled_version: SequenceNumber,
    /// The reservations of amounts that were granted since the last settlement.
    pub amount_reservations: u64,
    /// The reservations of entire balances that were granted since the last settlement.
    pub entire_balance_reservations: u64,
}

impl SchedulerView {
    /// A scheduler that starts at a version: nothing is tracked and nothing is scheduled.
    pub open spec fn starting_at(version: SequenceNumber) -> SchedulerView {
        SchedulerView {
            accounts: Map::empty(),
            scheduled: Map::empty(),
            highest_processed_version: version,
            last_settled_version: version,
            amount_reservations: 0,
            entire_balance_reservations: 0,
        }
    }

    /// Every tracked account has a reservation, and its reservations are covered.
    pub open spec fn wf(self) -> bool {
        forall|id: ObjectID| #[trigger]
            self.accounts.contains_key(id) ==> self.accounts[id].wf()
                && self.accounts[id].is_reserved()
    }

    /// The batch at a version has been scheduled.
    pub open spec fn already_scheduled(self, version: SequenceNumber) -> bool {
        self.scheduled.contains_key(version.0)
    }

    /// The accounts of the first `n` withdrawals that are not tracked yet.
    pub open spec fn untracked(self, withdraws: Seq<TxBalanceWithdraw>, n: nat) -> Set<ObjectID> {
        mentioned(withdraws, n).difference(self.accounts.dom())
    }

    /// The accounts on which the first `n` withdrawals are decided.
    pub open spec fn loaded(
        self,
        version: SequenceNumber,
        withdraws: Seq<TxBalanceWithdraw>,
        n: nat,
        balances: Map<ObjectID, u64>,
    ) -> Map<ObjectID, AccountState> {
        with_loaded(self.accounts, mentioned(withdraws, n), balances, version)
    }

    /// The scheduler once a batch is marked as scheduled.
    pub open spec fn marked(self, version: SequenceNumber) -> SchedulerView {
        SchedulerView {
            scheduled: self.scheduled.insert(version.0, true),
            highest_processed_version: if self.highest_processed_version.0 >= version.0 {
                self.highest_processed_version
            } else {
                version
            },
            ..self
        }
    }

    /// The scheduler once the reservations of the first `n` withdrawals are counted, as far as
    /// `statuses` grants them.
    pub open spec fn counted(
        self,
        statuses: Seq<ScheduleStatus>,
        withdraws: Seq<TxBalanceWithdraw>,
        n: nat,
    ) -> SchedulerView {
        SchedulerView {
            amount_reservations: grown(
                self.amount_reservations,
                reservations_made(statuses, withdraws, n, false),
            ),
            entire_balance_reservations: grown(
                self.entire_balance_reservations,
                reservations_made(statuses, withdraws, n, true),
            ),
            ..self
        }
    }

    /// The scheduler once the first `n` withdrawals of a batch are scheduled, where `balances`
    /// holds what was read for the untracked accounts.
    pub open spec fn after_batch(
        self,
        version: SequenceNumber,
        withdraws: Seq<TxBalanceWithdraw>,
        n: nat,
        balances: Map<ObjectID, u64>,
    ) -> SchedulerView {
        let loaded = self.loaded(version, withdraws, n, balances);
        SchedulerView {
            accounts: reserved_only(accounts_after(loaded, withdraws, n)),
            ..self.marked(version).counted(statuses_of(loaded, withdraws, n), withdraws, n)
        }
    }

    /// The scheduler once a version is settled.
    pub open spec fn after_settlement(self, version: SequenceNumber) -> SchedulerView {
        SchedulerView {
            accounts: Map::empty(),
            scheduled: entries_from(self.scheduled, version),
            last_settled_version: version,
            amount_reservations: 0,
            entire_balance_reservations: 0,
            ..self
        }
    }
}

/// Deciding withdrawals tracks the same accounts and keeps their reservations covered.
pub proof fn lemma_accounts_after_wf(
    accounts: Map<ObjectID, AccountState>,
    withdraws: Seq<TxBalanceWithdraw>,
    n: nat,
)
    requires
        forall|id: ObjectID| #[trigger] accounts.contains_key(id) ==> accounts[id].wf(),
    ensures
        accounts_after(accounts, withdraws, n).dom() == accounts.dom(),
        forall|id: ObjectID| #[trigger]
            accounts.contains_key(id) ==> accounts_after(accounts, withdraws, n)[id].wf(),
    decreases n,
{
    if n > 0 {
        lemma_accounts_after_wf(accounts, withdraws, (n - 1) as nat);
        let earlier = accounts_after(accounts, withdraws, (n - 1) as nat);
        let reservations = withdraws[n - 1].reservations@;
        assert(decide(earlier, reservations).dom() =~= earlier.dom());
    }
}

/// Scheduling a batch keeps the scheduler well formed.
pub proof fn lemma_after_batch_wf(
    before: SchedulerView,
    version: SequenceNumber,
    withdraws: Seq<TxBalanceWithdraw>,
    n: nat,
    balances: Map<ObjectID, u64>,
)
    requires
        before.wf(),
    ensures
        before.after_batch(version, withdraws, n, balances).wf(),
{
    lemma_accounts_after_wf(before.loaded(version, withdraws, n, balances), withdraws, n);
}

} // verus!
