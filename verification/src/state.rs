//! The state that the scheduler keeps between calls.

use crate::account_state::AccountState;
use crate::model::{
    accounts_after, all_covered, ascending, changed_balance, decide, entire_balance_reserved,
    id_before, mentioned, reserve_each, reserved_by_kind, reserved_only, statuses_of, with_changes,
    with_refreshed, with_reservations, SchedulerView,
};
use crate::scheduled_batches::ScheduledBatches;
use crate::types::{
    BalanceSettlement, ObjectID, Reservation, ScheduleStatus, SequenceNumber, TxBalanceWithdraw,
};
use std::collections::BTreeMap;
use vstd::prelude::*;
use vstd::std_specs::iter::IteratorSpec;

verus! {

#[derive(Debug)]
pub struct EagerSchedulerState {
    /// Track account states only for accounts with pending withdrawals.
    pub account_states: BTreeMap<ObjectID, AccountState>,
    /// Track which consensus batches have been scheduled.
    pub scheduled_batches: ScheduledBatches,
    /// The highest accumulator version we've processed.
    pub highest_processed_version: SequenceNumber,
    /// The last settled accumulator version.
    pub last_settled_version: SequenceNumber,
    /// The reservations of amounts granted since the last settlement.
    pub amount_reservations: u64,
    /// The reservations of entire balances granted since the last settlement.
    pub entire_balance_reservations: u64,
}

/// The entries of a map, each once.
spec fn lists<V>(entries: Seq<(&ObjectID, &V)>, m: Map<ObjectID, V>) -> bool {
    &&& forall|i: int|
        0 <= i < entries.len() ==> m.contains_key(*(#[trigger] entries[i]).0)
            && m[*entries[i].0] == *entries[i].1
    &&& forall|id: ObjectID| #[trigger] m.contains_key(id) ==> entries.contains((&id, &m[id]))
    &&& forall|i: int, j: int|
        0 <= i < j < entries.len() ==> (#[trigger] entries[i]).0 != (#[trigger] entries[j]).0
}

/// What an iterator over a map goes through.
proof fn lemma_lists<V>(entries: Seq<(&ObjectID, &V)>, m: Map<ObjectID, V>)
    requires
        entries.no_duplicates(),
        forall|i: int|
            0 <= i < entries.len() ==> m.contains_key(*(#[trigger] entries[i]).0)
                && m[*entries[i].0] == *entries[i].1,
        forall|id: ObjectID| #[trigger] m.contains_key(id) ==> entries.contains((&id, &m[id])),
    ensures
        lists(entries, m),
{
    assert forall|i: int, j: int| 0 <= i < j < entries.len() implies (#[trigger] entries[i]).0 != (
    #[trigger] entries[j]).0 by {
        assert(entries[i] != entries[j]);
    }
}

/// The keys of a map come in ascending order.
pub proof fn lemma_keys_ascend(keys: Seq<&ObjectID>)
    requires
        vstd::std_specs::btree::increasing_seq(keys),
    ensures
        ascending(keys.unref()),
{
    broadcast use {vstd::laws_cmp::group_laws_cmp, vstd::std_specs::btree::group_btree_axioms};

    assert(vstd::laws_cmp::obeys_cmp::<ObjectID>());
    assert(vstd::laws_cmp::obeys_cmp::<&ObjectID>());
    assert forall|i: int, j: int| 0 <= i < j < keys.len() implies id_before(
        #[trigger] keys.unref()[i],
        #[trigger] keys.unref()[j],
    ) by {
        assert(vstd::std_specs::cmp::OrdSpec::cmp_spec(&keys[i], &keys[j]) is Less);
    }
}

impl View for EagerSchedulerState {
    type V = SchedulerView;

    open spec fn view(&self) -> SchedulerView {
        SchedulerView {
            accounts: self.account_states@,
            scheduled: self.scheduled_batches@,
            highest_processed_version: self.highest_processed_version,
            last_settled_version: self.last_settled_version,
            amount_reservations: self.amount_reservations,
            entire_balance_reservations: self.entire_balance_reservations,
        }
    }
}

impl EagerSchedulerState {
    pub fn new(starting_accumulator_version: SequenceNumber) -> (state: EagerSchedulerState)
        ensures
            state@ == SchedulerView::starting_at(starting_accumulator_version),
            state@.wf(),
    {
        EagerSchedulerState {
            account_states: BTreeMap::new(),
            scheduled_batches: ScheduledBatches::new(),
            highest_processed_version: starting_accumulator_version,
            last_settled_version: starting_accumulator_version,
            amount_reservations: 0,
            entire_balance_reservations: 0,
        }
    }

    /// Mark a batch as scheduled.
    pub fn mark_batch(&mut self, version: SequenceNumber)
        ensures
            final(self)@ == old(self)@.marked(version),
    {
        self.scheduled_batches.mark_scheduled(version);
        if self.highest_processed_version.0 < version.0 {
            self.highest_processed_version = version;
        }
    }

    /// Track an account that holds `balance` at `version`.
    pub fn load_account(&mut self, account_id: &ObjectID, balance: u64, version: SequenceNumber)
        ensures
            final(self)@ == (SchedulerView {
                accounts: old(self)@.accounts.insert(
                    *account_id,
                    AccountState::settled(balance, version),
                ),
                ..old(self)@
            }),
    {
        self.account_states.insert(*account_id, AccountState::new(balance, version));
    }

    /// Put back the account states that were saved before they were changed, where `before` holds
    /// all of them as they were.
    fn restore(
        &mut self,
        saved: &Vec<(ObjectID, AccountState)>,
        Ghost(before): Ghost<Map<ObjectID, AccountState>>,
    )
        requires
            old(self)@.accounts.dom() == before.dom(),
            forall|i: int|
                0 <= i < saved@.len() ==> before.contains_key((#[trigger] saved@[i]).0)
                    && saved@[i].1 == before[saved@[i].0],
            forall|id: ObjectID|
                before.contains_key(id) && old(self)@.accounts[id] != before[id] ==> exists|i: int|
                    0 <= i < saved@.len() && (#[trigger] saved@[i]).0 == id,
        ensures
            final(self)@ == (SchedulerView { accounts: before, ..old(self)@ }),
    {
        for k in 0..saved.len()
            invariant
                self@ == (SchedulerView { accounts: self@.accounts, ..old(self)@ }),
                self@.accounts.dom() == before.dom(),
                forall|i: int|
                    0 <= i < saved@.len() ==> before.contains_key((#[trigger] saved@[i]).0)
                        && saved@[i].1 == before[saved@[i].0],
                forall|id: ObjectID|
                    before.contains_key(id) && self@.accounts[id] != before[id] ==> exists|i: int|
                        k <= i < saved@.len() && (#[trigger] saved@[i]).0 == id,
        {
            self.account_states.insert(saved[k].0, saved[k].1);
            assert(self@.accounts.dom() =~= before.dom());
        }
        assert(self@.accounts =~= before);
    }

    /// Try to reserve all amounts of a transaction atomically: if some account does not cover its
    /// reservation, none is made.
    pub fn try_reserve_all(&mut self, reservations: &BTreeMap<ObjectID, Reservation>) -> (reserved:
        bool)
        requires
            forall|id: ObjectID| #[trigger]
                reservations@.contains_key(id) ==> old(self)@.accounts.contains_key(id),
        ensures
            reserved == all_covered(old(self)@.accounts, reservations@),
            final(self)@ == (SchedulerView {
                accounts: decide(old(self)@.accounts, reservations@),
                ..old(self)@
            }),
    {
        let ghost before = self@.accounts;
        let mut saved: Vec<(ObjectID, AccountState)> = Vec::new();
        let entries = reservations.iter();
        proof {
            lemma_lists(IteratorSpec::remaining(&entries), reservations@);
        }
        for (account_id, reservation) in it: entries
            invariant
                before == old(self)@.accounts,
                self@ == (SchedulerView { accounts: self@.accounts, ..old(self)@ }),
                forall|id: ObjectID| #[trigger]
                    reservations@.contains_key(id) ==> before.contains_key(id),
                self@.accounts.dom() == before.dom(),
                saved@.len() == it.index(),
                lists(it.seq(), reservations@),
                forall|i: int|
                    0 <= i < it.index() ==> (#[trigger] saved@[i]).0 == *it.seq()[i].0
                        && before.contains_key(saved@[i].0) && saved@[i].1 == before[saved@[i].0],
                forall|i: int|
                    0 <= i < it.index() ==> {
                        let (id, reservation) = #[trigger] it.seq()[i];
                        &&& before[*id].covers(*reservation)
                        &&& self@.accounts[*id] == before[*id].reserve(*reservation)
                    },
                forall|id: ObjectID|
                    before.contains_key(id) && self@.accounts[id] != before[id] ==> exists|i: int|
                        0 <= i < saved@.len() && (#[trigger] saved@[i]).0 == id,
        {
            let mut account: AccountState = *self.account_states.get(account_id).unwrap();
            let original: AccountState = account;
            if account.try_reserve(reservation) {
                self.account_states.insert(*account_id, account);
                let ghost earlier = saved@;
                saved.push((*account_id, original));
                assert(forall|i: int|
                    #![trigger earlier[i]]
                    0 <= i < earlier.len() ==> saved@[i] == earlier[i]);
                assert(saved@[earlier.len() as int].0 == *account_id);
            } else {
                self.restore(&saved, Ghost(before));
                return false;
            }
        }
        assert(self@.accounts =~= reserve_each(before, reservations@));
        true
    }

    /// Decide the first `count` withdrawals one after the other, each on what the earlier ones
    /// left.
    pub fn schedule_transactions(
        &mut self,
        withdraws: &Vec<TxBalanceWithdraw>,
        count: usize,
    ) -> (statuses: Vec<ScheduleStatus>)
        requires
            count <= withdraws@.len(),
            mentioned(withdraws@, count as nat).subset_of(old(self)@.accounts.dom()),
        ensures
            statuses@ == statuses_of(old(self)@.accounts, withdraws@, count as nat),
            final(self)@ == (SchedulerView {
                accounts: accounts_after(old(self)@.accounts, withdraws@, count as nat),
                ..old(self)@
            }),
    {
        let mut statuses: Vec<ScheduleStatus> = Vec::new();
        for k in 0..count
            invariant
                count <= withdraws@.len(),
                mentioned(withdraws@, count as nat).subset_of(self@.accounts.dom()),
                statuses@ == statuses_of(old(self)@.accounts, withdraws@, k as nat),
                self@ == (SchedulerView {
                    accounts: accounts_after(old(self)@.accounts, withdraws@, k as nat),
                    ..old(self)@
                }),
        {
            let reservations = &withdraws[k].reservations;
            assert forall|id: ObjectID| #[trigger] reservations@.contains_key(id) implies
                self@.accounts.contains_key(id) by {
                assert(withdraws@[k as int].reservations@.contains_key(id));
                assert(mentioned(withdraws@, count as nat).contains(id));
            }
            let status: ScheduleStatus = if self.try_reserve_all(reservations) {
                ScheduleStatus::SufficientBalance
            } else {
                ScheduleStatus::InsufficientBalance
            };
            statuses.push(status);
            assert(statuses@ =~= statuses_of(old(self)@.accounts, withdraws@, (k + 1) as nat));
        }
        statuses
    }

    /// Count the reservations of the withdrawals that were granted.
    pub fn count_reservations(
        &mut self,
        withdraws: &Vec<TxBalanceWithdraw>,
        statuses: &Vec<ScheduleStatus>,
    )
        requires
            statuses@.len() <= withdraws@.len(),
        ensures
            final(self)@ == old(self)@.counted(statuses@, withdraws@, statuses@.len()),
    {
        for k in 0..statuses.len()
            invariant
                statuses@.len() <= withdraws@.len(),
                self@ == old(self)@.counted(statuses@, withdraws@, k as nat),
        {
            if statuses[k] == ScheduleStatus::SufficientBalance {
                let (amounts, entire) = count_kinds(&withdraws[k].reservations);
                self.amount_reservations = self.amount_reservations.saturating_add(amounts as u64);
                self.entire_balance_reservations =
                    self.entire_balance_reservations.saturating_add(entire as u64);
            }
        }
    }

    /// Clean up accounts that no longer need tracking.
    pub fn cleanup_accounts(&mut self)
        ensures
            final(self)@ == (SchedulerView {
                accounts: reserved_only(old(self)@.accounts),
                ..old(self)@
            }),
    {
        let mut retained: BTreeMap<ObjectID, AccountState> = BTreeMap::new();
        for (account_id, account) in it: self.account_states.iter()
            invariant
                forall|id: ObjectID| #[trigger]
                    retained@.contains_key(id) ==> self.account_states@.contains_key(id)
                        && retained@[id] == self.account_states@[id] && retained@[id].is_reserved(),
                forall|i: int|
                    0 <= i < it.index() && (#[trigger] it.seq()[i]).1.is_reserved()
                        ==> retained@.contains_key(*it.seq()[i].0),
        {
            if account.cumulative_reservations > 0 || account.entire_balance_reserved {
                retained.insert(*account_id, *account);
            }
        }
        self.account_states = retained;
        assert(self@.accounts =~= reserved_only(old(self)@.accounts));
    }

    /// Count the tracked accounts.
    pub fn count_accounts(&self) -> (counts: AccountCounts)
        ensures
            counts.total == self@.accounts.len(),
            counts.with_reservations == with_reservations(self@.accounts).len(),
            counts.entire_balance_reserved == entire_balance_reserved(self@.accounts).len(),
    {
        let ghost accounts = self@.accounts;
        let total: usize = self.account_states.len();
        let mut with: usize = 0;
        let mut entire: usize = 0;
        let ghost mut with_ids: Set<ObjectID> = Set::empty();
        let ghost mut entire_ids: Set<ObjectID> = Set::empty();
        let entries = self.account_states.iter();
        proof {
            lemma_lists(IteratorSpec::remaining(&entries), accounts);
        }
        for (account_id, account) in it: entries
            invariant
                it.seq().len() <= usize::MAX,
                lists(it.seq(), accounts),
                with_ids.finite() && with_ids.len() == with && with <= it.index(),
                entire_ids.finite() && entire_ids.len() == entire && entire <= it.index(),
                forall|id: ObjectID| #[trigger]
                    with_ids.contains(id) <==> (exists|i: int|
                        0 <= i < it.index() && *(#[trigger] it.seq()[i]).0 == id
                            && it.seq()[i].1.cumulative_reservations > 0),
                forall|id: ObjectID| #[trigger]
                    entire_ids.contains(id) <==> (exists|i: int|
                        0 <= i < it.index() && *(#[trigger] it.seq()[i]).0 == id
                            && it.seq()[i].1.entire_balance_reserved),
        {
            if account.cumulative_reservations > 0 {
                with = with + 1;
                proof {
                    with_ids = with_ids.insert(*account_id);
                }
            }
            if account.entire_balance_reserved {
                entire = entire + 1;
                proof {
                    entire_ids = entire_ids.insert(*account_id);
                }
            }
        }
        assert(with_ids =~= with_reservations(accounts));
        assert(entire_ids =~= entire_balance_reserved(accounts));
        AccountCounts {
            total,
            with_reservations: with,
            entire_balance_reserved: entire,
        }
    }

    /// Apply the balance changes of a settlement to tracked accounts.
    pub fn apply_balance_changes(&mut self, settlement: &BalanceSettlement)
        ensures
            final(self)@ == (SchedulerView {
                accounts: with_changes(
                    old(self)@.accounts,
                    settlement.balance_changes@,
                    settlement.accumulator_version,
                ),
                ..old(self)@
            }),
    {
        let ghost before = self@.accounts;
        let ghost changes = settlement.balance_changes@;
        let version: SequenceNumber = settlement.accumulator_version;
        let entries = settlement.balance_changes.iter();
        proof {
            lemma_lists(IteratorSpec::remaining(&entries), changes);
        }
        for (account_id, balance_change) in it: entries
            invariant
                changes == settlement.balance_changes@,
                version == settlement.accumulator_version,
                self@ == (SchedulerView { accounts: self@.accounts, ..old(self)@ }),
                self@.accounts.dom() == before.dom(),
                lists(it.seq(), changes),
                forall|i: int|
                    0 <= i < it.index() && before.contains_key(*(#[trigger] it.seq()[i]).0)
                        ==> self@.accounts[*it.seq()[i].0] == AccountState::settled(
                        changed_balance(
                            before[*it.seq()[i].0].settled_balance,
                            *it.seq()[i].1,
                        ),
                        version,
                    ),
                forall|id: ObjectID|
                    before.contains_key(id) && (forall|i: int|
                        0 <= i < it.index() ==> *(#[trigger] it.seq()[i]).0 != id)
                        ==> #[trigger] self@.accounts[id] == before[id],
        {
            if let Some(current) = self.account_states.get(account_id) {
                let mut account: AccountState = *current;
                let new_balance: u64 = change_balance(account.settled_balance, *balance_change);
                account.apply_settlement(new_balance, version);
                self.account_states.insert(*account_id, account);
                assert(self@.accounts.dom() =~= before.dom());
            }
        }
        assert(self@.accounts =~= with_changes(before, changes, version));
    }

    /// The tracked accounts that a settlement does not name, in ascending order.
    pub fn accounts_to_update(&self, settlement: &BalanceSettlement) -> (ids: Vec<ObjectID>)
        ensures
            ids@.to_set() == self@.accounts.dom().difference(settlement.balance_changes@.dom()),
            ascending(ids@),
    {
        let mut ids: Vec<ObjectID> = Vec::new();
        let keys = self.account_states.keys();
        proof {
            lemma_keys_ascend(IteratorSpec::remaining(&keys));
        }
        for account_id in it: keys
            invariant
                it.seq().unref().to_set() == self@.accounts.dom(),
                ascending(it.seq().unref()),
                ascending(ids@),
                forall|i: int|
                    0 <= i < ids@.len() ==> self@.accounts.contains_key(#[trigger] ids@[i])
                        && !settlement.balance_changes@.contains_key(ids@[i]),
                forall|i: int, k: int|
                    0 <= i < ids@.len() && it.index() <= k < it.seq().len() ==> id_before(
                        #[trigger] ids@[i],
                        #[trigger] it.seq().unref()[k],
                    ),
                forall|k: int|
                    0 <= k < it.index() && !settlement.balance_changes@.contains_key(
                        #[trigger] it.seq().unref()[k],
                    ) ==> ids@.contains(it.seq().unref()[k]),
        {
            if !settlement.balance_changes.contains_key(account_id) {
                assert(it.seq().unref()[it.index()] == *account_id);
                assert(it.seq().unref().to_set().contains(*account_id));
                let ghost earlier = ids@;
                ids.push(*account_id);
                assert(ids@[earlier.len() as int] == *account_id);
                assert(forall|i: int|
                    #![trigger earlier[i]]
                    0 <= i < earlier.len() ==> ids@[i] == earlier[i]);
            }
        }
        assert(ids@.to_set() =~= self@.accounts.dom().difference(
            settlement.balance_changes@.dom(),
        ));
        ids
    }

    /// Settle a tracked account at `version` with the balance that was read for it.
    pub fn refresh_account(&mut self, account_id: &ObjectID, balance: u64, version: SequenceNumber)
        ensures
            final(self)@ == (SchedulerView {
                accounts: with_refreshed(
                    old(self)@.accounts,
                    map![*account_id => balance],
                    version,
                ),
                ..old(self)@
            }),
    {
        if let Some(current) = self.account_states.get(account_id) {
            let mut account: AccountState = *current;
            account.apply_settlement(balance, version);
            self.account_states.insert(*account_id, account);
        }
        assert(self@.accounts =~= with_refreshed(
            old(self)@.accounts,
            map![*account_id => balance],
            version,
        ));
    }
}

/// How many reservations of amounts there are, and how many of entire balances.
fn count_kinds(reservations: &BTreeMap<ObjectID, Reservation>) -> (counts: (usize, usize))
    ensures
        counts.0 == reserved_by_kind(reservations@, false).len(),
        counts.1 == reserved_by_kind(reservations@, true).len(),
{
    let total: usize = reservations.len();
    let mut entire: usize = 0;
    let ghost mut entire_ids: Set<ObjectID> = Set::empty();
    let entries = reservations.iter();
    proof {
        lemma_lists(IteratorSpec::remaining(&entries), reservations@);
    }
    for (account_id, reservation) in it: entries
        invariant
            it.seq().len() <= usize::MAX,
            lists(it.seq(), reservations@),
            entire_ids.finite() && entire_ids.len() == entire && entire <= it.index(),
            forall|id: ObjectID| #[trigger]
                entire_ids.contains(id) <==> (exists|i: int|
                    0 <= i < it.index() && *(#[trigger] it.seq()[i]).0 == id
                        && it.seq()[i].1 is EntireBalance),
    {
        if let Reservation::EntireBalance = reservation {
            entire = entire + 1;
            proof {
                entire_ids = entire_ids.insert(*account_id);
            }
        }
    }
    proof {
        let amount_ids = reserved_by_kind(reservations@, false);
        assert(entire_ids =~= reserved_by_kind(reservations@, true));
        assert(amount_ids.union(entire_ids) =~= reservations@.dom());
        vstd::set_lib::lemma_set_disjoint_lens(amount_ids, entire_ids);
    }
    (total - entire, entire)
}

/// Calculate a new balance from a change.
pub fn change_balance(balance: u64, change: i128) -> (changed: u64)
    ensures
        changed == changed_balance(balance, change),
{
    if change >= 0 {
        let amount: u128 = change as u128;
        proof {
            lemma_low_half(amount);
        }
        balance.saturating_add(amount as u64)
    } else {
        let amount: u128 = (-(change + 1)) as u128 + 1;
        proof {
            lemma_low_half(amount);
        }
        balance.saturating_sub(amount as u64)
    }
}

/// A cast to 64 bits keeps the value modulo 2^64.
proof fn lemma_low_half(amount: u128)
    ensures
        (amount as u64) as int == amount as int % 0x1_0000_0000_0000_0000int,
{
    assert((amount as u64) as u128 == amount % 0x1_0000_0000_0000_0000u128) by (bit_vector);
}

/// How many accounts are tracked, and how many of them have each kind of reservation.
#[derive(Clone, Copy, Debug, PartialEq, Eq, Structural)]
pub struct AccountCounts {
    pub total: usize,
    pub with_reservations: usize,
    pub entire_balance_reserved: usize,
}

} // verus!
