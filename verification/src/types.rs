//! The values that go in and out of the scheduler.

use std::collections::BTreeMap;
use vstd::prelude::*;

verus! {

/// The 256-bit id of an account object: its first sixteen bytes and its last sixteen, each read
/// as a big-endian integer. The order of the pairs is that of the ids as byte strings.
pub type ObjectID = (u128, u128);

/// A version of the accumulator.
#[derive(Clone, Copy, Debug, PartialEq, Eq, Structural)]
pub struct SequenceNumber(pub u64);

impl SequenceNumber {
    pub fn from_u64(value: u64) -> (version: SequenceNumber)
        ensures
            version == SequenceNumber(value),
    {
        SequenceNumber(value)
    }

    pub fn value(&self) -> (value: u64)
        ensures
            value == self.0,
    {
        self.0
    }
}

/// The digest that identifies a transaction.
#[derive(Clone, Copy, Debug, PartialEq, Eq)]
pub struct TransactionDigest(pub [u8; 32]);

/// What a transaction reserves from one account.
#[derive(Clone, Copy, Debug, PartialEq, Eq, Structural)]
pub enum Reservation {
    /// At most this amount.
    MaxAmountU64(u64),
    /// Whatever the account holds.
    EntireBalance,
}

/// The reservations of one transaction, at most one for each account.
#[derive(Clone, Debug)]
pub struct TxBalanceWithdraw {
    pub tx_digest: TransactionDigest,
    pub reservations: BTreeMap<ObjectID, Reservation>,
}

/// The withdrawals of one consensus commit batch, in the order in which they are decided.
///
/// The `i`-th sender is where the result of the `i`-th withdrawal is owed. The scheduler never
/// looks into a sender: it hands each one back beside its result.
#[derive(Debug)]
pub struct WithdrawReservations<S> {
    /// The accumulator version that the transactions of the batch read.
    pub accumulator_version: SequenceNumber,
    pub withdraws: Vec<TxBalanceWithdraw>,
    pub senders: Vec<S>,
}

impl<S> WithdrawReservations<S> {
    /// How many withdrawals the batch decides: those that have a sender.
    pub open spec fn paired(self) -> nat {
        if self.withdraws@.len() <= self.senders@.len() {
            self.withdraws@.len()
        } else {
            self.senders@.len()
        }
    }
}

/// The balance changes that settle the accumulator at a version.
#[derive(Clone, Debug)]
pub struct BalanceSettlement {
    pub accumulator_version: SequenceNumber,
    pub balance_changes: BTreeMap<ObjectID, i128>,
}

/// How a withdrawal was decided.
#[derive(Clone, Copy, Debug, PartialEq, Eq, Structural)]
pub enum ScheduleStatus {
    /// Every reservation of the transaction is covered.
    SufficientBalance,
    /// Some reservation of the transaction is not covered.
    InsufficientBalance,
    /// The batch of the transaction was scheduled before.
    AlreadyScheduled,
}

/// The decision on one transaction.
#[derive(Clone, Copy, Debug, PartialEq, Eq)]
pub struct ScheduleResult {
    pub tx_digest: TransactionDigest,
    pub status: ScheduleStatus,
}

} // verus!
