//! What the scheduler knows of one account between two settlements.

use crate::types::{Reservation, SequenceNumber};
use vstd::prelude::*;

verus! {

#[derive(Clone, Copy, Debug, PartialEq, Eq, Structural)]
pub struct AccountState {
    /// The last known settled balance from the accumulator.
    pub settled_balance: u64,
    /// Cumulative reservations since the last known settlement: the sum of all reservations
    /// scheduled since then.
    pub cumulative_reservations: u64,
    /// The accumulator version at which this balance was last settled.
    pub last_settled_version: SequenceNumber,
    /// Whether an `EntireBalance` reservation has been made for this account. If so, no further
    /// reservation can be scheduled until settlement.
    pub entire_balance_reserved: bool,
}

impl AccountState {
    /// An account that holds `balance` at `version`, with nothing reserved from it.
    pub open spec fn settled(balance: u64, version: SequenceNumber) -> AccountState {
        AccountState {
            settled_balance: balance,
            cumulative_reservations: 0,
            last_settled_version: version,
            entire_balance_reserved: false,
        }
    }

    /// The reservations are covered by the settled balance, and an entire-balance reservation is
    /// the only one of its account.
    pub open spec fn wf(self) -> bool {
        &&& self.cumulative_reservations <= self.settled_balance
        &&& self.entire_balance_reserved ==> self.cumulative_reservations == 0
            && self.settled_balance > 0
    }

    /// Whether something is reserved from the account.
    pub open spec fn is_reserved(self) -> bool {
        self.cumulative_reservations > 0 || self.entire_balance_reserved
    }

    /// What new reservations can still take.
    pub open spec fn guaranteed(self) -> nat {
        if self.entire_balance_reserved || self.settled_balance < self.cumulative_reservations {
            0
        } else {
            (self.settled_balance - self.cumulative_reservations) as nat
        }
    }

    /// Whether a reservation is covered.
    pub open spec fn covers(self, reservation: Reservation) -> bool {
        &&& !self.entire_balance_reserved
        &&& match reservation {
            Reservation::MaxAmountU64(amount) => amount <= self.guaranteed(),
            Reservation::EntireBalance => self.cumulative_reservations == 0
                && self.settled_balance > 0,
        }
    }

    /// The account once a reservation is made.
    pub open spec fn reserve(self, reservation: Reservation) -> AccountState {
        match reservation {
            Reservation::MaxAmountU64(amount) => AccountState {
                cumulative_reservations: if self.cumulative_reservations + amount <= u64::MAX {
                    (self.cumulative_reservations + amount) as u64
                } else {
                    u64::MAX
                },
                ..self
            },
            Reservation::EntireBalance => AccountState { entire_balance_reserved: true, ..self },
        }
    }

    pub fn new(balance: u64, version: SequenceNumber) -> (state: AccountState)
        ensures
            state == AccountState::settled(balance, version),
            state.wf(),
    {
        AccountState {
            settled_balance: balance,
            cumulative_reservations: 0,
            last_settled_version: version,
            entire_balance_reserved: false,
        }
    }

    /// Calculate the minimum guaranteed balance available for new reservations.
    pub fn minimum_guaranteed_balance(&self) -> (balance: u64)
        ensures
            balance == self.guaranteed(),
    {
        if self.entire_balance_reserved {
            0
        } else {
            self.settled_balance.saturating_sub(self.cumulative_reservations)
        }
    }

    /// Try to reserve an amount from this account. Returns true if the reservation was successful;
    /// otherwise the account is as it was.
    pub fn try_reserve(&mut self, reservation: &Reservation) -> (reserved: bool)
        ensures
            reserved == old(self).covers(*reservation),
            reserved == (!old(self).entire_balance_reserved && match *reservation {
                Reservation::MaxAmountU64(amount) => amount == 0
                    || old(self).cumulative_reservations + amount <= old(self).settled_balance,
                Reservation::EntireBalance => old(self).cumulative_reservations == 0
                    && old(self).settled_balance > 0,
            }),
            *final(self) == if reserved {
                old(self).reserve(*reservation)
            } else {
                *old(self)
            },
            old(self).wf() ==> final(self).wf(),
    {
        match reservation {
            Reservation::MaxAmountU64(amount) => {
                if self.entire_balance_reserved {
                    return false;
                }
                let available: u64 = self.minimum_guaranteed_balance();
                if available >= *amount {
                    self.cumulative_reservations =
                        self.cumulative_reservations.saturating_add(*amount);
                    true
                } else {
                    false
                }
            },
            Reservation::EntireBalance => {
                if self.entire_balance_reserved || self.cumulative_reservations > 0 {
                    false
                } else if self.settled_balance > 0 {
                    self.entire_balance_reserved = true;
                    true
                } else {
                    false
                }
            },
        }
    }

    /// Apply a settlement to this account.
    pub fn apply_settlement(&mut self, new_balance: u64, version: SequenceNumber)
        ensures
            *final(self) == AccountState::settled(new_balance, version),
            final(self).wf(),
    {
        self.settled_balance = new_balance;
        self.cumulative_reservations = 0;
        self.entire_balance_reserved = false;
        self.last_settled_version = version;
    }
}

} // verus!
