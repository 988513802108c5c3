//! Where account balances are read from.

use crate::types::{ObjectID, SequenceNumber};
use vstd::prelude::*;

verus! {

/// A source of account balances, such as the object store of a node.
///
/// Nothing is assumed of what it answers. Contracts that depend on an answer say, with
/// `call_ensures`, that it is one that `get_account_balance` gave for the account and the version.
pub trait AccountBalanceRead {
    /// The balance of an account at an accumulator version.
    fn get_account_balance(
        &self,
        account_id: &ObjectID,
        accumulator_version: SequenceNumber,
    ) -> u64;
}

} // verus!
